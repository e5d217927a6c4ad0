//! Habit classification of identifiers and checked-out entries, by the
//! collection their identifier lies in, and the typed read of a required
//! string header field.

use vstd::prelude::*;
use crate::FieldError;
use crate::entry::Entry;
use crate::entry::read_path;
use crate::ident::Identifier;
use crate::ident::in_collection;
use crate::ident::name_views;
use crate::store::Handle;
use crate::strutil::spec_split;
use crate::value::HVal;

verus! {

/// A thing that names an entry and can be asked whether it belongs to the
/// habit collection, its instances, or its templates.
pub trait IsHabitCheck {
    /// The identifier text the check runs against.
    spec fn id_text(&self) -> Seq<char>;

    /// The identifier lies in the habit collection.
    fn is_habit(&self) -> (r: bool)
        ensures
            r == in_collection(self.id_text(), seq!["habit"@]),
    ;

    /// The identifier lies in the habit instance collection.
    fn is_habit_instance(&self) -> (r: bool)
        ensures
            r == in_collection(self.id_text(), seq!["habit"@, "instance"@]),
    ;

    /// The identifier lies in the habit template collection.
    fn is_habit_template(&self) -> (r: bool)
        ensures
            r == in_collection(self.id_text(), seq!["habit"@, "template"@]),
    ;
}

impl IsHabitCheck for Identifier {
    open spec fn id_text(&self) -> Seq<char> {
        self@
    }

    fn is_habit(&self) -> (r: bool) {
        let mut names: Vec<&str> = Vec::new();
        names.push("habit");
        proof {
            assert(name_views(names@) =~= seq!["habit"@]);
        }
        self.is_in_collection(names.as_slice())
    }

    fn is_habit_instance(&self) -> (r: bool) {
        let mut names: Vec<&str> = Vec::new();
        names.push("habit");
        names.push("instance");
        proof {
            assert(name_views(names@) =~= seq!["habit"@, "instance"@]);
        }
        self.is_in_collection(names.as_slice())
    }

    fn is_habit_template(&self) -> (r: bool) {
        let mut names: Vec<&str> = Vec::new();
        names.push("habit");
        names.push("template");
        proof {
            assert(name_views(names@) =~= seq!["habit"@, "template"@]);
        }
        self.is_in_collection(names.as_slice())
    }
}

impl IsHabitCheck for Handle {
    open spec fn id_text(&self) -> Seq<char> {
        self.location()
    }

    fn is_habit(&self) -> (r: bool) {
        self.get_location().is_habit()
    }

    fn is_habit_instance(&self) -> (r: bool) {
        self.get_location().is_habit_instance()
    }

    fn is_habit_template(&self) -> (r: bool) {
        self.get_location().is_habit_template()
    }
}

/// Reads a required string field from an entry's header: absence and a
/// value of another kind are each their own error.
pub fn get_string_header_from_entry(e: &Entry, path: &str) -> (r: Result<String, FieldError>)
    ensures
        match r {
            Ok(s) => read_path(e.header_model(), spec_split(path@, '.')) == Some(HVal::S(s@)),
            Err(FieldError::Missing) => read_path(e.header_model(), spec_split(path@, '.'))
                == None::<HVal>,
            Err(FieldError::Mismatch) => match read_path(
                e.header_model(),
                spec_split(path@, '.'),
            ) {
                Some(v) => !(v is S),
                None => false,
            },
            Err(FieldError::Invalid(_)) => false,
        },
{
    match e.read_string(path) {
        Ok(Some(s)) => Ok(s),
        Ok(None) => Err(FieldError::Missing),
        Err(_) => Err(FieldError::Mismatch),
    }
}

} // verus!
