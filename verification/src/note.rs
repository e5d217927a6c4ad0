//! The note view over a checked-out entry: a name in the `note.name`
//! header field and free text in the content.

use vstd::prelude::*;
use crate::FieldError;
use crate::TypeError;
use crate::entry::insert_path;
use crate::entry::read_path;
use crate::store::Handle;
use crate::strutil::spec_split;
use crate::value::HVal;
use crate::value::Value;

verus! {

impl Handle {
    /// Names the note: sets the `note.name` header field; marks the handle
    /// dirty.
    pub fn set_name(&mut self, n: String) -> (r: Result<(), TypeError>)
        ensures
            match r {
                Ok(()) => insert_path(
                    old(self).header_model(),
                    spec_split("note.name"@, '.'),
                    HVal::S(n@),
                ) == Some(final (self).header_model()),
                Err(e) => e == TypeError::Mismatch && insert_path(
                    old(self).header_model(),
                    spec_split("note.name"@, '.'),
                    HVal::S(n@),
                ) == None::<Seq<(Seq<char>, HVal)>> && final (self).header_model() == old(
                    self,
                ).header_model(),
            },
            final (self).content_model() == old(self).content_model(),
            final (self).is_dirty(),
            final (self).location() == old(self).location(),
    {
        self.header_insert("note.name", Value::Str(n))
    }

    /// The note's name: the `note.name` header field, which must hold a
    /// string.
    pub fn get_name(&self) -> (r: Result<String, FieldError>)
        ensures
            match r {
                Ok(s) => read_path(self.header_model(), spec_split("note.name"@, '.')) == Some(
                    HVal::S(s@),
                ),
                Err(FieldError::Missing) => read_path(
                    self.header_model(),
                    spec_split("note.name"@, '.'),
                ) == None::<HVal>,
                Err(FieldError::Mismatch) => match read_path(
                    self.header_model(),
                    spec_split("note.name"@, '.'),
                ) {
                    Some(v) => !(v is S),
                    None => false,
                },
                Err(FieldError::Invalid(_)) => false,
            },
    {
        match self.get_entry().read_string("note.name") {
            Ok(Some(s)) => Ok(s),
            Ok(None) => Err(FieldError::Missing),
            Err(_) => Err(FieldError::Mismatch),
        }
    }

    /// Replaces the note's text; marks the handle dirty.
    pub fn set_text(&mut self, n: String)
        ensures
            final (self).content_model() == n@,
            final (self).header_model() == old(self).header_model(),
            final (self).is_dirty(),
            final (self).location() == old(self).location(),
    {
        self.set_content(n);
    }

    /// The note's text.
    pub fn get_text(&self) -> (r: &String)
        ensures
            r@ == self.content_model(),
    {
        self.get_entry().get_content()
    }
}

} // verus!
