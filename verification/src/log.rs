//! The log view over an entry: the `log.is_log` header flag.

use vstd::prelude::*;
use crate::TypeError;
use crate::entry::Entry;
use crate::entry::insert_path;
use crate::entry::read_path;
use crate::store::Handle;
use crate::strutil::spec_split;
use crate::value::HVal;
use crate::value::Value;

verus! {

impl Entry {
    /// The entry is marked as a log entry: the `log.is_log` flag holds
    /// true; an absent flag means no.
    pub fn is_log(&self) -> (r: Result<bool, TypeError>)
        ensures
            match r {
                Ok(b) => b == (read_path(self.header_model(), spec_split("log.is_log"@, '.'))
                    == Some(HVal::B(true))),
                Err(e) => e == TypeError::Mismatch && match read_path(
                    self.header_model(),
                    spec_split("log.is_log"@, '.'),
                ) {
                    Some(v) => !(v is B),
                    None => false,
                },
            },
    {
        match self.read_bool("log.is_log") {
            Ok(Some(b)) => Ok(b),
            Ok(None) => Ok(false),
            Err(e) => Err(e),
        }
    }
}

impl Handle {
    /// Marks the held entry as a log entry; marks the handle dirty.
    pub fn make_log_entry(&mut self) -> (r: Result<(), TypeError>)
        ensures
            match r {
                Ok(()) => insert_path(
                    old(self).header_model(),
                    spec_split("log.is_log"@, '.'),
                    HVal::B(true),
                ) == Some(final (self).header_model()),
                Err(e) => e == TypeError::Mismatch && insert_path(
                    old(self).header_model(),
                    spec_split("log.is_log"@, '.'),
                    HVal::B(true),
                ) == None::<Seq<(Seq<char>, HVal)>> && final (self).header_model() == old(
                    self,
                ).header_model(),
            },
            final (self).content_model() == old(self).content_model(),
            final (self).is_dirty(),
            final (self).location() == old(self).location(),
    {
        self.header_insert("log.is_log", Value::Bool(true))
    }
}

} // verus!
