//! The task view over an entry: reading the task identity stored in the
//! `todo.uuid` header field.

use vstd::prelude::*;
use crate::FieldError;
use crate::entry::Entry;
use crate::entry::read_path;
use crate::strutil::spec_split;
use crate::value::HVal;

verus! {

#[verifier::external_type_specification]
#[verifier::external_body]
pub struct ExUuid(uuid::Uuid);

#[verifier::external_type_specification]
#[verifier::external_body]
pub struct ExUuidError(uuid::Error);

/// The string parses as a hexadecimal UUID; a function of the characters
/// alone.
pub uninterp spec fn uuid_parses(s: Seq<char>) -> bool;

/// Relies on uuid::Uuid::parse_str: parsing a string of hexadecimal digits
/// with optional hyphens succeeds or fails by the characters alone.
#[verifier::external_body]
fn uuid_parse(s: &str) -> (r: Result<uuid::Uuid, uuid::Error>)
    ensures
        r is Ok <==> uuid_parses(s@),
{
    uuid::Uuid::parse_str(s)
}

impl Entry {
    /// The task identity of this entry: the `todo.uuid` header field,
    /// parsed as a UUID. Absence, a non-string field, and unparseable text
    /// are each their own error.
    pub fn get_uuid(&self) -> (r: Result<uuid::Uuid, FieldError>)
        ensures
            match r {
                Ok(_) => match read_path(self.header_model(), spec_split("todo.uuid"@, '.')) {
                    Some(v) => v matches HVal::S(s) && uuid_parses(s),
                    None => false,
                },
                Err(FieldError::Missing) => read_path(
                    self.header_model(),
                    spec_split("todo.uuid"@, '.'),
                ) == None::<HVal>,
                Err(FieldError::Mismatch) => match read_path(
                    self.header_model(),
                    spec_split("todo.uuid"@, '.'),
                ) {
                    Some(v) => !(v is S),
                    None => false,
                },
                Err(FieldError::Invalid(m)) => match read_path(
                    self.header_model(),
                    spec_split("todo.uuid"@, '.'),
                ) {
                    Some(v) => v matches HVal::S(s) && !uuid_parses(s) && m@
                        == "cannot parse task identity '"@ + s + "' as a UUID"@,
                    None => false,
                },
            },
    {
        match self.read_string("todo.uuid") {
            Ok(Some(s)) => match uuid_parse(s.as_str()) {
                Ok(u) => Ok(u),
                Err(_) => {
                    let mut msg = String::from_str("cannot parse task identity '");
                    msg.append(s.as_str());
                    msg.append("' as a UUID");
                    assert(msg@ =~= "cannot parse task identity '"@ + s@ + "' as a UUID"@);
                    Err(FieldError::Invalid(msg))
                },
            },
            Ok(None) => Err(FieldError::Missing),
            Err(_) => Err(FieldError::Mismatch),
        }
    }
}

} // verus!
