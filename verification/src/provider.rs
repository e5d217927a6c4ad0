//! Turning raw path arguments into validated identifiers, for front ends
//! that accept entry names on their command line.

use vstd::prelude::*;
use crate::PathError;
use crate::ident::Identifier;
use crate::ident::id_wf;
use crate::ident::normalize;

verus! {

/// Validates the identifier arguments a front end was given.
pub struct PathProvider;

impl PathProvider {
    /// Validates every raw argument, in order; the first malformed one
    /// fails the whole batch.
    pub fn get_ids(args: &Vec<String>) -> (r: Result<Vec<Identifier>, PathError>)
        ensures
            match r {
                Ok(ids) => {
                    &&& ids@.len() == args@.len()
                    &&& forall|j: int|
                        0 <= j < args@.len() ==> id_wf(normalize((#[trigger] args@[j])@))
                    &&& forall|j: int|
                        0 <= j < args@.len() ==> (#[trigger] ids@[j])@ == normalize(args@[j]@)
                            && ids@[j].wf()
                },
                Err(e) => e == PathError::Malformed && exists|j: int|
                    0 <= j < args@.len() && !id_wf(normalize((#[trigger] args@[j])@)),
            },
    {
        let mut out: Vec<Identifier> = Vec::new();
        let mut i: usize = 0;
        while i < args.len()
            invariant
                i <= args@.len(),
                out@.len() == i,
                forall|j: int| 0 <= j < i ==> id_wf(normalize((#[trigger] args@[j])@)),
                forall|j: int|
                    0 <= j < i ==> (#[trigger] out@[j])@ == normalize(args@[j]@) && out@[j].wf(),
            decreases args@.len() - i,
        {
            match Identifier::from_path(args[i].as_str()) {
                Ok(id) => {
                    out.push(id);
                    assert(out@[i as int]@ == normalize(args@[i as int]@));
                },
                Err(e) => {
                    return Err(e);
                },
            }
            i = i + 1;
        }
        Ok(out)
    }
}

} // verus!
