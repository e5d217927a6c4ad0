//! A small document-store engine: validated entry identifiers, a typed
//! header tree with a round-trip-safe text encoding, an in-process store
//! with exclusive entry locking, and a boolean filter language over
//! header fields.

use vstd::prelude::*;

pub mod strutil;
pub mod ident;
pub mod value;
pub mod codec;
pub mod entry;
pub mod store;
pub mod filter;
pub mod contact;
pub mod viewer;
pub mod markdown;
pub mod provider;
pub mod habit;
pub mod note;
pub mod log;
pub mod task;
pub mod fieldpred;
pub mod timetrack;
pub mod diary;

verus! {

/// An error raised by identifier validation: the raw path was empty,
/// absolute, or tried to escape the store root.
#[derive(Clone, Copy, Debug, PartialEq, Eq, Structural)]
pub enum PathError {
    Malformed,
}

/// An error raised when loading an entry from its on-disk text.
#[derive(Clone, Copy, Debug, PartialEq, Eq, Structural)]
pub enum ParseError {
    /// The header block does not follow the entry encoding.
    HeaderSyntax,
    /// The bytes on disk are not text.
    Encoding,
}

/// An error raised by typed header access: a path segment that should
/// name a table names a value of another kind.
#[derive(Clone, Copy, Debug, PartialEq, Eq, Structural)]
pub enum TypeError {
    Mismatch,
}

/// An error raised by store operations.
#[derive(Clone, Copy, Debug, PartialEq, Eq, Structural)]
pub enum StoreError {
    /// The identifier is checked out by a live handle.
    Locked,
    /// `create` found an entry already on disk.
    AlreadyExists,
    /// `delete` found nothing to delete.
    NotFound,
    /// The on-disk text of the entry does not parse.
    Corrupt,
}

/// An error raised by the typed read of one required header field.
#[derive(Debug, PartialEq, Eq)]
pub enum FieldError {
    /// The field is absent.
    Missing,
    /// The field holds a value of another kind.
    Mismatch,
    /// The field holds text that does not parse as the requested form;
    /// the message names the text and the form.
    Invalid(String),
}

/// An error raised when compiling a filter query; it echoes the offending
/// query text.
#[derive(Debug, PartialEq, Eq)]
pub enum SyntaxError {
    Malformed(String),
}

} // verus!
