//! Errors of the note store.

use vstd::prelude::*;
use crate::text::{push_all, chars_of};
use crate::time::{push_signed, signed_decimal};

verus! {

/// What can go wrong in a store operation. Storage and file-system failures
/// carry the underlying message.
#[derive(Debug, Clone)]
pub enum KiroError {
    Database(String),
    Io(String),
    NoteNotFound(i64),
    InvalidPath(String),
    ImportFailed(String),
    ExportFailed(String),
}

fn push_str(s: &mut String, t: &str)
    ensures
        final(s)@ == old(s)@ + t@,
{
    let v = chars_of(t);
    push_all(s, &v);
}

impl KiroError {
    /// A human-readable description of the error: a prefix naming its
    /// kind, then its message or the id concerned.
    pub fn message(&self) -> (r: String)
        ensures
            r@ == match self {
                KiroError::Database(m) => "Database error: "@ + m@,
                KiroError::Io(m) => "IO error: "@ + m@,
                KiroError::NoteNotFound(id) => "Note not found: "@ + signed_decimal(*id as int),
                KiroError::InvalidPath(m) => "Invalid path: "@ + m@,
                KiroError::ImportFailed(m) => "Import failed: "@ + m@,
                KiroError::ExportFailed(m) => "Export failed: "@ + m@,
            },
    {
        let mut r = String::new();
        match self {
            KiroError::Database(m) => {
                push_str(&mut r, "Database error: ");
                push_str(&mut r, m.as_str());
            },
            KiroError::Io(m) => {
                push_str(&mut r, "IO error: ");
                push_str(&mut r, m.as_str());
            },
            KiroError::NoteNotFound(id) => {
                push_str(&mut r, "Note not found: ");
                push_signed(&mut r, *id);
            },
            KiroError::InvalidPath(m) => {
                push_str(&mut r, "Invalid path: ");
                push_str(&mut r, m.as_str());
            },
            KiroError::ImportFailed(m) => {
                push_str(&mut r, "Import failed: ");
                push_str(&mut r, m.as_str());
            },
            KiroError::ExportFailed(m) => {
                push_str(&mut r, "Export failed: ");
                push_str(&mut r, m.as_str());
            },
        }
        r
    }
}

} // verus!
