//! Plain records exchanged with the interface, and the file-name pattern
//! language used to pick files for import.

use vstd::prelude::*;
use crate::text::{chars_of, push_char};

verus! {

/// A directory offered for scanning.
#[derive(Debug, Clone)]
pub struct DirEntry {
    pub path: String,
    pub name: String,
    pub is_selected: bool,
}

/// A file found by a scan.
#[derive(Debug, Clone)]
pub struct FileEntry {
    pub path: String,
    pub name: String,
    pub size: u64,
}

/// The outcome of a batch import.
#[derive(Debug, Clone)]
pub struct ImportResult {
    pub imported: usize,
    pub skipped: usize,
    pub ids: Vec<i64>,
}

/// The regular-expression text of one pattern character: `*` any run, `?`
/// any character, `.` a literal dot, anything else itself.
pub open spec fn glob_char(c: char) -> Seq<char> {
    if c == '*' {
        seq!['.', '*']
    } else if c == '?' {
        seq!['.']
    } else if c == '.' {
        seq!['\\', '.']
    } else {
        seq![c]
    }
}

pub open spec fn glob_body(p: Seq<char>) -> Seq<char>
    decreases p.len(),
{
    if p.len() == 0 {
        seq![]
    } else {
        glob_body(p.drop_last()) + glob_char(p.last())
    }
}

/// A file-name pattern as an anchored regular expression.
pub open spec fn glob_regex(p: Seq<char>) -> Seq<char> {
    seq!['^'] + glob_body(p) + seq!['$']
}

/// Translates a file-name pattern into an anchored regular expression.
pub fn glob_to_regex(pattern: &str) -> (r: String)
    ensures
        r@ == glob_regex(pattern@),
{
    let p = chars_of(pattern);
    let mut r = String::new();
    push_char(&mut r, '^');
    let mut i: usize = 0;
    while i < p.len()
        invariant
            i <= p.len(),
            r@ == seq!['^'] + glob_body(p@.take(i as int)),
        decreases p.len() - i,
    {
        assert(p@.take(i + 1).drop_last() =~= p@.take(i as int));
        let c = p[i];
        if c == '*' {
            push_char(&mut r, '.');
            push_char(&mut r, '*');
        } else if c == '?' {
            push_char(&mut r, '.');
        } else if c == '.' {
            push_char(&mut r, '\\');
            push_char(&mut r, '.');
        } else {
            push_char(&mut r, c);
        }
        i = i + 1;
        assert(r@ =~= seq!['^'] + glob_body(p@.take(i as int)));
    }
    assert(p@.take(p.len() as int) =~= p@);
    push_char(&mut r, '$');
    assert(r@ =~= glob_regex(pattern@));
    r
}

} // verus!
