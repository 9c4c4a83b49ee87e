//! Rendering notes as Markdown files with filesystem-safe names.

use vstd::prelude::*;
use crate::note::{Note, NoteView};
use crate::text::{chars_of, push_all, push_char, string_of};
use crate::time::{minute_text_spec, push_signed, signed_decimal};

verus! {

/// Whether a character counts as alphanumeric, as `char::is_alphanumeric`
/// decides (the Unicode `Alphabetic` or `Numeric` property).
pub uninterp spec fn alphanumeric_of(c: char) -> bool;

/// Relies on `char::is_alphanumeric`: a property of the character alone;
/// among ASCII characters, true exactly of the letters and digits.
#[verifier::external_body]
fn is_alnum(c: char) -> (r: bool)
    ensures
        r == alphanumeric_of(c),
        c <= '\u{7f}' ==> (r <==> (('a' <= c && c <= 'z') || ('A' <= c && c <= 'Z') || ('0' <= c && c <= '9'))),
{
    c.is_alphanumeric()
}

/// Characters that a file name keeps from a title.
pub open spec fn title_char_ok(c: char) -> bool {
    alphanumeric_of(c) || c == ' ' || c == '-' || c == '_'
}

/// The characters of `s` that a file name keeps, in order.
pub open spec fn kept(s: Seq<char>) -> Seq<char>
    decreases s.len(),
{
    if s.len() == 0 {
        s
    } else if title_char_ok(s.last()) {
        kept(s.drop_last()).push(s.last())
    } else {
        kept(s.drop_last())
    }
}

/// `s` without leading spaces.
pub open spec fn trim_front(s: Seq<char>) -> Seq<char>
    decreases s.len(),
{
    if s.len() > 0 && s[0] == ' ' {
        trim_front(s.skip(1))
    } else {
        s
    }
}

/// `s` without trailing spaces.
pub open spec fn trim_back(s: Seq<char>) -> Seq<char>
    decreases s.len(),
{
    if s.len() > 0 && s.last() == ' ' {
        trim_back(s.drop_last())
    } else {
        s
    }
}

/// Characters of a title that a file name keeps at most.
pub const SAFE_TITLE_CHARS: usize = 50;

/// The title part of a file name: kept characters, at most fifty, trimmed,
/// spaces made hyphens.
pub open spec fn safe_title(title: Seq<char>) -> Seq<char> {
    let k = kept(title);
    let cut = if k.len() <= SAFE_TITLE_CHARS { k } else { k.take(SAFE_TITLE_CHARS as int) };
    trim_back(trim_front(cut)).map_values(|c: char| if c == ' ' { '-' } else { c })
}

/// `note-<id>-<safe title>.md`, or `note-<id>.md` for an empty safe title.
pub open spec fn file_name_spec(id: int, title: Seq<char>) -> Seq<char> {
    let safe = safe_title(title);
    if safe.len() == 0 {
        "note-"@ + signed_decimal(id) + ".md"@
    } else {
        "note-"@ + signed_decimal(id) + "-"@ + safe + ".md"@
    }
}

/// The lines above the body: the title as a heading, then when the note was
/// created and last updated.
pub open spec fn header_spec(n: NoteView) -> Seq<char> {
    "# "@ + n.title + "\n\n_Created: "@ + minute_text_spec(n.created_at) + " | Updated: "@
        + minute_text_spec(n.updated_at) + "_\n\n"@
}

/// The Markdown document of a note: its header, then its body.
pub open spec fn document_spec(n: NoteView) -> Seq<char> {
    header_spec(n) + n.body
}

/// One file to write: its name and its content.
#[derive(Debug, Clone)]
pub struct ExportFile {
    pub file_name: String,
    pub content: String,
}

fn push_str(s: &mut String, t: &str)
    ensures
        final(s)@ == old(s)@ + t@,
{
    let v = chars_of(t);
    push_all(s, &v);
}

/// The title part of a file name.
pub fn sanitize_title(title: &str) -> (r: String)
    ensures
        r@ == safe_title(title@),
{
    let t = chars_of(title);
    let mut k: Vec<char> = Vec::new();
    let mut i: usize = 0;
    while i < t.len()
        invariant
            i <= t.len(),
            t@ == title@,
            k@ == kept(t@.take(i as int)),
        decreases t.len() - i,
    {
        assert(t@.take(i + 1).drop_last() =~= t@.take(i as int));
        let c = t[i];
        if is_alnum(c) || c == ' ' || c == '-' || c == '_' {
            k.push(c);
        }
        i = i + 1;
    }
    assert(t@.take(t.len() as int) =~= t@);
    let end = if k.len() <= SAFE_TITLE_CHARS {
        k.len()
    } else {
        SAFE_TITLE_CHARS
    };
    let ghost cut = if k@.len() <= SAFE_TITLE_CHARS { k@ } else { k@.take(SAFE_TITLE_CHARS as int) };
    assert(k@.take(end as int) =~= cut);
    let mut a: usize = 0;
    assert(k@.take(end as int).skip(0) =~= cut);
    while a < end && k[a] == ' '
        invariant
            a <= end <= k.len(),
            k@.take(end as int) == cut,
            trim_front(k@.take(end as int).skip(a as int)) == trim_front(cut),
        decreases end - a,
    {
        assert(k@.take(end as int).skip(a as int).skip(1) =~= k@.take(end as int).skip(a + 1));
        a = a + 1;
    }
    assert(trim_front(cut) == k@.take(end as int).skip(a as int));
    assert(k@.take(end as int).skip(a as int) =~= k@.subrange(a as int, end as int));
    let mut b: usize = end;
    while b > a && k[b - 1] == ' '
        invariant
            a <= b <= end <= k.len(),
            trim_back(k@.subrange(a as int, b as int)) == trim_back(trim_front(cut)),
        decreases b - a,
    {
        assert(k@.subrange(a as int, b as int).drop_last() =~= k@.subrange(a as int, b - 1));
        b = b - 1;
    }
    let ghost trimmed = k@.subrange(a as int, b as int);
    assert(trim_back(trimmed) == trimmed);
    let mut out: Vec<char> = Vec::new();
    let mut j: usize = a;
    while j < b
        invariant
            a <= j <= b <= k.len(),
            trimmed == k@.subrange(a as int, b as int),
            out@ == trimmed.take(j - a).map_values(|c: char| if c == ' ' { '-' } else { c }),
        decreases b - j,
    {
        out.push(if k[j] == ' ' { '-' } else { k[j] });
        j = j + 1;
        assert(out@ =~= trimmed.take(j - a).map_values(|c: char| if c == ' ' { '-' } else { c }));
    }
    assert(trimmed.take(b - a) =~= trimmed);
    string_of(&out)
}

/// The file name of a note's document.
pub fn file_name_for(id: i64, title: &str) -> (r: String)
    ensures
        r@ == file_name_spec(id as int, title@),
{
    let safe = sanitize_title(title);
    let mut r = String::new();
    push_str(&mut r, "note-");
    push_signed(&mut r, id);
    if safe.as_str().is_empty() {
        push_str(&mut r, ".md");
    } else {
        push_str(&mut r, "-");
        push_str(&mut r, safe.as_str());
        push_str(&mut r, ".md");
    }
    r
}

/// The Markdown document of a note.
pub fn render_document(n: &Note) -> (r: String)
    requires
        n@.wf(),
    ensures
        r@ == document_spec(n@),
{
    let mut r = String::new();
    push_str(&mut r, "# ");
    push_str(&mut r, n.title.as_str());
    push_str(&mut r, "\n\n_Created: ");
    let c = n.created_at.minute_text();
    push_str(&mut r, c.as_str());
    push_str(&mut r, " | Updated: ");
    let u = n.updated_at.minute_text();
    push_str(&mut r, u.as_str());
    push_str(&mut r, "_\n\n");
    push_str(&mut r, n.body.as_str());
    r
}

/// The file of a note: its name and its document.
pub fn export_file(n: &Note) -> (r: ExportFile)
    requires
        n@.wf(),
    ensures
        r.file_name@ == file_name_spec(n.id as int, n.title@),
        r.content@ == document_spec(n@),
{
    ExportFile { file_name: file_name_for(n.id, n.title.as_str()), content: render_document(n) }
}

/// An exported document holds the note's body unchanged after its header;
/// its file name starts with `note-` and the note's id, and ends in `.md`.
pub proof fn lemma_export_round_trip(n: NoteView)
    ensures
        document_spec(n).skip(header_spec(n).len() as int) == n.body,
        document_spec(n).take(header_spec(n).len() as int) == header_spec(n),
        ({
            let p = "note-"@ + signed_decimal(n.id);
            let f = file_name_spec(n.id, n.title);
            &&& f.take(p.len() as int) == p
            &&& f.skip(f.len() - 3) == ".md"@
        }),
{
    assert(document_spec(n).skip(header_spec(n).len() as int) =~= n.body);
    assert(document_spec(n).take(header_spec(n).len() as int) =~= header_spec(n));
    let p = "note-"@ + signed_decimal(n.id);
    let f = file_name_spec(n.id, n.title);
    reveal_strlit(".md");
    assert(f.take(p.len() as int) =~= p);
    assert(f.skip(f.len() - 3) =~= ".md"@);
}

} // verus!
