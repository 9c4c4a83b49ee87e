//! Notes and the compact search projection of a note.

use vstd::prelude::*;
use crate::text::{chars_of, prefix_chars, prefix_spec, push_char, string_of, tokens, tokens_of, join_tokens, join_words, word_count, word_count_spec};
use vstd::utf8::{encode_utf8, is_char_boundary};
use vstd::string::StringSliceAdditionalSpecFns;
use crate::time::{Timestamp, now_utc, decimal, push_decimal, short_date_spec};

verus! {

/// A stored note.
#[derive(Debug, Clone)]
pub struct Note {
    pub id: i64,
    pub title: String,
    pub body: String,
    pub created_at: Timestamp,
    pub updated_at: Timestamp,
    pub import_hash: Option<String>,
}

/// The mathematical content of a note.
pub struct NoteView {
    pub id: int,
    pub title: Seq<char>,
    pub body: Seq<char>,
    pub created_at: Timestamp,
    pub updated_at: Timestamp,
    pub import_hash: Option<Seq<char>>,
}

pub open spec fn opt_view(o: Option<String>) -> Option<Seq<char>> {
    match o {
        Some(s) => Some(s@),
        None => None,
    }
}

impl View for Note {
    type V = NoteView;

    open spec fn view(&self) -> NoteView {
        NoteView {
            id: self.id as int,
            title: self.title@,
            body: self.body@,
            created_at: self.created_at,
            updated_at: self.updated_at,
            import_hash: opt_view(self.import_hash),
        }
    }
}

impl NoteView {
    /// Timestamps in range, and never updated before created.
    pub open spec fn wf(self) -> bool {
        &&& self.created_at.wf()
        &&& self.updated_at.wf()
        &&& self.created_at.instant() <= self.updated_at.instant()
    }
}

fn copy_opt(o: &Option<String>) -> (r: Option<String>)
    ensures
        opt_view(*o) == opt_view(r),
{
    match o {
        Some(s) => Some(s.clone()),
        None => None,
    }
}

/// `title`, a line break, then `body`, with every line break made a space.
pub open spec fn single_line(title: Seq<char>, body: Seq<char>) -> Seq<char> {
    (title + seq!['\n'] + body).map_values(|c: char| if c == '\n' { ' ' } else { c })
}

impl Note {
    /// A fresh, interactively authored note stamped with the current time.
    pub fn new(id: i64, title: String, body: String) -> (r: Note)
        ensures
            r@.id == id,
            r@.title == title@,
            r@.body == body@,
            r@.created_at == r@.updated_at,
            r@.import_hash is None,
            r@.wf(),
    {
        let now = now_utc();
        Note { id, title, body, created_at: now, updated_at: now, import_hash: None }
    }

    /// A copy of this note.
    pub fn duplicate(&self) -> (r: Note)
        ensures
            r@ == self@,
    {
        Note {
            id: self.id,
            title: self.title.clone(),
            body: self.body.clone(),
            created_at: self.created_at,
            updated_at: self.updated_at,
            import_hash: copy_opt(&self.import_hash),
        }
    }

    /// Title and body on one line; when its UTF-8 encoding is longer than
    /// `max_len` bytes, its first `max_len` bytes followed by `...`. The cut
    /// must fall between characters.
    pub fn snippet(&self, max_len: usize) -> (r: String)
        requires
            encode_utf8(single_line(self.title@, self.body@)).len() <= usize::MAX,
            encode_utf8(single_line(self.title@, self.body@)).len() <= max_len
                || is_char_boundary(encode_utf8(single_line(self.title@, self.body@)), max_len as int),
        ensures
            ({
                let line = single_line(self.title@, self.body@);
                let b = encode_utf8(line);
                if b.len() > max_len {
                    &&& r@.len() >= 3
                    &&& r@.skip(r@.len() - 3) == seq!['.', '.', '.']
                    &&& encode_utf8(r@.take(r@.len() - 3)) == b.take(max_len as int)
                } else {
                    r@ == line
                }
            }),
    {
        broadcast use vstd::utf8::encode_utf8_valid_utf8;
        let t = chars_of(self.title.as_str());
        let b = chars_of(self.body.as_str());
        let ghost full = single_line(self.title@, self.body@);
        let ghost joined = self.title@ + seq!['\n'] + self.body@;
        let mut line: Vec<char> = Vec::new();
        let mut i: usize = 0;
        while i < t.len()
            invariant
                i <= t.len(),
                t@ == self.title@,
                joined == self.title@ + seq!['\n'] + self.body@,
                full == joined.map_values(|c: char| if c == '\n' { ' ' } else { c }),
                line@ == full.take(i as int),
            decreases t.len() - i,
        {
            line.push(if t[i] == '\n' { ' ' } else { t[i] });
            i = i + 1;
            assert(line@ =~= full.take(i as int));
        }
        line.push(' ');
        assert(line@ =~= full.take(t.len() + 1));
        let mut j: usize = 0;
        while j < b.len()
            invariant
                j <= b.len(),
                t@ == self.title@,
                b@ == self.body@,
                joined == self.title@ + seq!['\n'] + self.body@,
                full == joined.map_values(|c: char| if c == '\n' { ' ' } else { c }),
                line@ == full.take(t.len() + 1 + j),
            decreases b.len() - j,
        {
            line.push(if b[j] == '\n' { ' ' } else { b[j] });
            j = j + 1;
            assert(line@ =~= full.take(t.len() + 1 + j));
        }
        assert(line@ =~= full);
        let text = string_of(&line);
        let st = text.as_str();
        assert(st@ == full);
        assert(st.spec_bytes() == encode_utf8(full));
        if st.len() > max_len {
            let (head, _) = st.split_at(max_len);
            let mut r = head.to_owned();
            let ghost h = r@;
            push_char(&mut r, '.');
            push_char(&mut r, '.');
            push_char(&mut r, '.');
            assert(r@.take(r@.len() - 3) =~= h);
            assert(r@.skip(r@.len() - 3) =~= seq!['.', '.', '.']);
            assert(encode_utf8(h) == head.spec_bytes());
            assert(head.spec_bytes() =~= encode_utf8(full).take(max_len as int));
            r
        } else {
            text
        }
    }
}

/// A compact projection of a note for result listings.
#[derive(Debug, Clone)]
pub struct SearchResult {
    pub id: i64,
    pub title: String,
    pub body_preview: String,
    pub created_at: Timestamp,
    pub word_count: usize,
}

pub struct SearchResultView {
    pub id: int,
    pub title: Seq<char>,
    pub body_preview: Seq<char>,
    pub created_at: Timestamp,
    pub word_count: nat,
}

impl View for SearchResult {
    type V = SearchResultView;

    open spec fn view(&self) -> SearchResultView {
        SearchResultView {
            id: self.id as int,
            title: self.title@,
            body_preview: self.body_preview@,
            created_at: self.created_at,
            word_count: self.word_count as nat,
        }
    }
}

/// Characters of a listing preview.
pub const PREVIEW_CHARS: usize = 100;

/// The listing projection of a note: the first hundred characters of the
/// body, and the number of its whitespace-separated words.
pub open spec fn project(n: NoteView) -> SearchResultView {
    SearchResultView {
        id: n.id,
        title: n.title,
        body_preview: prefix_spec(n.body, PREVIEW_CHARS as nat),
        created_at: n.created_at,
        word_count: word_count_spec(n.body),
    }
}

/// The listing text: title, then ` - ` and the preview when there is one,
/// with whitespace runs made single spaces and the ends trimmed.
pub open spec fn display_clean(title: Seq<char>, preview: Seq<char>) -> Seq<char> {
    let combined = if preview.len() == 0 {
        title
    } else {
        title + seq![' ', '-', ' '] + preview
    };
    join_words(tokens(combined))
}

pub open spec fn display_spec(title: Seq<char>, preview: Seq<char>, max_len: nat) -> Seq<char> {
    let clean = display_clean(title, preview);
    if clean.len() > max_len {
        clean.take(if max_len >= 3 { max_len - 3 } else { 0 }) + seq!['.', '.', '.']
    } else {
        clean
    }
}

/// The compact word-count label: `<n>w`, or `<n/1000>k` from ten thousand on.
pub open spec fn words_label(n: nat) -> Seq<char> {
    if n >= 10000 {
        decimal(n / 1000) + seq!['k']
    } else {
        decimal(n) + seq!['w']
    }
}

impl SearchResult {
    /// The projection of a note.
    pub fn from_note(n: &Note) -> (r: SearchResult)
        ensures
            r@ == project(n@),
    {
        let b = chars_of(n.body.as_str());
        SearchResult {
            id: n.id,
            title: n.title.clone(),
            body_preview: prefix_chars(&b, PREVIEW_CHARS),
            created_at: n.created_at,
            word_count: word_count(&b),
        }
    }

    /// Title and preview on one line, cut to `max_len` characters (the last
    /// three of them `...`) when longer.
    pub fn display_text(&self, max_len: usize) -> (r: String)
        ensures
            r@ == display_spec(self.title@, self.body_preview@, max_len as nat),
    {
        let mut combined: Vec<char> = chars_of(self.title.as_str());
        let p = chars_of(self.body_preview.as_str());
        if p.len() > 0 {
            combined.push(' ');
            combined.push('-');
            combined.push(' ');
            let ghost before = combined@;
            let mut i: usize = 0;
            while i < p.len()
                invariant
                    i <= p.len(),
                    combined@ == before + p@.take(i as int),
                decreases p.len() - i,
            {
                combined.push(p[i]);
                i = i + 1;
                assert(combined@ =~= before + p@.take(i as int));
            }
            assert(p@.take(p.len() as int) =~= p@);
            assert(combined@ =~= self.title@ + seq![' ', '-', ' '] + self.body_preview@);
        }
        let words = tokens_of(&combined);
        let clean = join_tokens(&words);
        assert(words@.map_values(|w: Vec<char>| w@) =~= tokens(combined@));
        let cs = chars_of(clean.as_str());
        if cs.len() > max_len {
            let keep = if max_len >= 3 {
                max_len - 3
            } else {
                0
            };
            let mut r = prefix_chars(&cs, keep);
            push_char(&mut r, '.');
            push_char(&mut r, '.');
            push_char(&mut r, '.');
            r
        } else {
            clean
        }
    }

    /// The creation date as `MM/DD/YY`.
    pub fn date_str(&self) -> (r: String)
        requires
            self.created_at.wf(),
        ensures
            r@ == short_date_spec(self.created_at),
    {
        self.created_at.short_date_text()
    }

    /// The word count as a compact label.
    pub fn words_str(&self) -> (r: String)
        ensures
            r@ == words_label(self.word_count as nat),
    {
        let mut r = String::new();
        if self.word_count >= 10000 {
            push_decimal(&mut r, (self.word_count / 1000) as u64);
            push_char(&mut r, 'k');
        } else {
            push_decimal(&mut r, self.word_count as u64);
            push_char(&mut r, 'w');
        }
        r
    }
}

} // verus!
