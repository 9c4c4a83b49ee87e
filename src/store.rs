//! The note repository: notes keyed by never-reused integer ids, with
//! search, import deduplication and export.

use vstd::prelude::*;
use crate::digest::{compute_hash, fingerprint};
use crate::error::KiroError;
use crate::export::{export_file, ExportFile, file_name_spec, document_spec};
use crate::note::{Note, NoteView, SearchResult, SearchResultView, project, opt_view};
use crate::order::{select_greatest, select_post, distinct_keys, picked_before};
use crate::query::{parse_date_filter, query_filter, query_text, residual, filter_of, date_token};
use crate::text::{tokens, join_words, chars_of, contains_chars, contains_seq, lower_of, lowercase_chars, prefix_spec};
use crate::time::{Timestamp, later, later_spec, now_utc};

verus! {

/// Whether some note in `s` has the id `id`.
pub open spec fn has_id(s: Seq<NoteView>, id: int) -> bool {
    exists|i: int| 0 <= i < s.len() && #[trigger] s[i].id == id
}

/// Notes with distinct ids in `1..next_id`, each well formed.
pub open spec fn valid_notes(s: Seq<NoteView>, next_id: int) -> bool {
    &&& next_id >= 1
    &&& forall|i: int| 0 <= i < s.len() ==> (#[trigger] s[i]).wf() && 1 <= s[i].id < next_id
    &&& forall|i: int, j: int| 0 <= i < s.len() && 0 <= j < s.len() && i != j ==> #[trigger] s[i].id != #[trigger] s[j].id
}

/// `n` with a new body, updated at `now` (never earlier than before).
pub open spec fn with_body(n: NoteView, body: Seq<char>, now: Timestamp) -> NoteView {
    NoteView {
        id: n.id,
        title: n.title,
        body: body,
        created_at: n.created_at,
        updated_at: later_spec(n.updated_at, now),
        import_hash: n.import_hash,
    }
}

/// `n` with a new title and body, updated at `now` (never earlier than before).
pub open spec fn with_title_body(n: NoteView, title: Seq<char>, body: Seq<char>, now: Timestamp) -> NoteView {
    NoteView { title: title, ..with_body(n, body, now) }
}

/// `t` is `s` with note `i` given `title` and `body`, its id, creation time
/// and fingerprint kept, and its update time moved forward or kept.
pub open spec fn refreshed(s: Seq<NoteView>, t: Seq<NoteView>, i: int, title: Seq<char>, body: Seq<char>) -> bool {
    &&& 0 <= i < s.len()
    &&& t.len() == s.len()
    &&& forall|j: int| 0 <= j < s.len() && j != i ==> #[trigger] t[j] == s[j]
    &&& t[i].id == s[i].id
    &&& t[i].title == title
    &&& t[i].body == body
    &&& t[i].created_at == s[i].created_at
    &&& t[i].import_hash == s[i].import_hash
    &&& t[i].updated_at.instant() >= s[i].updated_at.instant()
}

/// The notes of `s` whose ids are not among `ids`, in order.
pub open spec fn without_ids(s: Seq<NoteView>, ids: Seq<i64>) -> Seq<NoteView>
    decreases s.len(),
{
    if s.len() == 0 {
        s
    } else if ids.contains(s.last().id as i64) {
        without_ids(s.drop_last(), ids)
    } else {
        without_ids(s.drop_last(), ids).push(s.last())
    }
}

/// Whether a creation time passes a date filter.
pub open spec fn date_ok(f: Option<(int, Option<int>)>, t: Timestamp) -> bool {
    match f {
        None => true,
        Some((y, None)) => t.year == y,
        Some((y, Some(m))) => t.year == y && t.month == m,
    }
}

/// Whether a note matches a query: the date filter on its creation time,
/// and the text, when there is any, in its title or body ignoring case.
pub open spec fn note_matches(n: NoteView, q: Seq<char>) -> bool {
    &&& date_ok(query_filter(q), n.created_at)
    &&& (query_text(q).len() == 0 || contains_seq(lower_of(n.title), lower_of(query_text(q)))
        || contains_seq(lower_of(n.body), lower_of(query_text(q))))
}

/// Ranking key for listings: creation time, then id.
pub open spec fn created_key(n: NoteView) -> (i128, i64) {
    (n.created_at.instant() as i128, n.id as i64)
}

/// Ranking key for batch lookups: update time, then id.
pub open spec fn updated_key(n: NoteView) -> (i128, i64) {
    (n.updated_at.instant() as i128, n.id as i64)
}

/// The listing keys of the notes of `s`.
pub open spec fn created_keys(s: Seq<NoteView>) -> Seq<(i128, i64)> {
    s.map_values(|n: NoteView| created_key(n))
}

/// Which notes of `s` match the query `q`.
pub open spec fn match_mask(s: Seq<NoteView>, q: Seq<char>) -> Seq<bool> {
    s.map_values(|n: NoteView| note_matches(n, q))
}

/// The batch-lookup keys of the notes of `s`.
pub open spec fn updated_keys(s: Seq<NoteView>) -> Seq<(i128, i64)> {
    s.map_values(|n: NoteView| updated_key(n))
}

/// Which notes of `s` have an id among `ids`.
pub open spec fn id_mask(s: Seq<NoteView>, ids: Seq<i64>) -> Seq<bool> {
    s.map_values(|n: NoteView| ids.contains(n.id as i64))
}

/// `r` lists the projections of the `limit` newest notes of `s` matching `q`,
/// newest first (ties by larger id first).
pub open spec fn search_spec(s: Seq<NoteView>, q: Seq<char>, limit: nat, r: Seq<SearchResultView>) -> bool {
    exists|sel: Seq<usize>|
        #[trigger] select_post(created_keys(s), match_mask(s, q), limit, sel) && r.len() == sel.len() && forall|k: int| 0 <= k < sel.len() ==> r[k] == project(s[sel[k] as int])
}

/// `r` lists the notes of `s` whose ids are in `ids`, most recently updated first.
pub open spec fn many_spec(s: Seq<NoteView>, ids: Seq<i64>, r: Seq<NoteView>) -> bool {
    exists|sel: Seq<usize>|
        #[trigger] select_post(updated_keys(s), id_mask(s, ids), s.len(), sel) && r.len() == sel.len() && forall|k: int| 0 <= k < sel.len() ==> r[k] == s[sel[k] as int]
}

/// Whether importing `title` / `body` with fingerprint `hash` would duplicate
/// a note of `s`: the same fingerprint, the same body, or the same title and a
/// body beginning with the first 200 characters of `body`.
pub open spec fn duplicate_spec(s: Seq<NoteView>, title: Seq<char>, body: Seq<char>, hash: Seq<char>) -> bool {
    ||| exists|i: int| 0 <= i < s.len() && #[trigger] s[i].import_hash == Some(hash)
    ||| exists|i: int| 0 <= i < s.len() && #[trigger] s[i].body == body
    ||| exists|i: int| 0 <= i < s.len() && #[trigger] s[i].title == title
        && prefix_spec(body, DEDUP_PREFIX_CHARS as nat).len() <= s[i].body.len()
        && s[i].body.take(prefix_spec(body, DEDUP_PREFIX_CHARS as nat).len() as int)
            == prefix_spec(body, DEDUP_PREFIX_CHARS as nat)
}

/// Characters of a body compared by the similar-content check.
pub const DEDUP_PREFIX_CHARS: usize = 200;

/// Title of an imported file whose name cannot be read.
pub open spec fn untitled() -> Seq<char> {
    "(untitled)"@
}

/// The ids of `ids` that name a note of `s`, each once, in order of first appearance.
pub open spec fn export_ids(s: Seq<NoteView>, ids: Seq<i64>) -> Seq<i64>
    decreases ids.len(),
{
    if ids.len() == 0 {
        seq![]
    } else if has_id(s, ids.last() as int) && !ids.drop_last().contains(ids.last()) {
        export_ids(s, ids.drop_last()).push(ids.last())
    } else {
        export_ids(s, ids.drop_last())
    }
}

/// `out` holds, for each id of `eid` in order, the file of the note of `s`
/// with that id.
pub open spec fn exported_as(s: Seq<NoteView>, eid: Seq<i64>, out: Seq<ExportFile>) -> bool {
    &&& out.len() == eid.len()
    &&& forall|k: int| 0 <= k < out.len() ==> has_file(s, eid[k], #[trigger] out[k])
}

/// `f` is the file of the note of `s` whose id is `id`.
pub open spec fn has_file(s: Seq<NoteView>, id: i64, f: ExportFile) -> bool {
    exists|i: int| is_file_of(s, i, id, f)
}

/// `f` is the file of note `i` of `s`, whose id is `id`.
pub open spec fn is_file_of(s: Seq<NoteView>, i: int, id: i64, f: ExportFile) -> bool {
    &&& 0 <= i < s.len()
    &&& s[i].id == id
    &&& f.file_name@ == file_name_spec(s[i].id, s[i].title)
    &&& f.content@ == document_spec(s[i])
}

proof fn lemma_exported_push(s: Seq<NoteView>, e: Seq<i64>, out: Seq<ExportFile>, i: int, id: i64, f: ExportFile)
    requires
        exported_as(s, e, out),
        is_file_of(s, i, id, f),
    ensures
        exported_as(s, e.push(id), out.push(f)),
{
    let e2 = e.push(id);
    let o2 = out.push(f);
    assert forall|k: int| 0 <= k < o2.len() implies has_file(s, e2[k], #[trigger] o2[k]) by {
        if k < out.len() {
            assert(o2[k] == out[k]);
            assert(e2[k] == e[k]);
            assert(has_file(s, e[k], out[k]));
        } else {
            assert(is_file_of(s, i, e2[k], o2[k]));
        }
    }
}

/// The synthetic title of the `k`-th seeded note (counting from one).
pub open spec fn sample_title(k: nat) -> Seq<char> {
    "Sample note "@ + crate::time::decimal(k)
}

/// The synthetic body of the `k`-th seeded note (counting from one).
pub open spec fn sample_body(k: nat) -> Seq<char> {
    "This is sample note number "@ + crate::time::decimal(k)
        + ".\n\nCreated for testing Kiro.\nContains keywords like alpha beta gamma delta.\n\nUse :help for commands."@
}

/// How many notes of `s` have an id among `ids`.
pub open spec fn count_ids(s: Seq<NoteView>, ids: Seq<i64>) -> nat
    decreases s.len(),
{
    if s.len() == 0 {
        0
    } else if ids.contains(s.last().id as i64) {
        count_ids(s.drop_last(), ids) + 1
    } else {
        count_ids(s.drop_last(), ids)
    }
}

/// Removing by ids drops exactly as many notes as have a listed id.
pub proof fn lemma_delete_count(s: Seq<NoteView>, ids: Seq<i64>)
    ensures
        without_ids(s, ids).len() + count_ids(s, ids) == s.len(),
    decreases s.len(),
{
    if s.len() > 0 {
        lemma_delete_count(s.drop_last(), ids);
    }
}

/// Deleting by an empty list of ids keeps every note.
pub proof fn lemma_without_none(s: Seq<NoteView>, ids: Seq<i64>)
    requires
        ids.len() == 0,
    ensures
        without_ids(s, ids) == s,
    decreases s.len(),
{
    if s.len() > 0 {
        lemma_without_none(s.drop_last(), ids);
        assert(s.drop_last().push(s.last()) =~= s);
    }
}

/// Removing notes by id keeps the store's invariant, deletes exactly the notes
/// whose ids are listed, and keeps every other note.
pub proof fn lemma_without_valid(s: Seq<NoteView>, ids: Seq<i64>, next_id: int)
    requires
        valid_notes(s, next_id),
    ensures
        valid_notes(without_ids(s, ids), next_id),
        without_ids(s, ids).len() <= s.len(),
        forall|k: int| 0 <= k < without_ids(s, ids).len() ==> exists|i: int| 0 <= i < s.len()
            && #[trigger] without_ids(s, ids)[k] == s[i] && !ids.contains(s[i].id as i64),
        forall|i: int| 0 <= i < s.len() && !ids.contains(#[trigger] s[i].id as i64)
            ==> has_id(without_ids(s, ids), s[i].id),
    decreases s.len(),
{
    if s.len() > 0 {
        let p = s.drop_last();
        assert(valid_notes(p, next_id)) by {
            assert forall|a: int, b: int| 0 <= a < p.len() && 0 <= b < p.len() && a != b
                implies #[trigger] p[a].id != #[trigger] p[b].id by {
                assert(s[a].id != s[b].id);
            }
            assert forall|a: int| 0 <= a < p.len() implies (#[trigger] p[a]).wf() && 1 <= p[a].id < next_id by {
                assert(s[a] == p[a]);
            }
        }
        lemma_without_valid(p, ids, next_id);
        let w = without_ids(p, ids);
        let l = s.last();
        assert forall|k: int| 0 <= k < w.len() implies #[trigger] w[k].id != l.id by {
            let i = choose|i: int| 0 <= i < p.len() && w[k] == p[i] && !ids.contains(p[i].id as i64);
            assert(s[i] == p[i]);
            assert(s[i].id != s[s.len() - 1].id);
        }
        let r = without_ids(s, ids);
        assert forall|i: int| 0 <= i < s.len() && !ids.contains(#[trigger] s[i].id as i64)
            implies has_id(r, s[i].id) by {
            if i < s.len() - 1 {
                assert(s[i] == p[i]);
                assert(has_id(w, p[i].id));
                let k = choose|k: int| 0 <= k < w.len() && #[trigger] w[k].id == p[i].id;
                assert(r[k] == w[k]);
            } else {
                assert(r[r.len() - 1] == l);
            }
        }
        if !ids.contains(l.id as i64) {
            assert forall|k: int| 0 <= k < r.len() implies exists|i: int| 0 <= i < s.len()
                && #[trigger] r[k] == s[i] && !ids.contains(s[i].id as i64) by {
                if k < w.len() {
                    let i = choose|i: int| 0 <= i < p.len() && w[k] == p[i] && !ids.contains(p[i].id as i64);
                    assert(r[k] == s[i]);
                } else {
                    assert(r[k] == s[s.len() - 1]);
                }
            }
            assert forall|a: int, b: int| 0 <= a < r.len() && 0 <= b < r.len() && a != b
                implies #[trigger] r[a].id != #[trigger] r[b].id by {
                if a < w.len() && b < w.len() {
                    assert(r[a] == w[a] && r[b] == w[b]);
                }
            }
        } else {
            assert forall|k: int| 0 <= k < r.len() implies exists|i: int| 0 <= i < s.len()
                && #[trigger] r[k] == s[i] && !ids.contains(s[i].id as i64) by {
                let i = choose|i: int| 0 <= i < p.len() && w[k] == p[i] && !ids.contains(p[i].id as i64);
                assert(r[k] == s[i]);
            }
        }
    }
}

/// A created note is found again by its id, with the title and body it was
/// given, created and updated at the same time.
pub proof fn lemma_create_then_get(s: Seq<NoteView>, next_id: int, title: Seq<char>, body: Seq<char>, now: Timestamp)
    requires
        valid_notes(s, next_id),
    ensures
        ({
            let s2 = s.push(NoteView { id: next_id, title, body, created_at: now, updated_at: now, import_hash: None });
            &&& has_id(s2, next_id)
            &&& forall|i: int| 0 <= i < s2.len() && #[trigger] s2[i].id == next_id ==> s2[i].title == title
                && s2[i].body == body && s2[i].created_at == s2[i].updated_at
        }),
{
    let s2 = s.push(NoteView { id: next_id, title, body, created_at: now, updated_at: now, import_hash: None });
    assert(s2[s.len() as int].id == next_id);
    assert forall|i: int| 0 <= i < s2.len() && #[trigger] s2[i].id == next_id implies s2[i].title == title
        && s2[i].body == body && s2[i].created_at == s2[i].updated_at by {
        if i < s.len() {
            assert(s2[i] == s[i]);
        }
    }
}

/// The id a store hands out next belongs to none of its notes, and is
/// above every id it holds; since no operation lowers it, an id is never
/// handed out twice, deleted or not.
pub proof fn lemma_next_id_fresh(s: Seq<NoteView>, next_id: int)
    requires
        valid_notes(s, next_id),
    ensures
        !has_id(s, next_id),
        forall|i: int| 0 <= i < s.len() ==> #[trigger] s[i].id < next_id,
{
}

/// Once a text has been imported, importing the same body again, under any
/// title and with any fingerprint, is a duplicate.
pub proof fn lemma_imported_is_duplicate(s: Seq<NoteView>, n: NoteView, title: Seq<char>, hash: Seq<char>)
    ensures
        duplicate_spec(s.push(n), title, n.body, hash),
{
    let s2 = s.push(n);
    assert(s2[s.len() as int].body == n.body);
}

/// With no notes, every query lists nothing.
pub proof fn lemma_search_empty(q: Seq<char>, limit: nat, r: Seq<SearchResultView>)
    requires
        search_spec(Seq::<NoteView>::empty(), q, limit, r),
    ensures
        r.len() == 0,
{
    let s = Seq::<NoteView>::empty();
    let sel = choose|sel: Seq<usize>| #[trigger] select_post(created_keys(s), match_mask(s, q), limit, sel)
        && r.len() == sel.len() && forall|k: int| 0 <= k < sel.len() ==> r[k] == project(s[sel[k] as int]);
    if sel.len() > 0 {
        assert(sel[0] < created_keys(s).len());
    }
}

/// The positions of the notes of `s` that match `q`.
pub open spec fn matching(s: Seq<NoteView>, q: Seq<char>) -> Set<int> {
    Set::new(|i: int| 0 <= i < s.len() && note_matches(s[i], q))
}

/// The positions of the notes of `s` created in 2024.
pub open spec fn created_in_2024(s: Seq<NoteView>) -> Set<int> {
    Set::new(|i: int| 0 <= i < s.len() && s[i].created_at.year == 2024)
}

/// The positions of the notes of `s` that `march_alpha` accepts.
pub open spec fn march_alpha_notes(s: Seq<NoteView>) -> Set<int> {
    Set::new(|i: int| 0 <= i < s.len() && march_alpha(s[i]))
}

/// The listing key of a result: creation time, then id.
pub open spec fn result_key(x: SearchResultView) -> (i128, i64) {
    (x.created_at.instant() as i128, x.id as i64)
}

/// Whether one of the first `k` results has the id `id`.
pub open spec fn id_listed(r: Seq<SearchResultView>, k: int, id: int) -> bool {
    exists|j: int| 0 <= j < k && r[j].id == id
}

/// `x` is the listing projection of a note of `s` that matches `q`.
pub open spec fn listed_from(s: Seq<NoteView>, q: Seq<char>, x: SearchResultView) -> bool {
    exists|i: int| 0 <= i < s.len() && note_matches(s[i], q) && x == project(s[i])
}

/// Every listed note matches the query, the list is newest first (ties by
/// larger id first), and it is no longer than `limit`.
pub proof fn lemma_search_sound(s: Seq<NoteView>, q: Seq<char>, limit: nat, r: Seq<SearchResultView>)
    requires
        search_spec(s, q, limit, r),
    ensures
        r.len() <= limit,
        forall|k: int| 0 <= k < r.len() ==> listed_from(s, q, #[trigger] r[k]),
        forall|k: int| 0 <= k < r.len() - 1 ==> crate::order::key_lt(
            (r[k + 1].created_at.instant() as i128, r[k + 1].id as i64),
            (#[trigger] r[k].created_at.instant() as i128, r[k].id as i64),
        ),
        r.len() < limit ==> forall|i: int| 0 <= i < s.len() && #[trigger] note_matches(s[i], q)
            ==> id_listed(r, r.len() as int, s[i].id),
        forall|i: int, k: int| 0 <= i < s.len() && 0 <= k < r.len() && note_matches(s[i], q)
            && #[trigger] crate::order::key_lt(result_key(r[k]), created_key(s[i]))
            ==> id_listed(r, k, s[i].id),
        matching(s, q).finite(),
        r.len() == if limit < matching(s, q).len() { limit } else { matching(s, q).len() },
{
    let sel = choose|sel: Seq<usize>| #[trigger] select_post(created_keys(s), match_mask(s, q), limit, sel)
        && r.len() == sel.len() && forall|k: int| 0 <= k < sel.len() ==> r[k] == project(s[sel[k] as int]);
    assert forall|k: int| 0 <= k < r.len() implies listed_from(s, q, #[trigger] r[k]) by {
        let i = sel[k] as int;
        assert(sel[k] < created_keys(s).len() && match_mask(s, q)[i]);
        assert(note_matches(s[i], q));
        assert(r[k] == project(s[i]));
    }
    assert forall|k: int| 0 <= k < r.len() - 1 implies crate::order::key_lt(
        (r[k + 1].created_at.instant() as i128, r[k + 1].id as i64),
        (#[trigger] r[k].created_at.instant() as i128, r[k].id as i64),
    ) by {
        assert(sel[k] < created_keys(s).len());
        assert(sel[k + 1] < created_keys(s).len());
        assert(crate::order::key_lt(created_keys(s)[sel[k + 1] as int], created_keys(s)[sel[k] as int]));
    }
    assert forall|i: int| 0 <= i < s.len() && #[trigger] note_matches(s[i], q) && r.len() < limit
        implies id_listed(r, r.len() as int, s[i].id) by {
        assert(match_mask(s, q)[i]);
        assert(picked_before(sel, sel.len() as int, i));
        let j = choose|j: int| 0 <= j < sel.len() && sel[j] == i;
        assert(r[j].id == s[i].id);
    }
    assert forall|i: int, k: int| 0 <= i < s.len() && 0 <= k < r.len() && note_matches(s[i], q)
        && #[trigger] crate::order::key_lt(result_key(r[k]), created_key(s[i]))
        implies id_listed(r, k, s[i].id) by {
        assert(sel[k] < created_keys(s).len());
        assert(result_key(r[k]) == created_keys(s)[sel[k] as int]);
        assert(created_keys(s)[i] == created_key(s[i]));
        assert(match_mask(s, q)[i]);
        assert(crate::order::key_lt(created_keys(s)[sel[k] as int], created_keys(s)[i]));
        assert(picked_before(sel, k, i));
        let j = choose|j: int| 0 <= j < k && sel[j] == i;
        assert(r[j].id == s[i].id);
    }
    crate::order::lemma_select_len(created_keys(s), match_mask(s, q), limit, sel);
    assert(crate::order::admitted(match_mask(s, q)) =~= matching(s, q));
}

/// In a valid store, no note is listed twice by a query.
pub proof fn lemma_search_distinct(s: Seq<NoteView>, next_id: int, q: Seq<char>, limit: nat, r: Seq<SearchResultView>)
    requires
        valid_notes(s, next_id),
        search_spec(s, q, limit, r),
    ensures
        forall|j: int, k: int| 0 <= j < k < r.len() ==> #[trigger] r[j].id != #[trigger] r[k].id,
{
    let sel = choose|sel: Seq<usize>| #[trigger] select_post(created_keys(s), match_mask(s, q), limit, sel)
        && r.len() == sel.len() && forall|k: int| 0 <= k < sel.len() ==> r[k] == project(s[sel[k] as int]);
    assert forall|j: int, k: int| 0 <= j < k < r.len() implies #[trigger] r[j].id != #[trigger] r[k].id by {
        crate::order::lemma_select_chain(created_keys(s), match_mask(s, q), limit, sel, j, k);
        assert(sel[j] < created_keys(s).len());
        assert(sel[k] < created_keys(s).len());
        if r[j].id == r[k].id {
            assert(s[sel[j] as int].id == s[sel[k] as int].id);
            assert(sel[j] == sel[k]);
        }
    }
}

proof fn lemma_query_y2024()
    ensures
        query_filter("y:2024"@) == Some((2024int, None::<int>)),
        query_text("y:2024"@).len() == 0,
{
    reveal_strlit("y:2024");
    let q = "y:2024"@;
    crate::text::lemma_tokens_append_word(seq![], q);
    assert(Seq::<char>::empty() + q =~= q);
    assert(tokens(Seq::<char>::empty()) =~= seq![]);
    let ts = tokens(q);
    assert(ts =~= seq![q]);
    crate::query::lemma_year_2024_token();
    assert(ts.last() == q);
    assert(ts.drop_last() =~= Seq::<Seq<char>>::empty());
    assert(residual(Seq::<Seq<char>>::empty()) =~= Seq::<Seq<char>>::empty());
    assert(residual(ts) == residual(ts.drop_last()));
    assert(filter_of(ts) == date_token(q));
}

proof fn lemma_query_march_alpha()
    ensures
        query_filter("m:03/24 alpha"@) == Some((2024int, Some(3int))),
        query_text("m:03/24 alpha"@) == "alpha"@,
{
    reveal_strlit("m:03/24 alpha");
    reveal_strlit("m:03/24");
    reveal_strlit("alpha");
    let a = "m:03/24"@;
    let b = "alpha"@;
    let q = "m:03/24 alpha"@;
    let sp = a + seq![' '];
    assert(q =~= sp + b);
    crate::text::lemma_tokens_append_word(seq![], a);
    assert(Seq::<char>::empty() + a =~= a);
    assert(tokens(Seq::<char>::empty()) =~= seq![]);
    assert(tokens(a) =~= seq![a]);
    assert(sp.drop_last() =~= a);
    assert(tokens(sp) == tokens(a));
    crate::text::lemma_tokens_append_word(sp, b);
    let ts = tokens(q);
    assert(ts =~= seq![a, b]);
    crate::query::lemma_march_2024_token();
    crate::query::lemma_alpha_token();
    assert(ts.last() == b);
    assert(ts.drop_last() =~= seq![a]);
    let ta = seq![a];
    assert(ta.last() == a);
    assert(ta.drop_last() =~= Seq::<Seq<char>>::empty());
    assert(residual(Seq::<Seq<char>>::empty()) =~= Seq::<Seq<char>>::empty());
    assert(residual(ta) == residual(ta.drop_last()));
    assert(residual(ts) == residual(ta).push(b));
    assert(residual(ts) =~= seq![b]);
    assert(filter_of(ta) == date_token(a));
    assert(filter_of(ts) == filter_of(ta));
    assert(join_words(seq![b]) == b);
}

/// The query `y:2024` lists only notes created in 2024, newest first, at
/// most `limit` of them.
pub proof fn lemma_year_query(s: Seq<NoteView>, limit: nat, r: Seq<SearchResultView>)
    requires
        search_spec(s, "y:2024"@, limit, r),
    ensures
        r.len() <= limit,
        forall|k: int| 0 <= k < r.len() ==> (#[trigger] r[k]).created_at.year == 2024,
        forall|k: int| 0 <= k < r.len() - 1 ==> crate::order::key_lt(
            (r[k + 1].created_at.instant() as i128, r[k + 1].id as i64),
            (#[trigger] r[k].created_at.instant() as i128, r[k].id as i64),
        ),
        r.len() < limit ==> forall|i: int| 0 <= i < s.len() && #[trigger] s[i].created_at.year == 2024
            ==> id_listed(r, r.len() as int, s[i].id),
        forall|i: int, k: int| 0 <= i < s.len() && 0 <= k < r.len() && s[i].created_at.year == 2024
            && #[trigger] crate::order::key_lt(result_key(r[k]), created_key(s[i]))
            ==> id_listed(r, k, s[i].id),
        created_in_2024(s).finite(),
        r.len() == if limit < created_in_2024(s).len() { limit } else { created_in_2024(s).len() },
{
    lemma_search_sound(s, "y:2024"@, limit, r);
    lemma_query_y2024();
    assert forall|i: int| 0 <= i < s.len() implies (#[trigger] note_matches(s[i], "y:2024"@))
        == (s[i].created_at.year == 2024) by {}
    assert(created_in_2024(s) =~= matching(s, "y:2024"@));
    assert forall|i: int| 0 <= i < s.len() && #[trigger] s[i].created_at.year == 2024 && r.len() < limit
        implies id_listed(r, r.len() as int, s[i].id) by {
        assert(note_matches(s[i], "y:2024"@));
    }
    assert forall|k: int| 0 <= k < r.len() implies (#[trigger] r[k]).created_at.year == 2024 by {
        assert(listed_from(s, "y:2024"@, r[k]));
        let i = choose|i: int| 0 <= i < s.len() && note_matches(s[i], "y:2024"@) && r[k] == project(s[i]);
    }
}

/// `n` was created in March 2024 and its title or body holds `alpha`,
/// ignoring case.
pub open spec fn march_alpha(n: NoteView) -> bool {
    &&& n.created_at.year == 2024
    &&& n.created_at.month == 3
    &&& (contains_seq(lower_of(n.title), lower_of("alpha"@)) || contains_seq(lower_of(n.body), lower_of("alpha"@)))
}

/// `x` lists a note of `s` created in March 2024 whose title or body holds
/// `alpha`, ignoring case.
pub open spec fn march_alpha_listed(s: Seq<NoteView>, x: SearchResultView) -> bool {
    exists|i: int| 0 <= i < s.len() && x == project(s[i]) && march_alpha(s[i])
}

/// The query `m:03/24 alpha` lists only notes created in March 2024 whose
/// title or body holds `alpha`, ignoring case.
pub proof fn lemma_month_text_query(s: Seq<NoteView>, limit: nat, r: Seq<SearchResultView>)
    requires
        search_spec(s, "m:03/24 alpha"@, limit, r),
    ensures
        r.len() <= limit,
        forall|k: int| 0 <= k < r.len() ==> march_alpha_listed(s, #[trigger] r[k]),
        forall|k: int| 0 <= k < r.len() - 1 ==> crate::order::key_lt(
            (r[k + 1].created_at.instant() as i128, r[k + 1].id as i64),
            (#[trigger] r[k].created_at.instant() as i128, r[k].id as i64),
        ),
        r.len() < limit ==> forall|i: int| 0 <= i < s.len() && #[trigger] march_alpha(s[i])
            ==> id_listed(r, r.len() as int, s[i].id),
        forall|i: int, k: int| 0 <= i < s.len() && 0 <= k < r.len() && march_alpha(s[i])
            && #[trigger] crate::order::key_lt(result_key(r[k]), created_key(s[i]))
            ==> id_listed(r, k, s[i].id),
        march_alpha_notes(s).finite(),
        r.len() == if limit < march_alpha_notes(s).len() { limit } else { march_alpha_notes(s).len() },
{
    lemma_search_sound(s, "m:03/24 alpha"@, limit, r);
    lemma_query_march_alpha();
    reveal_strlit("alpha");
    assert("alpha"@.len() == 5);
    assert forall|i: int| 0 <= i < s.len() implies (#[trigger] note_matches(s[i], "m:03/24 alpha"@))
        == march_alpha(s[i]) by {}
    assert(march_alpha_notes(s) =~= matching(s, "m:03/24 alpha"@));
    assert forall|i: int| 0 <= i < s.len() && #[trigger] march_alpha(s[i]) && r.len() < limit
        implies id_listed(r, r.len() as int, s[i].id) by {
        assert(note_matches(s[i], "m:03/24 alpha"@));
    }
    assert forall|k: int| 0 <= k < r.len() implies march_alpha_listed(s, #[trigger] r[k]) by {
        assert(listed_from(s, "m:03/24 alpha"@, r[k]));
        let i = choose|i: int| 0 <= i < s.len() && note_matches(s[i], "m:03/24 alpha"@) && r[k] == project(s[i]);
        assert(note_matches(s[i], "m:03/24 alpha"@));
    }
}

/// Whether two character vectors are equal.
fn same_chars(a: &Vec<char>, b: &Vec<char>) -> (r: bool)
    ensures
        r == (a@ == b@),
{
    if a.len() != b.len() {
        return false;
    }
    let mut i: usize = 0;
    while i < a.len()
        invariant
            a.len() == b.len(),
            i <= a.len(),
            forall|k: int| 0 <= k < i ==> a@[k] == b@[k],
        decreases a.len() - i,
    {
        if a[i] != b[i] {
            return false;
        }
        i = i + 1;
    }
    assert(a@ =~= b@);
    true
}

/// A file offered for import, as read: its name without extension (absent
/// when it cannot be read as text), its content (absent when the file could
/// not be read) and its modification time, when known.
pub struct ImportCandidate {
    pub file_stem: Option<String>,
    pub content: Option<String>,
    pub modified: Option<Timestamp>,
}

impl ImportCandidate {
    pub open spec fn modified_ok(&self) -> bool {
        match self.modified {
            Some(m) => m.wf(),
            None => true,
        }
    }
}

/// Where a batch import stands: the notes, the next id, the counts of
/// imported and skipped files, and the new ids in order.
pub struct ImportRun {
    pub notes: Seq<NoteView>,
    pub next_id: int,
    pub imported: nat,
    pub skipped: nat,
    pub ids: Seq<i64>,
}

/// The title a file is imported under: its name without extension, or
/// `(untitled)`.
pub open spec fn candidate_title(f: ImportCandidate) -> Seq<char> {
    match f.file_stem {
        Some(t) => t@,
        None => untitled(),
    }
}

/// When an imported file's note counts as created: the file's modification
/// time, or the import time when that is unknown.
pub open spec fn candidate_created(f: ImportCandidate, now: Timestamp) -> Timestamp {
    match f.modified {
        Some(m) => m,
        None => now,
    }
}

/// One file of a batch import: skipped when unreadable, when it duplicates
/// a note held so far, or when no id is left; else added as a note carrying
/// its fingerprint.
pub open spec fn import_step(st: ImportRun, f: ImportCandidate, now: Timestamp) -> ImportRun {
    match f.content {
        None => ImportRun { skipped: st.skipped + 1, ..st },
        Some(c) => {
            let title = candidate_title(f);
            let hash = fingerprint(title, c@);
            if duplicate_spec(st.notes, title, c@, hash) || st.next_id == i64::MAX {
                ImportRun { skipped: st.skipped + 1, ..st }
            } else {
                let created = candidate_created(f, now);
                ImportRun {
                    notes: st.notes.push(NoteView {
                        id: st.next_id,
                        title: title,
                        body: c@,
                        created_at: created,
                        updated_at: later_spec(created, now),
                        import_hash: Some(hash),
                    }),
                    next_id: st.next_id + 1,
                    imported: st.imported + 1,
                    skipped: st.skipped,
                    ids: st.ids.push(st.next_id as i64),
                }
            }
        },
    }
}

/// The files of a batch imported in order, starting from `start`.
pub open spec fn import_run(start: ImportRun, files: Seq<ImportCandidate>, now: Timestamp) -> ImportRun
    decreases files.len(),
{
    if files.len() == 0 {
        start
    } else {
        import_step(import_run(start, files.drop_last(), now), files.last(), now)
    }
}

/// A batch import from notes `s` with next id `next`, stamped `now`, left
/// the notes `t` with next id `t_next` and returned `r`, as running the
/// files in order does.
pub open spec fn batch_done(
    s: Seq<NoteView>,
    next: int,
    files: Seq<ImportCandidate>,
    now: Timestamp,
    t: Seq<NoteView>,
    t_next: int,
    r: Result<(usize, usize, Vec<i64>), KiroError>,
) -> bool {
    let run = import_run(ImportRun { notes: s, next_id: next, imported: 0, skipped: 0, ids: seq![] }, files, now);
    &&& t == run.notes
    &&& t_next == run.next_id
    &&& match r {
        Ok((imported, skipped, ids)) => imported == run.imported && skipped == run.skipped && ids@ == run.ids,
        Err(_) => false,
    }
}

/// The note store.
pub struct NoteStore {
    notes: Vec<Note>,
    next_id: i64,
}

impl View for NoteStore {
    type V = Seq<NoteView>;

    closed spec fn view(&self) -> Seq<NoteView> {
        self.notes@.map_values(|n: Note| n@)
    }
}

impl NoteStore {
    /// The id the next created note receives.
    pub closed spec fn next_id_spec(&self) -> int {
        self.next_id as int
    }

    /// The store's invariant.
    pub open spec fn wf(&self) -> bool {
        valid_notes(self@, self.next_id_spec())
    }

    /// An empty store.
    pub fn new() -> (r: NoteStore)
        ensures
            r.wf(),
            r@.len() == 0,
            r.next_id_spec() == 1,
    {
        let r = NoteStore { notes: Vec::new(), next_id: 1 };
        assert(r@ =~= Seq::<NoteView>::empty());
        r
    }

    fn find(&self, id: i64) -> (r: Option<usize>)
        requires
            self.wf(),
        ensures
            match r {
                Some(i) => i < self@.len() && self@[i as int].id == id,
                None => !has_id(self@, id as int),
            },
    {
        let mut i: usize = 0;
        while i < self.notes.len()
            invariant
                i <= self.notes.len(),
                forall|j: int| 0 <= j < i ==> self@[j].id != id,
            decreases self.notes.len() - i,
        {
            if self.notes[i].id == id {
                return Some(i);
            }
            i = i + 1;
        }
        None
    }

    /// Takes in a note kept elsewhere (when a store is reloaded); an update
    /// time before the creation time is raised to it. Refused, leaving the
    /// store unchanged, when its id is not positive, is taken, is the largest
    /// id, or its timestamps are not well formed.
    pub fn load(&mut self, note: Note) -> (r: bool)
        requires
            old(self).wf(),
        ensures
            final(self).wf(),
            r == (note.id >= 1 && note.id < i64::MAX && !has_id(old(self)@, note.id as int)
                && note.created_at.wf() && note.updated_at.wf()),
            r ==> final(self)@ == old(self)@.push(NoteView {
                updated_at: later_spec(note.updated_at, note.created_at),
                ..note@
            }),
            r ==> final(self).next_id_spec() == if note.id >= old(self).next_id_spec() {
                note.id + 1
            } else {
                old(self).next_id_spec()
            },
            !r ==> final(self)@ == old(self)@ && final(self).next_id_spec() == old(self).next_id_spec(),
    {
        if note.id < 1 || note.id == i64::MAX {
            return false;
        }
        if self.find(note.id).is_some() {
            return false;
        }
        let c = note.created_at;
        let u = note.updated_at;
        if !(1 <= c.month && c.month <= 12 && 1 <= c.day && c.day <= 31 && c.hour < 24 && c.minute < 60
            && c.second < 60 && c.nanosecond < 2_000_000_000) {
            return false;
        }
        if !(1 <= u.month && u.month <= 12 && 1 <= u.day && u.day <= 31 && u.hour < 24 && u.minute < 60
            && u.second < 60 && u.nanosecond < 2_000_000_000) {
            return false;
        }
        let ghost v = note@;
        let fixed = Note {
            id: note.id,
            title: note.title,
            body: note.body,
            created_at: c,
            updated_at: later(u, c),
            import_hash: note.import_hash,
        };
        assert(fixed@ == (NoteView { updated_at: later_spec(u, c), ..v }));
        if fixed.id >= self.next_id {
            self.next_id = fixed.id + 1;
        }
        let ghost before = self@;
        self.notes.push(fixed);
        assert(self@ =~= before.push(fixed@));
        true
    }

    /// Makes sure that no id below `next` is handed out again.
    pub fn reserve_ids(&mut self, next: i64)
        requires
            old(self).wf(),
        ensures
            final(self).wf(),
            final(self)@ == old(self)@,
            final(self).next_id_spec() == if next > old(self).next_id_spec() {
                next as int
            } else {
                old(self).next_id_spec()
            },
    {
        if next > self.next_id {
            self.next_id = next;
        }
    }

    /// The ids of all notes, in store order.
    pub fn ids(&self) -> (r: Vec<i64>)
        ensures
            r@.len() == self@.len(),
            forall|i: int| 0 <= i < r@.len() ==> r@[i] == #[trigger] self@[i].id,
    {
        let mut r: Vec<i64> = Vec::new();
        let mut i: usize = 0;
        while i < self.notes.len()
            invariant
                i <= self.notes.len(),
                r@.len() == i,
                forall|j: int| 0 <= j < i ==> r@[j] == #[trigger] self@[j].id,
            decreases self.notes.len() - i,
        {
            assert(self@[i as int] == self.notes@[i as int]@);
            r.push(self.notes[i].id);
            i = i + 1;
        }
        r
    }

    /// The number of notes.
    pub fn count(&self) -> (r: Result<usize, KiroError>)
        ensures
            r == Ok::<usize, KiroError>(self@.len() as usize),
    {
        Ok(self.notes.len())
    }

    /// The note with the given id, if there is one.
    pub fn get(&self, id: i64) -> (r: Result<Option<Note>, KiroError>)
        requires
            self.wf(),
        ensures
            r is Ok,
            match r {
                Ok(Some(n)) => exists|i: int| 0 <= i < self@.len() && self@[i] == n@ && n@.id == id,
                Ok(None) => !has_id(self@, id as int),
                Err(_) => false,
            },
    {
        match self.find(id) {
            Some(i) => Ok(Some(self.notes[i].duplicate())),
            None => Ok(None),
        }
    }

    /// The notes whose ids are in `ids`, most recently updated first.
    pub fn get_many(&self, ids: &Vec<i64>) -> (r: Result<Vec<Note>, KiroError>)
        requires
            self.wf(),
        ensures
            match r {
                Ok(v) => many_spec(self@, ids@, v@.map_values(|n: Note| n@)),
                Err(_) => false,
            },
    {
        let ghost s = self@;
        let ghost keys_s = updated_keys(s);
        let ghost mask_s = id_mask(s, ids@);
        let mut keys: Vec<(i128, i64)> = Vec::new();
        let mut mask: Vec<bool> = Vec::new();
        let mut i: usize = 0;
        while i < self.notes.len()
            invariant
                self.wf(),
                s == self@,
                keys_s == updated_keys(s),
                mask_s == id_mask(s, ids@),
                i <= self.notes.len(),
                keys@ == keys_s.take(i as int),
                mask@ == mask_s.take(i as int),
            decreases self.notes.len() - i,
        {
            let n = &self.notes[i];
            assert(self@[i as int] == n@);
            assert(self@[i as int].wf());
            keys.push((n.updated_at.instant_value(), n.id));
            let mut found = false;
            let mut j: usize = 0;
            while j < ids.len()
                invariant
                    j <= ids.len(),
                    found == exists|k: int| 0 <= k < j && ids@[k] == n.id,
                decreases ids.len() - j,
            {
                if ids[j] == n.id {
                    found = true;
                }
                j = j + 1;
            }
            mask.push(found);
            i = i + 1;
            assert(keys@ =~= keys_s.take(i as int));
            assert(mask@ =~= mask_s.take(i as int));
        }
        assert(keys@ =~= keys_s);
        assert(mask@ =~= mask_s);
        assert(distinct_keys(keys@)) by {
            assert forall|a: int, b: int| 0 <= a < keys@.len() && 0 <= b < keys@.len() && a != b
                implies keys@[a] != keys@[b] by {
                assert(s[a].id != s[b].id);
            }
        }
        let sel = select_greatest(&keys, &mask, self.notes.len());
        let mut out: Vec<Note> = Vec::new();
        let mut k: usize = 0;
        while k < sel.len()
            invariant
                s == self@,
                select_post(keys_s, mask_s, s.len(), sel@),
                keys_s.len() == s.len(),
                k <= sel.len(),
                out.len() == k,
                forall|m: int| 0 <= m < k ==> (#[trigger] out@[m])@ == s[sel@[m] as int],
            decreases sel.len() - k,
        {
            let idx = sel[k];
            assert(sel@[k as int] < keys_s.len());
            out.push(self.notes[idx].duplicate());
            k = k + 1;
        }
        let ghost rv = out@.map_values(|n: Note| n@);
        assert(select_post(keys_s, mask_s, s.len(), sel@) && rv.len() == sel@.len()
            && forall|m: int| 0 <= m < sel@.len() ==> rv[m] == s[sel@[m] as int]);
        Ok(out)
    }

    /// Lists the notes matching a query, newest first, at most `limit` of them.
    pub fn search(&self, query: &str, limit: usize) -> (r: Result<Vec<SearchResult>, KiroError>)
        requires
            self.wf(),
        ensures
            match r {
                Ok(v) => search_spec(self@, query@, limit as nat, v@.map_values(|x: SearchResult| x@)),
                Err(_) => false,
            },
    {
        let ghost s = self@;
        let ghost q = query@;
        let ghost keys_s = created_keys(s);
        let ghost mask_s = match_mask(s, q);
        let (filter, text) = parse_date_filter(query);
        let needle = lowercase_chars(text.as_str());
        let has_text = !text.as_str().is_empty();
        let mut keys: Vec<(i128, i64)> = Vec::new();
        let mut mask: Vec<bool> = Vec::new();
        let mut i: usize = 0;
        while i < self.notes.len()
            invariant
                self.wf(),
                s == self@,
                q == query@,
                keys_s == created_keys(s),
                mask_s == match_mask(s, q),
                crate::query::filter_view(filter) == query_filter(q),
                text@ == query_text(q),
                needle@ == lower_of(text@),
                has_text == (text@.len() > 0),
                i <= self.notes.len(),
                keys@ == keys_s.take(i as int),
                mask@ == mask_s.take(i as int),
            decreases self.notes.len() - i,
        {
            let n = &self.notes[i];
            assert(self@[i as int] == n@);
            assert(self@[i as int].wf());
            keys.push((n.created_at.instant_value(), n.id));
            let c = n.created_at;
            let date_ok = match filter {
                None => true,
                Some((y, None)) => c.year == y,
                Some((y, Some(m))) => c.year == y && c.month == m,
            };
            let ok = if !date_ok {
                false
            } else if !has_text {
                true
            } else {
                let t = lowercase_chars(n.title.as_str());
                if contains_chars(&t, &needle) {
                    true
                } else {
                    let b = lowercase_chars(n.body.as_str());
                    contains_chars(&b, &needle)
                }
            };
            mask.push(ok);
            i = i + 1;
            assert(keys@ =~= keys_s.take(i as int));
            assert(mask@ =~= mask_s.take(i as int));
        }
        assert(keys@ =~= keys_s);
        assert(mask@ =~= mask_s);
        assert(distinct_keys(keys@)) by {
            assert forall|a: int, b: int| 0 <= a < keys@.len() && 0 <= b < keys@.len() && a != b
                implies keys@[a] != keys@[b] by {
                assert(s[a].id != s[b].id);
            }
        }
        let sel = select_greatest(&keys, &mask, limit);
        let mut out: Vec<SearchResult> = Vec::new();
        let mut k: usize = 0;
        while k < sel.len()
            invariant
                s == self@,
                select_post(keys_s, mask_s, limit as nat, sel@),
                keys_s.len() == s.len(),
                k <= sel.len(),
                out.len() == k,
                forall|m: int| 0 <= m < k ==> (#[trigger] out@[m])@ == project(s[sel@[m] as int]),
            decreases sel.len() - k,
        {
            let idx = sel[k];
            assert(sel@[k as int] < keys_s.len());
            out.push(SearchResult::from_note(&self.notes[idx]));
            k = k + 1;
        }
        let ghost rv = out@.map_values(|x: SearchResult| x@);
        assert(select_post(keys_s, mask_s, limit as nat, sel@) && rv.len() == sel@.len()
            && forall|m: int| 0 <= m < sel@.len() ==> rv[m] == project(s[sel@[m] as int]));
        Ok(out)
    }

    fn insert(&mut self, title: String, body: String, created_at: Timestamp, now: Timestamp, hash: Option<String>) -> (r: Result<i64, KiroError>)
        requires
            old(self).wf(),
            created_at.wf(),
            now.wf(),
        ensures
            final(self).wf(),
            match r {
                Ok(id) => {
                    &&& id == old(self).next_id_spec()
                    &&& final(self).next_id_spec() == id + 1
                    &&& final(self)@ == old(self)@.push(NoteView {
                        id: id as int,
                        title: title@,
                        body: body@,
                        created_at: created_at,
                        updated_at: later_spec(created_at, now),
                        import_hash: opt_view(hash),
                    })
                },
                Err(e) => {
                    &&& old(self).next_id_spec() == i64::MAX
                    &&& final(self)@ == old(self)@
                    &&& final(self).next_id_spec() == old(self).next_id_spec()
                    &&& e is Database
                },
            },
    {
        if self.next_id == i64::MAX {
            return Err(KiroError::Database(String::from_str("no note ids are left")));
        }
        let id = self.next_id;
        let updated = later(created_at, now);
        let n = Note { id, title, body, created_at, updated_at: updated, import_hash: hash };
        let ghost before = self@;
        self.notes.push(n);
        self.next_id = id + 1;
        assert(self@ =~= before.push(n@));
        Ok(id)
    }

    /// Creates a note stamped with `now`; returns its id. Fails only when
    /// the ids are used up.
    pub fn create_at(&mut self, title: &str, body: &str, now: Timestamp) -> (r: Result<i64, KiroError>)
        requires
            old(self).wf(),
            now.wf(),
        ensures
            final(self).wf(),
            r is Ok <==> old(self).next_id_spec() < i64::MAX,
            match r {
                Ok(id) => {
                    &&& id == old(self).next_id_spec()
                    &&& final(self).next_id_spec() == id + 1
                    &&& final(self)@ == old(self)@.push(NoteView {
                        id: id as int,
                        title: title@,
                        body: body@,
                        created_at: now,
                        updated_at: now,
                        import_hash: None,
                    })
                },
                Err(_) => final(self)@ == old(self)@ && final(self).next_id_spec() == old(self).next_id_spec(),
            },
    {
        self.insert(String::from_str(title), String::from_str(body), now, now, None)
    }

    /// Creates a note stamped with the current time; returns its id.
    pub fn create(&mut self, title: &str, body: &str) -> (r: Result<i64, KiroError>)
        requires
            old(self).wf(),
        ensures
            final(self).wf(),
            r is Ok <==> old(self).next_id_spec() < i64::MAX,
            match r {
                Ok(id) => {
                    &&& id == old(self).next_id_spec()
                    &&& final(self).next_id_spec() == id + 1
                    &&& final(self)@.len() == old(self)@.len() + 1
                    &&& final(self)@.drop_last() == old(self)@
                    &&& final(self)@.last().id == id
                    &&& final(self)@.last().title == title@
                    &&& final(self)@.last().body == body@
                    &&& final(self)@.last().created_at == final(self)@.last().updated_at
                    &&& final(self)@.last().import_hash is None
                },
                Err(_) => final(self)@ == old(self)@ && final(self).next_id_spec() == old(self).next_id_spec(),
            },
    {
        let now = now_utc();
        let r = self.create_at(title, body, now);
        proof {
            if r is Ok {
                assert(self@.drop_last() =~= old(self)@);
            }
        }
        r
    }

    /// Replaces the body of the note `id`, updated at `now` (or kept at its
    /// previous update time if that is later). Not-found leaves the store as it was.
    pub fn update_at(&mut self, id: i64, body: &str, now: Timestamp) -> (r: Result<(), KiroError>)
        requires
            old(self).wf(),
            now.wf(),
        ensures
            final(self).wf(),
            final(self).next_id_spec() == old(self).next_id_spec(),
            r is Ok <==> has_id(old(self)@, id as int),
            match r {
                Ok(_) => forall|i: int| 0 <= i < old(self)@.len() && old(self)@[i].id == id
                    ==> final(self)@ == old(self)@.update(i, with_body(old(self)@[i], body@, now)),
                Err(e) => final(self)@ == old(self)@ && e == KiroError::NoteNotFound(id),
            },
    {
        match self.find(id) {
            None => Err(KiroError::NoteNotFound(id)),
            Some(i) => {
                let ghost before = self@;
                let old_note = self.notes[i].duplicate();
                assert(before[i as int].wf());
                let n = Note {
                    id: old_note.id,
                    title: old_note.title,
                    body: String::from_str(body),
                    created_at: old_note.created_at,
                    updated_at: later(old_note.updated_at, now),
                    import_hash: old_note.import_hash,
                };
                self.notes.set(i, n);
                assert(self@ =~= before.update(i as int, with_body(before[i as int], body@, now)));
                assert forall|j: int| 0 <= j < self@.len() implies (#[trigger] self@[j]).wf() && 1 <= self@[j].id < self.next_id by {
                    if j != i {
                        assert(self@[j] == before[j]);
                    }
                }
                assert forall|a: int, b: int| 0 <= a < self@.len() && 0 <= b < self@.len() && a != b
                    implies #[trigger] self@[a].id != #[trigger] self@[b].id by {
                    assert(before[a].id != before[b].id);
                }
                Ok(())
            },
        }
    }

    /// Replaces the body of the note `id`, updated at the current time.
    pub fn update(&mut self, id: i64, body: &str) -> (r: Result<(), KiroError>)
        requires
            old(self).wf(),
        ensures
            final(self).wf(),
            final(self).next_id_spec() == old(self).next_id_spec(),
            r is Ok <==> has_id(old(self)@, id as int),
            match r {
                Ok(_) => forall|i: int| 0 <= i < old(self)@.len() && #[trigger] old(self)@[i].id == id
                    ==> refreshed(old(self)@, final(self)@, i, old(self)@[i].title, body@),
                Err(e) => final(self)@ == old(self)@ && e == KiroError::NoteNotFound(id),
            },
    {
        let now = now_utc();
        self.update_at(id, body, now)
    }

    /// Replaces title and body of the note `id`, updated at `now` (or kept at
    /// its previous update time if that is later).
    pub fn update_title_and_body_at(&mut self, id: i64, title: &str, body: &str, now: Timestamp) -> (r: Result<(), KiroError>)
        requires
            old(self).wf(),
            now.wf(),
        ensures
            final(self).wf(),
            final(self).next_id_spec() == old(self).next_id_spec(),
            r is Ok <==> has_id(old(self)@, id as int),
            match r {
                Ok(_) => forall|i: int| 0 <= i < old(self)@.len() && old(self)@[i].id == id
                    ==> final(self)@ == old(self)@.update(i, with_title_body(old(self)@[i], title@, body@, now)),
                Err(e) => final(self)@ == old(self)@ && e == KiroError::NoteNotFound(id),
            },
    {
        match self.find(id) {
            None => Err(KiroError::NoteNotFound(id)),
            Some(i) => {
                let ghost before = self@;
                let old_note = self.notes[i].duplicate();
                assert(before[i as int].wf());
                let n = Note {
                    id: old_note.id,
                    title: String::from_str(title),
                    body: String::from_str(body),
                    created_at: old_note.created_at,
                    updated_at: later(old_note.updated_at, now),
                    import_hash: old_note.import_hash,
                };
                self.notes.set(i, n);
                assert(self@ =~= before.update(i as int, with_title_body(before[i as int], title@, body@, now)));
                assert forall|j: int| 0 <= j < self@.len() implies (#[trigger] self@[j]).wf() && 1 <= self@[j].id < self.next_id by {
                    if j != i {
                        assert(self@[j] == before[j]);
                    }
                }
                assert forall|a: int, b: int| 0 <= a < self@.len() && 0 <= b < self@.len() && a != b
                    implies #[trigger] self@[a].id != #[trigger] self@[b].id by {
                    assert(before[a].id != before[b].id);
                }
                Ok(())
            },
        }
    }

    /// Replaces title and body of the note `id`, updated at the current time.
    pub fn update_title_and_body(&mut self, id: i64, title: &str, body: &str) -> (r: Result<(), KiroError>)
        requires
            old(self).wf(),
        ensures
            final(self).wf(),
            final(self).next_id_spec() == old(self).next_id_spec(),
            r is Ok <==> has_id(old(self)@, id as int),
            match r {
                Ok(_) => forall|i: int| 0 <= i < old(self)@.len() && #[trigger] old(self)@[i].id == id
                    ==> refreshed(old(self)@, final(self)@, i, title@, body@),
                Err(e) => final(self)@ == old(self)@ && e == KiroError::NoteNotFound(id),
            },
    {
        let now = now_utc();
        self.update_title_and_body_at(id, title, body, now)
    }

    /// Removes the notes whose ids are in `ids`; returns how many there were.
    pub fn delete_many(&mut self, ids: &Vec<i64>) -> (r: Result<usize, KiroError>)
        requires
            old(self).wf(),
        ensures
            final(self).wf(),
            final(self).next_id_spec() == old(self).next_id_spec(),
            final(self)@ == without_ids(old(self)@, ids@),
            r == Ok::<usize, KiroError>((old(self)@.len() - final(self)@.len()) as usize),
            r == Ok::<usize, KiroError>(count_ids(old(self)@, ids@) as usize),
    {
        proof { lemma_delete_count(self@, ids@); }
        if ids.len() == 0 {
            proof { lemma_without_none(self@, ids@); }
            return Ok(0);
        }
        let ghost s = self@;
        let mut kept: Vec<Note> = Vec::new();
        let mut i: usize = 0;
        let total = self.notes.len();
        while i < self.notes.len()
            invariant
                self.wf(),
                s == self@,
                total == s.len(),
                i <= s.len(),
                kept@.map_values(|n: Note| n@) == without_ids(s.take(i as int), ids@),
                kept.len() <= i,
            decreases s.len() - i,
        {
            let ghost pre = s.take(i as int);
            assert(s.take(i + 1).drop_last() =~= pre);
            let id = self.notes[i].id;
            let mut found = false;
            let mut j: usize = 0;
            while j < ids.len()
                invariant
                    j <= ids.len(),
                    found == exists|k: int| 0 <= k < j && ids@[k] == id,
                decreases ids.len() - j,
            {
                if ids[j] == id {
                    found = true;
                }
                j = j + 1;
            }
            assert(found == ids@.contains(id));
            if !found {
                let ghost kv = kept@.map_values(|n: Note| n@);
                kept.push(self.notes[i].duplicate());
                assert(kept@.map_values(|n: Note| n@) =~= kv.push(s[i as int]));
            }
            i = i + 1;
        }
        assert(s.take(s.len() as int) =~= s);
        proof { lemma_without_valid(s, ids@, self.next_id as int); }
        self.notes = kept;
        Ok(total - self.notes.len())
    }

    /// Removes the note `id`.
    pub fn delete(&mut self, id: i64) -> (r: Result<(), KiroError>)
        requires
            old(self).wf(),
        ensures
            final(self).wf(),
            final(self).next_id_spec() == old(self).next_id_spec(),
            r is Ok <==> has_id(old(self)@, id as int),
            match r {
                Ok(_) => final(self)@ == without_ids(old(self)@, seq![id]),
                Err(e) => final(self)@ == old(self)@ && e == KiroError::NoteNotFound(id),
            },
    {
        if self.find(id).is_none() {
            return Err(KiroError::NoteNotFound(id));
        }
        let ids = vec![id];
        assert(ids@ =~= seq![id]);
        let _ = self.delete_many(&ids);
        Ok(())
    }

    /// Inserts `count` synthetic notes titled `Sample note <k>`, each created
    /// at the current time. Fails only when the ids run out.
    pub fn seed(&mut self, count: usize) -> (r: Result<(), KiroError>)
        requires
            old(self).wf(),
        ensures
            final(self).wf(),
            r is Ok <==> old(self).next_id_spec() + count <= i64::MAX,
            r is Ok ==> {
                &&& final(self).next_id_spec() == old(self).next_id_spec() + count
                &&& final(self)@.len() == old(self)@.len() + count
                &&& final(self)@.take(old(self)@.len() as int) == old(self)@
                &&& forall|k: int| 0 <= k < count ==> {
                    let n = #[trigger] final(self)@[old(self)@.len() + k];
                    &&& n.id == old(self).next_id_spec() + k
                    &&& n.title == sample_title((k + 1) as nat)
                    &&& n.body == sample_body((k + 1) as nat)
                    &&& n.created_at == n.updated_at
                    &&& n.import_hash is None
                }
            },
    {
        let ghost s0 = self@;
        let ghost next0 = self.next_id_spec();
        let mut i: usize = 0;
        while i < count
            invariant
                self.wf(),
                i <= count,
                next0 == old(self).next_id_spec(),
                s0 == old(self)@,
                self.next_id_spec() == next0 + i,
                self@.len() == s0.len() + i,
                self@.take(s0.len() as int) == s0,
                forall|k: int| 0 <= k < i ==> {
                    let n = #[trigger] self@[s0.len() + k];
                    &&& n.id == next0 + k
                    &&& n.title == sample_title((k + 1) as nat)
                    &&& n.body == sample_body((k + 1) as nat)
                    &&& n.created_at == n.updated_at
                    &&& n.import_hash is None
                },
            decreases count - i,
        {
            let mut title = String::from_str("Sample note ");
            crate::time::push_decimal(&mut title, (i + 1) as u64);
            let mut body = String::from_str("This is sample note number ");
            crate::time::push_decimal(&mut body, (i + 1) as u64);
            body.append(".\n\nCreated for testing Kiro.\nContains keywords like alpha beta gamma delta.\n\nUse :help for commands.");
            let ghost before = self@;
            let now = now_utc();
            match self.create_at(title.as_str(), body.as_str(), now) {
                Ok(_) => {},
                Err(e) => {
                    assert(self.next_id_spec() == i64::MAX);
                    assert(next0 + count > i64::MAX);
                    return Err(e);
                },
            }
            assert(self@.take(s0.len() as int) =~= s0) by {
                assert(before.take(s0.len() as int) == s0);
                assert forall|k: int| 0 <= k < s0.len() implies self@[k] == s0[k] by {
                    assert(self@[k] == before[k]);
                    assert(before.take(s0.len() as int)[k] == before[k]);
                }
            }
            assert forall|k: int| 0 <= k < i + 1 implies {
                let n = #[trigger] self@[s0.len() + k];
                &&& n.id == next0 + k
                &&& n.title == sample_title((k + 1) as nat)
                &&& n.body == sample_body((k + 1) as nat)
                &&& n.created_at == n.updated_at
                &&& n.import_hash is None
            } by {
                if k < i {
                    assert(self@[s0.len() + k] == before[s0.len() + k]);
                }
            }
            i = i + 1;
        }
        Ok(())
    }

    /// Whether importing `title` / `body` with fingerprint `hash` would
    /// duplicate a stored note.
    pub fn content_exists(&self, title: &str, body: &str, hash: &str) -> (r: bool)
        ensures
            r == duplicate_spec(self@, title@, body@, hash@),
    {
        let h = chars_of(hash);
        let b = chars_of(body);
        let t = chars_of(title);
        let mut i: usize = 0;
        while i < self.notes.len()
            invariant
                i <= self.notes.len(),
                h@ == hash@,
                forall|j: int| 0 <= j < i ==> #[trigger] self@[j].import_hash != Some(hash@),
            decreases self.notes.len() - i,
        {
            assert(self@[i as int] == self.notes@[i as int]@);
            match &self.notes[i].import_hash {
                Some(x) => {
                    let xc = chars_of(x.as_str());
                    if same_chars(&xc, &h) {
                        assert(self@[i as int].import_hash == Some(hash@));
                        return true;
                    }
                },
                None => {},
            }
            i = i + 1;
        }
        let mut i: usize = 0;
        while i < self.notes.len()
            invariant
                i <= self.notes.len(),
                b@ == body@,
                forall|j: int| 0 <= j < i ==> #[trigger] self@[j].body != body@,
            decreases self.notes.len() - i,
        {
            assert(self@[i as int] == self.notes@[i as int]@);
            let nb = chars_of(self.notes[i].body.as_str());
            if same_chars(&nb, &b) {
                assert(self@[i as int].body == body@);
                return true;
            }
            i = i + 1;
        }
        let plen: usize = if b.len() < DEDUP_PREFIX_CHARS {
            b.len()
        } else {
            DEDUP_PREFIX_CHARS
        };
        let ghost p = prefix_spec(body@, DEDUP_PREFIX_CHARS as nat);
        assert(p.len() == plen);
        let mut i: usize = 0;
        while i < self.notes.len()
            invariant
                i <= self.notes.len(),
                b@ == body@,
                t@ == title@,
                p == prefix_spec(body@, DEDUP_PREFIX_CHARS as nat),
                p.len() == plen,
                plen <= b.len(),
                forall|j: int| 0 <= j < i ==> !(#[trigger] self@[j].title == title@ && p.len() <= self@[j].body.len()
                    && self@[j].body.take(p.len() as int) == p),
            decreases self.notes.len() - i,
        {
            assert(self@[i as int] == self.notes@[i as int]@);
            let nt = chars_of(self.notes[i].title.as_str());
            if same_chars(&nt, &t) {
                let nb = chars_of(self.notes[i].body.as_str());
                if plen <= nb.len() {
                    let mut k: usize = 0;
                    let mut same = true;
                    while k < plen
                        invariant
                            k <= plen <= nb.len(),
                            plen <= b.len(),
                            same == forall|m: int| 0 <= m < k ==> nb@[m] == b@[m],
                        decreases plen - k,
                    {
                        if nb[k] != b[k] {
                            same = false;
                        }
                        k = k + 1;
                    }
                    if same {
                        assert(self@[i as int].body.take(p.len() as int) =~= p);
                        assert(self@[i as int].title == title@);
                        return true;
                    }
                    assert(self@[i as int].body.take(p.len() as int) != p) by {
                        let m = choose|m: int| 0 <= m < plen && nb@[m] != b@[m];
                        assert(self@[i as int].body.take(p.len() as int)[m] != p[m]);
                    }
                }
            }
            i = i + 1;
        }
        false
    }

    /// Imports a text under `title` with fingerprint `hash`, created at
    /// `created_at` and updated at `now` (or at `created_at` if that is
    /// later); skipped when it duplicates a stored note. Returns whether it
    /// was imported, and the new id.
    pub fn import_with_hash(&mut self, title: &str, body: &str, hash: &str, created_at: Timestamp, now: Timestamp)
        -> (r: Result<(bool, Option<i64>), KiroError>)
        requires
            old(self).wf(),
            created_at.wf(),
            now.wf(),
        ensures
            final(self).wf(),
            duplicate_spec(old(self)@, title@, body@, hash@) ==> r == Ok::<(bool, Option<i64>), KiroError>((false, None))
                && final(self)@ == old(self)@ && final(self).next_id_spec() == old(self).next_id_spec(),
            !duplicate_spec(old(self)@, title@, body@, hash@) ==> match r {
                Ok((imported, id)) => {
                    &&& imported
                    &&& id == Some(old(self).next_id_spec() as i64)
                    &&& old(self).next_id_spec() < i64::MAX
                    &&& final(self).next_id_spec() == old(self).next_id_spec() + 1
                    &&& final(self)@ == old(self)@.push(NoteView {
                        id: old(self).next_id_spec(),
                        title: title@,
                        body: body@,
                        created_at: created_at,
                        updated_at: later_spec(created_at, now),
                        import_hash: Some(hash@),
                    })
                },
                Err(_) => old(self).next_id_spec() == i64::MAX && final(self)@ == old(self)@
                    && final(self).next_id_spec() == old(self).next_id_spec(),
            },
    {
        if self.content_exists(title, body, hash) {
            return Ok((false, None));
        }
        match self.insert(String::from_str(title), String::from_str(body), created_at, now, Some(String::from_str(hash))) {
            Ok(id) => Ok((true, Some(id))),
            Err(e) => Err(e),
        }
    }

    /// Imports the text of a file. The title is the file name without its
    /// extension, or `(untitled)` when the name cannot be read; the note is
    /// created at the file's modification time when known, else now, and
    /// carries the fingerprint of title and text. Skipped as a duplicate as
    /// `import_with_hash` decides.
    pub fn import_file(&mut self, file_stem: Option<&str>, content: &str, modified: Option<Timestamp>)
        -> (r: Result<(bool, Option<i64>), KiroError>)
        requires
            old(self).wf(),
            match modified {
                Some(m) => m.wf(),
                None => true,
            },
        ensures
            final(self).wf(),
            ({
                let title = match file_stem {
                    Some(t) => t@,
                    None => untitled(),
                };
                let hash = fingerprint(title, content@);
                &&& duplicate_spec(old(self)@, title, content@, hash) ==> r
                    == Ok::<(bool, Option<i64>), KiroError>((false, None)) && final(self)@ == old(self)@
                    && final(self).next_id_spec() == old(self).next_id_spec()
                &&& !duplicate_spec(old(self)@, title, content@, hash) ==> match r {
                    Ok((imported, id)) => {
                        &&& imported
                        &&& id == Some(old(self).next_id_spec() as i64)
                        &&& final(self).next_id_spec() == old(self).next_id_spec() + 1
                        &&& final(self)@.len() == old(self)@.len() + 1
                        &&& final(self)@.drop_last() == old(self)@
                        &&& final(self)@.last().id == old(self).next_id_spec()
                        &&& final(self)@.last().title == title
                        &&& final(self)@.last().body == content@
                        &&& final(self)@.last().import_hash == Some(hash)
                        &&& (modified matches Some(m) ==> final(self)@.last().created_at == m)
                        &&& (modified is None ==> final(self)@.last().created_at == final(self)@.last().updated_at)
                        &&& final(self)@.last().updated_at == later_spec(
                            final(self)@.last().created_at,
                            final(self)@.last().updated_at,
                        )
                    },
                    Err(_) => old(self).next_id_spec() == i64::MAX && final(self)@ == old(self)@
                        && final(self).next_id_spec() == old(self).next_id_spec(),
                }
            }),
    {
        let title = match file_stem {
            Some(t) => String::from_str(t),
            None => String::from_str("(untitled)"),
        };
        let hash = compute_hash(title.as_str(), content);
        let now = now_utc();
        let created = match modified {
            Some(m) => m,
            None => now,
        };
        let r = self.import_with_hash(title.as_str(), content, hash.as_str(), created, now);
        proof {
            if r is Ok && self@.len() == old(self)@.len() + 1 {
                assert(self@.drop_last() =~= old(self)@);
            }
        }
        r
    }

    /// Imports a batch of files one after the other, all stamped with `now`
    /// as their import time: each file goes through the rule of
    /// `import_file` against the notes that the files before it left.
    pub fn import_files_at(&mut self, files: &Vec<ImportCandidate>, now: Timestamp)
        -> (r: Result<(usize, usize, Vec<i64>), KiroError>)
        requires
            old(self).wf(),
            now.wf(),
            forall|i: int| 0 <= i < files.len() ==> (#[trigger] files@[i]).modified_ok(),
        ensures
            final(self).wf(),
            batch_done(old(self)@, old(self).next_id_spec(), files@, now, final(self)@, final(self).next_id_spec(), r),
    {
        let ghost start = ImportRun { notes: self@, next_id: self.next_id_spec(), imported: 0, skipped: 0, ids: seq![] };
        let mut imported: usize = 0;
        let mut skipped: usize = 0;
        let mut ids: Vec<i64> = Vec::new();
        let mut i: usize = 0;
        assert(files@.take(0) =~= Seq::<ImportCandidate>::empty());
        while i < files.len()
            invariant
                self.wf(),
                now.wf(),
                i <= files.len(),
                forall|j: int| 0 <= j < files.len() ==> (#[trigger] files@[j]).modified_ok(),
                start == (ImportRun { notes: old(self)@, next_id: old(self).next_id_spec(), imported: 0, skipped: 0, ids: seq![] }),
                ({
                    let st = import_run(start, files@.take(i as int), now);
                    &&& self@ == st.notes
                    &&& self.next_id_spec() == st.next_id
                    &&& imported == st.imported
                    &&& skipped == st.skipped
                    &&& ids@ == st.ids
                }),
                imported + skipped == i,
            decreases files.len() - i,
        {
            let ghost pre = files@.take(i as int);
            let ghost next = files@.take(i + 1);
            assert(next.drop_last() =~= pre);
            assert(next.last() == files@[i as int]);
            let ghost st = import_run(start, pre, now);
            assert(import_run(start, next, now) == import_step(st, files@[i as int], now));
            let f = &files[i];
            assert(f.modified_ok());
            match &f.content {
                None => {
                    skipped = skipped + 1;
                },
                Some(text) => {
                    let title = match &f.file_stem {
                        Some(t) => String::from_str(t.as_str()),
                        None => String::from_str("(untitled)"),
                    };
                    assert(title@ == candidate_title(*f));
                    let hash = compute_hash(title.as_str(), text.as_str());
                    let created = match f.modified {
                        Some(m) => m,
                        None => now,
                    };
                    assert(created == candidate_created(*f, now));
                    let ghost dup = duplicate_spec(self@, title@, text@, hash@);
                    match self.import_with_hash(title.as_str(), text.as_str(), hash.as_str(), created, now) {
                        Ok((true, Some(id))) => {
                            assert(!dup);
                            imported = imported + 1;
                            ids.push(id);
                            assert(ids@ == st.ids.push(st.next_id as i64));
                        },
                        _ => {
                            skipped = skipped + 1;
                            assert(dup || st.next_id == i64::MAX);
                        },
                    }
                },
            }
            i = i + 1;
        }
        assert(files@.take(files.len() as int) =~= files@);
        Ok((imported, skipped, ids))
    }

    /// Imports a batch of files one after the other, stamped with the
    /// current time: a file that could not be read, a duplicate of a stored
    /// note or of an earlier file of the batch, or one for which no id is
    /// left counts as skipped. Returns the counts of imported and skipped
    /// files and the new ids in order.
    pub fn import_files(&mut self, files: &Vec<ImportCandidate>) -> (r: Result<(usize, usize, Vec<i64>), KiroError>)
        requires
            old(self).wf(),
            forall|i: int| 0 <= i < files.len() ==> (#[trigger] files@[i]).modified_ok(),
        ensures
            final(self).wf(),
            exists|now: Timestamp| now.wf() && #[trigger] batch_done(old(self)@, old(self).next_id_spec(), files@, now,
                final(self)@, final(self).next_id_spec(), r),
    {
        let now = now_utc();
        let r = self.import_files_at(files, now);
        assert(batch_done(old(self)@, old(self).next_id_spec(), files@, now, self@, self.next_id_spec(), r));
        r
    }

    /// The files that exporting the notes `ids` writes: one per id that names
    /// a note, each id once, in order of first appearance.
    pub fn export_notes(&self, ids: &Vec<i64>) -> (r: Vec<ExportFile>)
        requires
            self.wf(),
        ensures
            exported_as(self@, export_ids(self@, ids@), r@),
    {
        let mut out: Vec<ExportFile> = Vec::new();
        let mut j: usize = 0;
        while j < ids.len()
            invariant
                self.wf(),
                j <= ids.len(),
                exported_as(self@, export_ids(self@, ids@.take(j as int)), out@),
            decreases ids.len() - j,
        {
            let ghost pre = ids@.take(j as int);
            let ghost next = ids@.take(j + 1);
            assert(next.drop_last() =~= pre);
            let id = ids[j];
            let mut seen = false;
            let mut m: usize = 0;
            while m < j
                invariant
                    m <= j < ids.len(),
                    seen == exists|x: int| 0 <= x < m && ids@[x] == id,
                decreases j - m,
            {
                if ids[m] == id {
                    seen = true;
                }
                m = m + 1;
            }
            assert(seen == pre.contains(id)) by {
                if seen {
                    let x = choose|x: int| 0 <= x < j && ids@[x] == id;
                    assert(pre[x] == id);
                }
            }
            let ghost old_out = out@;
            let ghost e_pre = export_ids(self@, pre);
            let ghost mut wit: int = 0;
            if seen {
                assert(export_ids(self@, next) == e_pre);
            } else {
                match self.find(id) {
                    Some(i) => {
                        assert(has_id(self@, id as int));
                        assert(export_ids(self@, next) == e_pre.push(id));
                        assert(self@[i as int] == self.notes@[i as int]@);
                        assert(self@[i as int].wf());
                        let f = export_file(&self.notes[i]);
                        proof { lemma_exported_push(self@, e_pre, out@, i as int, id, f); }
                        out.push(f);
                        assert(out@[out.len() - 1] == f);
                        assert(self@[i as int].id == export_ids(self@, next)[out.len() - 1]);
                        assert(is_file_of(self@, i as int, export_ids(self@, next)[out.len() - 1], out@[out.len() - 1]));
                        proof { wit = i as int; }
                    },
                    None => {
                        assert(export_ids(self@, next) == e_pre);
                    },
                }
            }
            assert(out@.len() == export_ids(self@, next).len());
            assert(exported_as(self@, export_ids(self@, next), out@));
            j = j + 1;
        }
        assert(ids@.take(ids.len() as int) =~= ids@);
        out
    }
}

} // verus!
