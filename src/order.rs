//! Picking the greatest entries, in descending order of a (time, id) key.

use vstd::prelude::*;

verus! {

/// Strict order on keys: by time, then by id.
pub open spec fn key_lt(a: (i128, i64), b: (i128, i64)) -> bool {
    a.0 < b.0 || (a.0 == b.0 && a.1 < b.1)
}

/// Every key is distinct from every other one.
pub open spec fn distinct_keys(keys: Seq<(i128, i64)>) -> bool {
    forall|i: int, j: int| 0 <= i < keys.len() && 0 <= j < keys.len() && i != j ==> keys[i] != keys[j]
}

/// Whether `i` is one of `sel[..k]`.
pub open spec fn picked_before(sel: Seq<usize>, k: int, i: int) -> bool {
    exists|j: int| 0 <= j < k && sel[j] == i
}

/// `sel` lists, greatest first, the `limit` greatest keys among the entries
/// that `mask` admits (all of them when fewer are admitted).
pub open spec fn select_post(keys: Seq<(i128, i64)>, mask: Seq<bool>, limit: nat, sel: Seq<usize>) -> bool {
    &&& sel.len() <= limit
    &&& forall|k: int| 0 <= k < sel.len() ==> #[trigger] sel[k] < keys.len() && mask[sel[k] as int]
    &&& forall|k: int| 0 <= k < sel.len() - 1 ==> key_lt(keys[sel[k + 1] as int], keys[#[trigger] sel[k] as int])
    &&& forall|i: int, k: int|
        0 <= i < keys.len() && 0 <= k < sel.len() && mask[i] && #[trigger] key_lt(keys[sel[k] as int], keys[i])
            ==> picked_before(sel, k, i)
    &&& sel.len() < limit ==> forall|i: int| 0 <= i < keys.len() && #[trigger] mask[i] ==> picked_before(sel, sel.len() as int, i)
}

/// Picked keys strictly decrease along the whole selection, not only
/// between neighbours.
pub proof fn lemma_select_chain(keys: Seq<(i128, i64)>, mask: Seq<bool>, limit: nat, sel: Seq<usize>, j: int, k: int)
    requires
        select_post(keys, mask, limit, sel),
        0 <= j < k < sel.len(),
    ensures
        key_lt(keys[sel[k] as int], keys[sel[j] as int]),
    decreases k - j,
{
    assert(key_lt(keys[sel[k] as int], keys[sel[k - 1] as int]));
    if k - 1 > j {
        lemma_select_chain(keys, mask, limit, sel, j, k - 1);
    }
}

/// The positions that `mask` admits.
pub open spec fn admitted(mask: Seq<bool>) -> Set<int> {
    Set::new(|i: int| 0 <= i < mask.len() && mask[i])
}

/// The selection holds `limit` entries, or every admitted one when fewer
/// are admitted.
pub proof fn lemma_select_len(keys: Seq<(i128, i64)>, mask: Seq<bool>, limit: nat, sel: Seq<usize>)
    requires
        select_post(keys, mask, limit, sel),
        keys.len() == mask.len(),
    ensures
        admitted(mask).finite(),
        sel.len() == if limit < admitted(mask).len() { limit } else { admitted(mask).len() },
{
    let m = admitted(mask);
    let all = vstd::set_lib::set_int_range(0, mask.len() as int);
    vstd::set_lib::lemma_int_range(0, mask.len() as int);
    assert(m.subset_of(all));
    vstd::set_lib::lemma_len_subset(m, all);
    let si = sel.map_values(|x: usize| x as int);
    assert(si.no_duplicates()) by {
        assert forall|a: int, b: int| 0 <= a < si.len() && 0 <= b < si.len() && a != b implies si[a] != si[b] by {
            if a < b {
                lemma_select_chain(keys, mask, limit, sel, a, b);
            } else {
                lemma_select_chain(keys, mask, limit, sel, b, a);
            }
        }
    }
    si.unique_seq_to_set();
    let st = si.to_set();
    assert(st.subset_of(m)) by {
        assert forall|x: int| st.contains(x) implies m.contains(x) by {
            let k = choose|k: int| 0 <= k < si.len() && si[k] == x;
            assert(sel[k] < keys.len() && mask[sel[k] as int]);
        }
    }
    vstd::set_lib::lemma_len_subset(st, m);
    if sel.len() < limit {
        assert(m.subset_of(st)) by {
            assert forall|x: int| m.contains(x) implies st.contains(x) by {
                assert(mask[x]);
                assert(picked_before(sel, sel.len() as int, x));
                let j = choose|j: int| 0 <= j < sel.len() && sel[j] == x;
                assert(si[j] == x);
            }
        }
        vstd::set_lib::lemma_len_subset(m, st);
    }
}

fn lt(a: (i128, i64), b: (i128, i64)) -> (r: bool)
    ensures
        r == key_lt(a, b),
{
    a.0 < b.0 || (a.0 == b.0 && a.1 < b.1)
}

/// The indices of the `limit` greatest admitted keys, greatest first.
pub fn select_greatest(keys: &Vec<(i128, i64)>, mask: &Vec<bool>, limit: usize) -> (sel: Vec<usize>)
    requires
        keys.len() == mask.len(),
        distinct_keys(keys@),
    ensures
        select_post(keys@, mask@, limit as nat, sel@),
{
    let n = keys.len();
    let mut sel: Vec<usize> = Vec::new();
    while sel.len() < limit
        invariant
            n == keys.len() == mask.len(),
            distinct_keys(keys@),
            sel.len() <= limit,
            forall|k: int| 0 <= k < sel.len() ==> #[trigger] sel@[k] < n && mask@[sel@[k] as int],
            forall|k: int| 0 <= k < sel.len() - 1 ==> key_lt(keys@[sel@[k + 1] as int], keys@[#[trigger] sel@[k] as int]),
            forall|i: int, k: int|
                0 <= i < n && 0 <= k < sel.len() && mask@[i] && #[trigger] key_lt(keys@[sel@[k] as int], keys@[i])
                    ==> picked_before(sel@, k, i),
        decreases limit - sel.len(),
    {
        let has_bound = sel.len() > 0;
        let bound = if has_bound {
            keys[sel[sel.len() - 1]]
        } else {
            (0, 0)
        };
        let mut best: Option<usize> = None;
        let mut i: usize = 0;
        while i < n
            invariant
                n == keys.len() == mask.len(),
                i <= n,
                has_bound == (sel.len() > 0),
                has_bound ==> bound == keys@[sel@[sel.len() - 1] as int],
                match best {
                    Some(b) => b < i && mask@[b as int] && (!has_bound || key_lt(keys@[b as int], bound))
                        && forall|j: int| 0 <= j < i && mask@[j] && (!has_bound || key_lt(keys@[j], bound))
                            ==> !key_lt(keys@[b as int], keys@[j]),
                    None => forall|j: int| 0 <= j < i ==> !(mask@[j] && (!has_bound || key_lt(keys@[j], bound))),
                },
            decreases n - i,
        {
            if mask[i] && (!has_bound || lt(keys[i], bound)) {
                match best {
                    Some(b) => {
                        if lt(keys[b], keys[i]) {
                            best = Some(i);
                        }
                    },
                    None => {
                        best = Some(i);
                    },
                }
            }
            i = i + 1;
        }
        match best {
            None => {
                proof {
                    if has_bound {
                        let last = sel.len() - 1;
                        assert forall|i: int| 0 <= i < n && #[trigger] mask@[i] implies picked_before(sel@, sel.len() as int, i) by {
                            if keys@[i] == bound {
                                assert(sel@[last] == i);
                            } else {
                                assert(key_lt(keys@[sel@[last] as int], keys@[i]));
                                assert(picked_before(sel@, last, i));
                                let j = choose|j: int| 0 <= j < last && sel@[j] == i;
                                assert(0 <= j < sel.len() && sel@[j] == i);
                            }
                        }
                    }
                }
                return sel;
            },
            Some(b) => {
                let ghost old_sel = sel@;
                sel.push(b);
                proof {
                    assert forall|i: int, k: int|
                        0 <= i < n && 0 <= k < sel.len() && mask@[i] && #[trigger] key_lt(keys@[sel@[k] as int], keys@[i])
                            implies picked_before(sel@, k, i) by {
                        if k < old_sel.len() {
                            assert(sel@[k] == old_sel[k]);
                            assert(picked_before(old_sel, k, i));
                            let j = choose|j: int| 0 <= j < k && old_sel[j] == i;
                            assert(sel@[j] == i);
                        } else {
                            assert(sel@[k] == b);
                            let last = old_sel.len() - 1;
                            if has_bound && !key_lt(keys@[i], bound) {
                                if keys@[i] == bound {
                                    assert(old_sel[last] == i);
                                    assert(sel@[last] == i);
                                } else {
                                    assert(key_lt(keys@[old_sel[last] as int], keys@[i]));
                                    assert(picked_before(old_sel, last, i));
                                    let j = choose|j: int| 0 <= j < last && old_sel[j] == i;
                                    assert(sel@[j] == i);
                                }
                            }
                        }
                    }
                }
            },
        }
    }
    sel
}

} // verus!
