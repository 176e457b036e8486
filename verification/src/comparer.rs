//! Keyed comparison of two record sets.
//!
//! Each set is indexed by `tx_id` (the last record under a key wins, as
//! when the sets are poured into a map) and the comparison reports, per
//! key: present in both but unequal, present only in the first set, or
//! present only in the second.  An empty report means the sets are
//! identical under their key maps.

use std::collections::HashMap;

use vstd::prelude::*;

use crate::{recs_view, RecordV, TransactionRecord};

verus! {

broadcast use vstd::std_specs::hash::group_hash_axioms;

/// One finding of the comparison.  Indices point into the two record
/// sequences that were compared.
#[derive(Clone, Copy, Debug, PartialEq, Eq, Structural)]
pub enum DiffEntry {
    /// The key is present in both sets with unequal records.
    Changed { tx_id: u64, left: usize, right: usize },
    /// The key is present only in the first set.
    OnlyInFirst { tx_id: u64, index: usize },
    /// The key is present only in the second set.
    OnlyInSecond { tx_id: u64, index: usize },
}

/// The key an entry reports on.
pub open spec fn entry_id(e: DiffEntry) -> u64 {
    match e {
        DiffEntry::Changed { tx_id, .. } => tx_id,
        DiffEntry::OnlyInFirst { tx_id, .. } => tx_id,
        DiffEntry::OnlyInSecond { tx_id, .. } => tx_id,
    }
}

/// Whether some record of the sequence carries the key.
pub open spec fn has_id(s: Seq<RecordV>, id: u64) -> bool {
    exists|i: int| 0 <= i < s.len() && (#[trigger] s[i]).tx_id == id
}

/// The position of the last record carrying the key, or `-1` if none does.
pub open spec fn last_idx(s: Seq<RecordV>, id: u64) -> int
    decreases s.len(),
{
    if s.len() == 0 {
        -1
    } else if s.last().tx_id == id {
        s.len() - 1
    } else {
        last_idx(s.drop_last(), id)
    }
}

/// What the last-index function yields: a valid position carrying the key,
/// after which the key never recurs, or `-1` where the key is absent.
pub proof fn lemma_last_idx(s: Seq<RecordV>, id: u64)
    ensures
        has_id(s, id) ==> 0 <= last_idx(s, id) < s.len() && s[last_idx(s, id)].tx_id == id,
        !has_id(s, id) ==> last_idx(s, id) == -1,
        forall|j: int| last_idx(s, id) < j < s.len() ==> (#[trigger] s[j]).tx_id != id,
    decreases s.len(),
{
    if s.len() > 0 {
        lemma_last_idx(s.drop_last(), id);
        if s.last().tx_id == id {
        } else {
            assert forall|i: int| 0 <= i < s.len() && (#[trigger] s[i]).tx_id == id implies has_id(
                s.drop_last(),
                id,
            ) by {
                assert(s.drop_last()[i] == s[i]);
            }
            assert forall|j: int| last_idx(s, id) < j < s.len() implies (#[trigger] s[j]).tx_id
                != id by {
                if j < s.len() - 1 {
                    assert(s.drop_last()[j] == s[j]);
                }
            }
        }
    }
}

/// Whether an entry correctly reports one key of the two sequences.
pub open spec fn entry_ok(first: Seq<RecordV>, second: Seq<RecordV>, e: DiffEntry) -> bool {
    match e {
        DiffEntry::Changed { tx_id, left, right } => has_id(first, tx_id) && has_id(second, tx_id)
            && left == last_idx(first, tx_id) && right == last_idx(second, tx_id) && first[
            left as int] != second[right as int],
        DiffEntry::OnlyInFirst { tx_id, index } => has_id(first, tx_id) && !has_id(second, tx_id)
            && index == last_idx(first, tx_id),
        DiffEntry::OnlyInSecond { tx_id, index } => has_id(second, tx_id) && !has_id(first, tx_id)
            && index == last_idx(second, tx_id),
    }
}

/// Builds the key index of a record slice: each key maps to the position
/// of the last record that carries it.
fn build_index(records: &Vec<TransactionRecord>) -> (m: HashMap<u64, usize>)
    ensures
        forall|id: u64| m@.contains_key(id) <==> has_id(recs_view(records@), id),
        forall|id: u64| m@.contains_key(id) ==> m@[id] == last_idx(recs_view(records@), id),
{
    let ghost all = recs_view(records@);
    let mut m: HashMap<u64, usize> = HashMap::new();
    let n = records.len();
    let mut i: usize = 0;
    proof {
        assert(all.subrange(0, 0) =~= Seq::<RecordV>::empty());
    }
    while i < n
        invariant
            n == records.len(),
            n == all.len(),
            all == recs_view(records@),
            i <= n,
            forall|id: u64| m@.contains_key(id) <==> has_id(all.subrange(0, i as int), id),
            forall|id: u64|
                m@.contains_key(id) ==> m@[id] == last_idx(all.subrange(0, i as int), id),
        decreases n - i,
    {
        let id = records[i].tx_id;
        let ghost pre = all.subrange(0, i as int);
        let ghost post = all.subrange(0, i as int + 1);
        proof {
            assert(post.drop_last() =~= pre);
            assert(all[i as int] == records@[i as int]@);
            assert(post.last() == all[i as int]);
            assert(post.last().tx_id == id);
            assert(has_id(post, id)) by {
                assert(post[post.len() - 1].tx_id == id);
            }
            assert forall|other: u64| other != id implies (has_id(post, other) <==> has_id(
                pre,
                other,
            )) by {
                if has_id(post, other) {
                    let w = choose|w: int| 0 <= w < post.len() && (#[trigger] post[w]).tx_id
                        == other;
                    assert(pre[w] == post[w]);
                }
                if has_id(pre, other) {
                    let w = choose|w: int| 0 <= w < pre.len() && (#[trigger] pre[w]).tx_id
                        == other;
                    assert(post[w] == pre[w]);
                }
            }
        }
        m.insert(id, i);
        i += 1;
    }
    proof {
        assert(all.subrange(0, n as int) =~= all);
    }
    m
}

/// Compares two record sets keyed by `tx_id`.
///
/// The report holds exactly one entry per key on which the sets disagree:
/// a key held by both whose last records differ, or a key held by only
/// one set.  Indices name the records compared.  An empty report means no
/// key disagrees.
pub fn compare_records(first: &Vec<TransactionRecord>, second: &Vec<TransactionRecord>) -> (diffs:
    Vec<DiffEntry>)
    ensures
        forall|k: int|
            0 <= k < diffs@.len() ==> entry_ok(
                recs_view(first@),
                recs_view(second@),
                #[trigger] diffs@[k],
            ),
        forall|k1: int, k2: int|
            0 <= k1 < k2 < diffs@.len() ==> entry_id(diffs@[k1]) != entry_id(diffs@[k2]),
        forall|id: u64|
            #![trigger last_idx(recs_view(first@), id)]
            has_id(recs_view(first@), id) && has_id(recs_view(second@), id) && recs_view(first@)[
                last_idx(recs_view(first@), id)] != recs_view(second@)[last_idx(
                recs_view(second@),
                id,
            )] ==> diffs@.contains(
                DiffEntry::Changed {
                    tx_id: id,
                    left: last_idx(recs_view(first@), id) as usize,
                    right: last_idx(recs_view(second@), id) as usize,
                },
            ),
        forall|id: u64|
            #![trigger last_idx(recs_view(first@), id)]
            has_id(recs_view(first@), id) && !has_id(recs_view(second@), id) ==> diffs@.contains(
                DiffEntry::OnlyInFirst { tx_id: id, index: last_idx(recs_view(first@), id) as usize },
            ),
        forall|id: u64|
            #![trigger last_idx(recs_view(second@), id)]
            has_id(recs_view(second@), id) && !has_id(recs_view(first@), id) ==> diffs@.contains(
                DiffEntry::OnlyInSecond {
                    tx_id: id,
                    index: last_idx(recs_view(second@), id) as usize,
                },
            ),
{
    let ghost fv = recs_view(first@);
    let ghost sv = recs_view(second@);
    let map_a = build_index(first);
    let map_b = build_index(second);
    let mut diffs: Vec<DiffEntry> = Vec::new();
    let n = first.len();
    let mut i: usize = 0;
    while i < n
        invariant
            n == first.len(),
            fv == recs_view(first@),
            sv == recs_view(second@),
            fv.len() == n,
            sv.len() == second.len(),
            i <= n,
            forall|id: u64| map_a@.contains_key(id) <==> has_id(fv, id),
            forall|id: u64| map_a@.contains_key(id) ==> map_a@[id] == last_idx(fv, id),
            forall|id: u64| map_b@.contains_key(id) <==> has_id(sv, id),
            forall|id: u64| map_b@.contains_key(id) ==> map_b@[id] == last_idx(sv, id),
            forall|k: int| 0 <= k < diffs@.len() ==> entry_ok(fv, sv, #[trigger] diffs@[k]),
            forall|k: int| 0 <= k < diffs@.len() ==> !(#[trigger] diffs@[k] is OnlyInSecond),
            forall|k: int|
                0 <= k < diffs@.len() ==> 0 <= last_idx(fv, entry_id(#[trigger] diffs@[k])) < i,
            forall|k1: int, k2: int|
                0 <= k1 < k2 < diffs@.len() ==> entry_id(diffs@[k1]) != entry_id(diffs@[k2]),
            forall|id: u64|
                #![trigger last_idx(fv, id)]
                has_id(fv, id) && has_id(sv, id) && 0 <= last_idx(fv, id) < i && fv[last_idx(
                    fv,
                    id,
                )] != sv[last_idx(sv, id)] ==> diffs@.contains(
                    DiffEntry::Changed {
                        tx_id: id,
                        left: last_idx(fv, id) as usize,
                        right: last_idx(sv, id) as usize,
                    },
                ),
            forall|id: u64|
                #![trigger last_idx(fv, id)]
                has_id(fv, id) && !has_id(sv, id) && 0 <= last_idx(fv, id) < i ==> diffs@.contains(
                    DiffEntry::OnlyInFirst { tx_id: id, index: last_idx(fv, id) as usize },
                ),
        decreases n - i,
    {
        let id = first[i].tx_id;
        proof {
            assert(fv[i as int] == first@[i as int]@);
            assert(has_id(fv, id)) by {
                assert(fv[i as int].tx_id == id);
            }
            lemma_last_idx(fv, id);
            lemma_last_idx(sv, id);
        }
        let last = *map_a.get(&id).unwrap();
        let ghost old_diffs = diffs@;
        if last == i {
            match map_b.get(&id) {
                Some(j_ref) => {
                    let j = *j_ref;
                    if !(first[i] == second[j]) {
                        proof {
                            assert(first@[i as int]@ == fv[i as int]);
                            assert(second@[j as int]@ == sv[j as int]);
                        }
                        diffs.push(DiffEntry::Changed { tx_id: id, left: i, right: j });
                    } else {
                        proof {
                            assert(first@[i as int]@ == fv[i as int]);
                            assert(second@[j as int]@ == sv[j as int]);
                        }
                    }
                },
                None => {
                    diffs.push(DiffEntry::OnlyInFirst { tx_id: id, index: i });
                },
            }
        }
        proof {
            assert(forall|k: int|
                0 <= k < old_diffs.len() ==> diffs@[k] == #[trigger] old_diffs[k]);
            assert forall|e: DiffEntry| old_diffs.contains(e) implies diffs@.contains(e) by {
                let w = choose|w: int| 0 <= w < old_diffs.len() && old_diffs[w] == e;
                assert(diffs@[w] == e);
            }
            assert forall|idx: u64|
                has_id(fv, idx) && has_id(sv, idx) && last_idx(fv, idx) < i + 1 && fv[last_idx(
                    fv,
                    idx,
                )] != sv[last_idx(sv, idx)] implies diffs@.contains(
                DiffEntry::Changed {
                    tx_id: idx,
                    left: last_idx(fv, idx) as usize,
                    right: last_idx(sv, idx) as usize,
                },
            ) by {
                lemma_last_idx(fv, idx);
                if last_idx(fv, idx) < i {
                    assert(old_diffs.contains(
                        DiffEntry::Changed {
                            tx_id: idx,
                            left: last_idx(fv, idx) as usize,
                            right: last_idx(sv, idx) as usize,
                        },
                    ));
                } else {
                    assert(fv[i as int].tx_id == idx);
                    assert(idx == id);
                    assert(diffs@[diffs@.len() - 1] == DiffEntry::Changed {
                        tx_id: id,
                        left: i,
                        right: last_idx(sv, id) as usize,
                    });
                }
            }
            assert forall|idx: u64|
                has_id(fv, idx) && !has_id(sv, idx) && last_idx(fv, idx) < i + 1 implies diffs@.contains(
                DiffEntry::OnlyInFirst { tx_id: idx, index: last_idx(fv, idx) as usize },
            ) by {
                lemma_last_idx(fv, idx);
                if last_idx(fv, idx) < i {
                    assert(old_diffs.contains(
                        DiffEntry::OnlyInFirst { tx_id: idx, index: last_idx(fv, idx) as usize },
                    ));
                } else {
                    assert(fv[i as int].tx_id == idx);
                    assert(idx == id);
                    assert(diffs@[diffs@.len() - 1] == DiffEntry::OnlyInFirst {
                        tx_id: id,
                        index: i,
                    });
                }
            }
            assert forall|k1: int, k2: int| 0 <= k1 < k2 < diffs@.len() implies entry_id(
                diffs@[k1],
            ) != entry_id(diffs@[k2]) by {
                if k2 < old_diffs.len() {
                } else {
                    assert(diffs@[k1] == old_diffs[k1]);
                }
            }
        }
        i += 1;
    }
    proof {
        assert forall|id: u64|
            has_id(fv, id) && has_id(sv, id) && fv[last_idx(fv, id)] != sv[last_idx(sv, id)]
            implies diffs@.contains(
            DiffEntry::Changed {
                tx_id: id,
                left: last_idx(fv, id) as usize,
                right: last_idx(sv, id) as usize,
            },
        ) by {
            lemma_last_idx(fv, id);
        }
        assert forall|id: u64| has_id(fv, id) && !has_id(sv, id) implies diffs@.contains(
            DiffEntry::OnlyInFirst { tx_id: id, index: last_idx(fv, id) as usize },
        ) by {
            lemma_last_idx(fv, id);
        }
    }
    let m = second.len();
    let mut j: usize = 0;
    while j < m
        invariant
            m == second.len(),
            fv == recs_view(first@),
            sv == recs_view(second@),
            fv.len() == first.len(),
            sv.len() == m,
            j <= m,
            forall|id: u64| map_a@.contains_key(id) <==> has_id(fv, id),
            forall|id: u64| map_a@.contains_key(id) ==> map_a@[id] == last_idx(fv, id),
            forall|id: u64| map_b@.contains_key(id) <==> has_id(sv, id),
            forall|id: u64| map_b@.contains_key(id) ==> map_b@[id] == last_idx(sv, id),
            forall|k: int| 0 <= k < diffs@.len() ==> entry_ok(fv, sv, #[trigger] diffs@[k]),
            forall|k: int|
                0 <= k < diffs@.len() ==> ((#[trigger] diffs@[k]) is OnlyInSecond ==> 0 <= last_idx(
                    sv,
                    entry_id(diffs@[k]),
                ) < j),
            forall|id: u64|
                #![trigger last_idx(fv, id)]
                has_id(fv, id) && has_id(sv, id) && fv[last_idx(fv, id)] != sv[last_idx(sv, id)]
                    ==> diffs@.contains(
                    DiffEntry::Changed {
                        tx_id: id,
                        left: last_idx(fv, id) as usize,
                        right: last_idx(sv, id) as usize,
                    },
                ),
            forall|id: u64|
                #![trigger last_idx(fv, id)]
                has_id(fv, id) && !has_id(sv, id) ==> diffs@.contains(
                    DiffEntry::OnlyInFirst { tx_id: id, index: last_idx(fv, id) as usize },
                ),
            forall|id: u64|
                #![trigger last_idx(sv, id)]
                has_id(sv, id) && !has_id(fv, id) && 0 <= last_idx(sv, id) < j ==> diffs@.contains(
                    DiffEntry::OnlyInSecond { tx_id: id, index: last_idx(sv, id) as usize },
                ),
            forall|k1: int, k2: int|
                0 <= k1 < k2 < diffs@.len() ==> entry_id(diffs@[k1]) != entry_id(diffs@[k2]),
        decreases m - j,
    {
        let id = second[j].tx_id;
        proof {
            assert(sv[j as int] == second@[j as int]@);
            assert(has_id(sv, id)) by {
                assert(sv[j as int].tx_id == id);
            }
            lemma_last_idx(sv, id);
        }
        let last = *map_b.get(&id).unwrap();
        let ghost old_diffs = diffs@;
        if last == j {
            if !map_a.contains_key(&id) {
                diffs.push(DiffEntry::OnlyInSecond { tx_id: id, index: j });
            }
        }
        proof {
            assert(forall|k: int|
                0 <= k < old_diffs.len() ==> diffs@[k] == #[trigger] old_diffs[k]);
            assert forall|e: DiffEntry| old_diffs.contains(e) implies diffs@.contains(e) by {
                let w = choose|w: int| 0 <= w < old_diffs.len() && old_diffs[w] == e;
                assert(diffs@[w] == e);
            }
            assert forall|idx: u64|
                has_id(sv, idx) && !has_id(fv, idx) && last_idx(sv, idx) < j + 1 implies diffs@.contains(
                DiffEntry::OnlyInSecond { tx_id: idx, index: last_idx(sv, idx) as usize },
            ) by {
                lemma_last_idx(sv, idx);
                if last_idx(sv, idx) < j {
                    assert(old_diffs.contains(
                        DiffEntry::OnlyInSecond { tx_id: idx, index: last_idx(sv, idx) as usize },
                    ));
                } else {
                    assert(sv[j as int].tx_id == idx);
                    assert(idx == id);
                    assert(diffs@[diffs@.len() - 1] == DiffEntry::OnlyInSecond {
                        tx_id: id,
                        index: j,
                    });
                }
            }
            assert forall|k1: int, k2: int| 0 <= k1 < k2 < diffs@.len() implies entry_id(
                diffs@[k1],
            ) != entry_id(diffs@[k2]) by {
                if k2 < old_diffs.len() {
                } else {
                    assert(diffs@[k1] == old_diffs[k1]);
                    assert(entry_ok(fv, sv, diffs@[k1]));
                }
            }
        }
        j += 1;
    }
    proof {
        assert forall|id: u64| has_id(sv, id) && !has_id(fv, id) implies diffs@.contains(
            DiffEntry::OnlyInSecond { tx_id: id, index: last_idx(sv, id) as usize },
        ) by {
            lemma_last_idx(sv, id);
        }
    }
    diffs
}

} // verus!
