//! Capacity eviction: once the table holds more than the configured cap,
//! the unpinned items with the oldest update stamps are removed, one at a
//! time, until the cap is met or only pinned items remain. Pinned items are
//! never sacrificed, so the table may stay over the cap.

use vstd::prelude::*;
use crate::item::{models, HistoryItem, ItemModel};
use crate::model::{
    lemma_unpinned_le_len, lemma_wf_remove, unpinned_count,
    wf_items,
};
use crate::order::{
    bytes_of, lemma_lex_lt_asymmetric, lemma_lex_lt_transitive, lemma_lex_total, lex_lt, str_lt,
};

verus! {

/// The next item eviction removes: unpinned, with the byte-wise smallest
/// update stamp, the earliest-positioned one among equal stamps.
pub open spec fn is_victim(s: Seq<ItemModel>, i: int) -> bool {
    &&& 0 <= i < s.len()
    &&& !s[i].pinned
    &&& forall|j: int|
        0 <= j < s.len() && !(#[trigger] s[j]).pinned && j != i ==> lex_lt(
            bytes_of(s[i].updated_at),
            bytes_of(s[j].updated_at),
        ) || (bytes_of(s[i].updated_at) == bytes_of(s[j].updated_at) && i < j)
}

pub open spec fn victim_of(s: Seq<ItemModel>) -> int {
    choose|i: int| is_victim(s, i)
}

/// The table after eviction against the cap `max`. A cap of zero or less
/// disables eviction.
pub open spec fn spec_evict(s: Seq<ItemModel>, max: int) -> Seq<ItemModel>
    decreases s.len(),
{
    if max <= 0 || s.len() <= max {
        s
    } else if exists|i: int| is_victim(s, i) {
        spec_evict(s.remove(victim_of(s)), max)
    } else {
        s
    }
}

pub proof fn lemma_victim_unique(s: Seq<ItemModel>, i: int, j: int)
    requires
        is_victim(s, i),
        is_victim(s, j),
    ensures
        i == j,
{
    if i != j {
        let ui = bytes_of(s[i].updated_at);
        let uj = bytes_of(s[j].updated_at);
        if lex_lt(ui, uj) {
            lemma_lex_lt_asymmetric(ui, uj);
        } else if lex_lt(uj, ui) {
            lemma_lex_lt_asymmetric(uj, ui);
        }
    }
}

/// Whenever an unpinned item exists, a victim exists.
pub proof fn lemma_victim_exists(s: Seq<ItemModel>, w: int)
    requires
        0 <= w < s.len(),
        !s[w].pinned,
    ensures
        exists|i: int| is_victim(s, i),
    decreases s.len(),
{
    let n = s.len() as int;
    let p = s.drop_last();
    if s.last().pinned {
        lemma_victim_exists(p, w);
        let v = choose|i: int| is_victim(p, i);
        assert(is_victim(s, v)) by {
            assert forall|j: int|
                0 <= j < s.len() && !(#[trigger] s[j]).pinned && j != v implies lex_lt(
                bytes_of(s[v].updated_at),
                bytes_of(s[j].updated_at),
            ) || (bytes_of(s[v].updated_at) == bytes_of(s[j].updated_at) && v < j) by {
                if j < n - 1 {
                    assert(p[j] == s[j]);
                }
            }
        }
    } else {
        if exists|i: int| 0 <= i < p.len() && !(#[trigger] p[i]).pinned {
            let w2 = choose|i: int| 0 <= i < p.len() && !(#[trigger] p[i]).pinned;
            lemma_victim_exists(p, w2);
            let v = choose|i: int| is_victim(p, i);
            let uv = bytes_of(s[v].updated_at);
            let ul = bytes_of(s[n - 1].updated_at);
            lemma_lex_total(uv, ul);
            if lex_lt(uv, ul) || uv == ul {
                assert(is_victim(s, v)) by {
                    assert forall|j: int|
                        0 <= j < s.len() && !(#[trigger] s[j]).pinned && j != v implies lex_lt(
                        uv,
                        bytes_of(s[j].updated_at),
                    ) || (uv == bytes_of(s[j].updated_at) && v < j) by {
                        if j < n - 1 {
                            assert(p[j] == s[j]);
                        }
                    }
                }
            } else {
                assert(lex_lt(ul, uv));
                assert(is_victim(s, n - 1)) by {
                    assert forall|j: int|
                        0 <= j < s.len() && !(#[trigger] s[j]).pinned && j != n - 1 implies lex_lt(
                        ul,
                        bytes_of(s[j].updated_at),
                    ) || (ul == bytes_of(s[j].updated_at) && n - 1 < j) by {
                        assert(p[j] == s[j]);
                        let uj = bytes_of(s[j].updated_at);
                        if j == v {
                        } else {
                            assert(lex_lt(uv, uj) || (uv == uj && v < j));
                            if lex_lt(uv, uj) {
                                lemma_lex_lt_transitive(ul, uv, uj);
                            }
                        }
                    }
                }
            }
        } else {
            assert(is_victim(s, n - 1)) by {
                assert forall|j: int|
                    0 <= j < s.len() && !(#[trigger] s[j]).pinned && j != n - 1 implies false by {
                    assert(p[j] == s[j]);
                    assert(0 <= j < p.len() && !p[j].pinned);
                }
            }
        }
    }
}

/// One eviction step: removing the victim leaves the rest of the eviction.
pub proof fn lemma_evict_step(s: Seq<ItemModel>, max: int, v: int)
    requires
        max > 0,
        s.len() > max,
        is_victim(s, v),
    ensures
        spec_evict(s, max) == spec_evict(s.remove(v), max),
{
    lemma_victim_unique(s, v, victim_of(s));
}

/// Eviction never removes a pinned item.
pub proof fn lemma_evict_keeps_pinned(s: Seq<ItemModel>, max: int)
    ensures
        forall|j: int|
            0 <= j < s.len() && (#[trigger] s[j]).pinned ==> spec_evict(s, max).contains(s[j]),
    decreases s.len(),
{
    if max <= 0 || s.len() <= max {
        assert forall|j: int| 0 <= j < s.len() && (#[trigger] s[j]).pinned implies spec_evict(
            s,
            max,
        ).contains(s[j]) by {
            assert(spec_evict(s, max)[j] == s[j]);
        }
    } else if exists|i: int| is_victim(s, i) {
        let v = victim_of(s);
        let r = s.remove(v);
        lemma_evict_keeps_pinned(r, max);
        assert forall|j: int| 0 <= j < s.len() && (#[trigger] s[j]).pinned implies spec_evict(
            s,
            max,
        ).contains(s[j]) by {
            let rj: int = if j < v {
                j
            } else {
                j - 1
            };
            assert(j != v);
            assert(r[rj] == s[j]);
            assert(spec_evict(r, max).contains(r[rj]));
        }
    } else {
        assert forall|j: int| 0 <= j < s.len() && (#[trigger] s[j]).pinned implies spec_evict(
            s,
            max,
        ).contains(s[j]) by {
            assert(spec_evict(s, max)[j] == s[j]);
        }
    }
}

/// After eviction against a positive cap, the unpinned items never number
/// more than the cap.
pub proof fn lemma_evict_cap(s: Seq<ItemModel>, max: int)
    requires
        max > 0,
    ensures
        unpinned_count(spec_evict(s, max)) <= max,
    decreases s.len(),
{
    if s.len() <= max {
        lemma_unpinned_le_len(s);
    } else if exists|i: int| is_victim(s, i) {
        let v = victim_of(s);
        lemma_evict_cap(s.remove(v), max);
    } else {
        lemma_unpinned_le_len(s);
        if unpinned_count(s) > 0 {
            assert(exists|i: int| 0 <= i < s.len() && !(#[trigger] s[i]).pinned) by {
                if forall|i: int| 0 <= i < s.len() ==> (#[trigger] s[i]).pinned {
                    lemma_all_pinned_unpinned_zero(s);
                }
            }
            let w = choose|i: int| 0 <= i < s.len() && !(#[trigger] s[i]).pinned;
            lemma_victim_exists(s, w);
        }
    }
}

proof fn lemma_all_pinned_unpinned_zero(s: Seq<ItemModel>)
    requires
        forall|i: int| 0 <= i < s.len() ==> (#[trigger] s[i]).pinned,
    ensures
        unpinned_count(s) == 0,
    decreases s.len(),
{
    if s.len() > 0 {
        assert forall|i: int| 0 <= i < s.drop_last().len() implies (
        #[trigger] s.drop_last()[i]).pinned by {
            assert(s.drop_last()[i] == s[i]);
        }
        lemma_all_pinned_unpinned_zero(s.drop_last());
        assert(s.last() == s[s.len() - 1]);
    }
}

/// The best victim among the first `n` entries.
pub open spec fn is_victim_upto(s: Seq<ItemModel>, i: int, n: int) -> bool {
    &&& 0 <= i < n <= s.len()
    &&& !s[i].pinned
    &&& forall|j: int|
        0 <= j < n && !(#[trigger] s[j]).pinned && j != i ==> lex_lt(
            bytes_of(s[i].updated_at),
            bytes_of(s[j].updated_at),
        ) || (bytes_of(s[i].updated_at) == bytes_of(s[j].updated_at) && i < j)
}

/// Find the eviction victim, if any item is unpinned.
fn find_victim(items: &Vec<HistoryItem>) -> (r: Option<usize>)
    ensures
        match r {
            Some(v) => is_victim(models(items@), v as int),
            None => forall|j: int| 0 <= j < items@.len() ==> (#[trigger] models(items@)[j]).pinned,
        },
{
    let s = Ghost(models(items@));
    let mut best: Option<usize> = None;
    let mut i: usize = 0;
    while i < items.len()
        invariant
            s@ == models(items@),
            s@.len() == items@.len(),
            i <= items@.len(),
            match best {
                Some(b) => is_victim_upto(s@, b as int, i as int),
                None => forall|j: int| 0 <= j < i ==> (#[trigger] s@[j]).pinned,
            },
        decreases items@.len() - i,
    {
        proof {
            assert(s@[i as int] == items@[i as int]@);
        }
        if !items[i].pinned {
            match best {
                None => {
                    best = Some(i);
                },
                Some(b) => {
                    proof {
                        assert(s@[b as int] == items@[b as int]@);
                    }
                    let take = str_lt(
                        items[i].updated_at.as_str(),
                        items[b].updated_at.as_str(),
                    );
                    let ghost ui = bytes_of(s@[i as int].updated_at);
                    let ghost ub = bytes_of(s@[b as int].updated_at);
                    if take {
                        proof {
                            assert(lex_lt(ui, ub));
                            assert forall|j: int|
                                0 <= j < i + 1 && !(#[trigger] s@[j]).pinned && j != i implies
                                lex_lt(ui, bytes_of(s@[j].updated_at)) || (ui == bytes_of(
                                s@[j].updated_at,
                            ) && i < j) by {
                                let uj = bytes_of(s@[j].updated_at);
                                if j != b as int {
                                    if lex_lt(ub, uj) {
                                        lemma_lex_lt_transitive(ui, ub, uj);
                                    }
                                }
                            }
                        }
                        best = Some(i);
                    } else {
                        proof {
                            lemma_lex_total(ui, ub);
                            assert(lex_lt(ub, ui) || ub == ui);
                        }
                    }
                },
            }
        }
        i = i + 1;
    }
    best
}

/// Enforce the capacity cap by removing victims until it is met or only
/// pinned items remain.
pub(crate) fn evict_items(items: &mut Vec<HistoryItem>, max_items: i64)
    requires
        wf_items(models(old(items)@)),
    ensures
        wf_items(models(final(items)@)),
        models(final(items)@) == spec_evict(models(old(items)@), max_items as int),
{
    if max_items <= 0 {
        return ;
    }
    loop
        invariant
            max_items > 0,
            wf_items(models(items@)),
            spec_evict(models(items@), max_items as int) == spec_evict(
                models(old(items)@),
                max_items as int,
            ),
        ensures
            models(items@) == spec_evict(models(old(items)@), max_items as int),
        decreases items@.len(),
    {
        if items.len() as u64 <= max_items as u64 {
            proof {
                assert(models(items@).len() <= max_items as int);
            }
            break ;
        }
        match find_victim(items) {
            None => {
                proof {
                    let s = models(items@);
                    assert(!(exists|i: int| is_victim(s, i)));
                }
                break ;
            },
            Some(v) => {
                proof {
                    let s = models(items@);
                    assert(s.len() > max_items as int);
                    lemma_evict_step(s, max_items as int, v as int);
                    lemma_wf_remove(s, v as int);
                    crate::item::lemma_models_remove(items@, v as int);
                }
                items.remove(v);
            },
        }
    }
}

} // verus!
