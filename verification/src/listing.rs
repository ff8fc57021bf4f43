//! Listing order and a verified sort for it: pinned items first, then newer
//! update stamps, ties broken by id so that the listing is deterministic.

use vstd::prelude::*;
use vstd::multiset::Multiset;
use vstd::seq_lib::lemma_multiset_commutative;
use crate::item::{lemma_models_insert, lemma_models_push, models, HistoryItem, ItemModel};
use crate::order::{
    bytes_of, lemma_bytes_injective, lemma_lex_le_transitive, lemma_lex_lt_asymmetric,
    lemma_lex_lt_transitive, lemma_lex_total, lex_le, lex_lt, str_eq, str_le, str_lt,
};

verus! {

/// `a` comes no later than `b` in a listing.
pub open spec fn list_leq(a: ItemModel, b: ItemModel) -> bool {
    if a.pinned != b.pinned {
        a.pinned
    } else if bytes_of(a.updated_at) != bytes_of(b.updated_at) {
        lex_lt(bytes_of(b.updated_at), bytes_of(a.updated_at))
    } else {
        lex_le(bytes_of(a.id), bytes_of(b.id))
    }
}

/// Every pair of positions respects the listing order.
pub open spec fn listing_sorted(s: Seq<ItemModel>) -> bool {
    forall|i: int, j: int| 0 <= i < j < s.len() ==> #[trigger] list_leq(s[i], s[j])
}

pub proof fn lemma_list_leq_total(a: ItemModel, b: ItemModel)
    ensures
        list_leq(a, b) || list_leq(b, a),
{
    if a.pinned == b.pinned {
        lemma_lex_total(bytes_of(a.updated_at), bytes_of(b.updated_at));
        lemma_lex_total(bytes_of(a.id), bytes_of(b.id));
    }
}

pub proof fn lemma_list_leq_trans(a: ItemModel, b: ItemModel, c: ItemModel)
    requires
        list_leq(a, b),
        list_leq(b, c),
    ensures
        list_leq(a, c),
{
    if a.pinned == b.pinned && b.pinned == c.pinned {
        let ua = bytes_of(a.updated_at);
        let ub = bytes_of(b.updated_at);
        let uc = bytes_of(c.updated_at);
        if ua != ub && ub != uc {
            lemma_lex_lt_transitive(uc, ub, ua);
            lemma_lex_lt_asymmetric(uc, ua);
        } else if ua != ub && ub == uc {
            lemma_lex_lt_asymmetric(uc, ua);
        } else if ua == ub && ub != uc {
            lemma_lex_lt_asymmetric(uc, ua);
        } else {
            lemma_lex_le_transitive(bytes_of(a.id), bytes_of(b.id), bytes_of(c.id));
        }
    }
}

/// `m` inserted in front of the first entry it precedes or ties with.
pub open spec fn spec_insert_sorted(m: ItemModel, s: Seq<ItemModel>) -> Seq<ItemModel>
    decreases s.len(),
{
    if s.len() == 0 {
        seq![m]
    } else if list_leq(m, s[0]) {
        seq![m] + s
    } else {
        seq![s[0]] + spec_insert_sorted(m, s.drop_first())
    }
}

/// The listing permutation: every entry inserted, in table order, into an
/// initially empty sorted sequence.
pub open spec fn spec_sort_from(acc: Seq<ItemModel>, s: Seq<ItemModel>) -> Seq<ItemModel>
    decreases s.len(),
{
    if s.len() == 0 {
        acc
    } else {
        spec_sort_from(spec_insert_sorted(s[0], acc), s.drop_first())
    }
}

pub open spec fn spec_sort(s: Seq<ItemModel>) -> Seq<ItemModel> {
    spec_sort_from(Seq::empty(), s)
}

/// Inserting keeps a sequence sorted.
pub proof fn lemma_insert_sorted_sorted(m: ItemModel, s: Seq<ItemModel>)
    requires
        listing_sorted(s),
    ensures
        listing_sorted(spec_insert_sorted(m, s)),
    decreases s.len(),
{
    let r = spec_insert_sorted(m, s);
    if s.len() == 0 {
    } else if list_leq(m, s[0]) {
        assert forall|i: int, j: int| 0 <= i < j < r.len() implies #[trigger] list_leq(
            r[i],
            r[j],
        ) by {
            if i == 0 {
                assert(r[j] == s[j - 1]);
                if j > 1 {
                    assert(list_leq(s[0], s[j - 1]));
                    lemma_list_leq_trans(m, s[0], s[j - 1]);
                }
            } else {
                assert(r[i] == s[i - 1] && r[j] == s[j - 1]);
            }
        }
    } else {
        let d = s.drop_first();
        assert forall|i: int, j: int| 0 <= i < j < d.len() implies #[trigger] list_leq(
            d[i],
            d[j],
        ) by {
            assert(d[i] == s[i + 1] && d[j] == s[j + 1]);
            assert(list_leq(s[i + 1], s[j + 1]));
        }
        lemma_insert_sorted_sorted(m, d);
        let rd = spec_insert_sorted(m, d);
        lemma_list_leq_total(m, s[0]);
        lemma_insert_sorted_elems(m, d);
        assert forall|i: int, j: int| 0 <= i < j < r.len() implies #[trigger] list_leq(
            r[i],
            r[j],
        ) by {
            if i == 0 {
                assert(r[j] == rd[j - 1]);
                assert(rd.contains(rd[j - 1]));
                if rd[j - 1] == m {
                    assert(list_leq(s[0], m));
                } else {
                    assert(d.contains(rd[j - 1]));
                    let k = choose|k: int| 0 <= k < d.len() && d[k] == rd[j - 1];
                    assert(d[k] == s[k + 1]);
                    assert(list_leq(s[0], s[k + 1]));
                }
            } else {
                assert(r[i] == rd[i - 1] && r[j] == rd[j - 1]);
            }
        }
    }
}

/// Everything in an insertion result is the inserted entry or one of the
/// old entries.
pub proof fn lemma_insert_sorted_elems(m: ItemModel, s: Seq<ItemModel>)
    ensures
        forall|x: ItemModel|
            #[trigger] spec_insert_sorted(m, s).contains(x) ==> x == m || s.contains(x),
    decreases s.len(),
{
    let r = spec_insert_sorted(m, s);
    if s.len() == 0 {
        assert forall|x: ItemModel| #[trigger] r.contains(x) implies x == m || s.contains(x) by {
            let k = choose|k: int| 0 <= k < r.len() && r[k] == x;
        }
    } else if list_leq(m, s[0]) {
        assert forall|x: ItemModel| #[trigger] r.contains(x) implies x == m || s.contains(x) by {
            let k = choose|k: int| 0 <= k < r.len() && r[k] == x;
            if k > 0 {
                assert(s[k - 1] == x);
            }
        }
    } else {
        let d = s.drop_first();
        lemma_insert_sorted_elems(m, d);
        assert forall|x: ItemModel| #[trigger] r.contains(x) implies x == m || s.contains(x) by {
            let k = choose|k: int| 0 <= k < r.len() && r[k] == x;
            if k == 0 {
                assert(s[0] == x);
            } else {
                assert(spec_insert_sorted(m, d).contains(x));
                if x != m {
                    let k2 = choose|k2: int| 0 <= k2 < d.len() && d[k2] == x;
                    assert(s[k2 + 1] == x);
                }
            }
        }
    }
}

/// Insertion adds exactly the inserted entry to the contents.
pub proof fn lemma_insert_sorted_multiset(m: ItemModel, s: Seq<ItemModel>)
    ensures
        spec_insert_sorted(m, s).to_multiset() == s.to_multiset().insert(m),
    decreases s.len(),
{
    broadcast use vstd::seq_lib::group_to_multiset_ensures;

    if s.len() == 0 {
        assert(seq![m] =~= Seq::<ItemModel>::empty().push(m));
        assert(s.to_multiset().len() == 0);
        assert(s.to_multiset() =~= Multiset::<ItemModel>::empty());
        assert(Seq::<ItemModel>::empty().push(m).to_multiset() =~= Seq::<
            ItemModel,
        >::empty().to_multiset().insert(m));
    } else if list_leq(m, s[0]) {
        lemma_multiset_commutative(seq![m], s);
        assert(seq![m] =~= Seq::<ItemModel>::empty().push(m));
        assert(seq![m].to_multiset() =~= Multiset::<ItemModel>::empty().insert(m));
        assert((seq![m] + s).to_multiset() =~= s.to_multiset().insert(m));
    } else {
        let d = s.drop_first();
        lemma_insert_sorted_multiset(m, d);
        lemma_multiset_commutative(seq![s[0]], spec_insert_sorted(m, d));
        lemma_multiset_commutative(seq![s[0]], d);
        assert(seq![s[0]] + d =~= s);
        assert(spec_insert_sorted(m, s).to_multiset() =~= s.to_multiset().insert(m));
    }
}

/// Sorting preserves the contents exactly.
pub proof fn lemma_sort_from_multiset(acc: Seq<ItemModel>, s: Seq<ItemModel>)
    ensures
        spec_sort_from(acc, s).to_multiset() == acc.to_multiset().add(s.to_multiset()),
    decreases s.len(),
{
    broadcast use vstd::seq_lib::group_to_multiset_ensures;

    if s.len() == 0 {
        assert(s.to_multiset().len() == 0);
        assert(s.to_multiset() =~= Multiset::<ItemModel>::empty());
        assert(acc.to_multiset().add(s.to_multiset()) =~= acc.to_multiset());
    } else {
        let d = s.drop_first();
        lemma_insert_sorted_multiset(s[0], acc);
        lemma_sort_from_multiset(spec_insert_sorted(s[0], acc), d);
        lemma_multiset_commutative(seq![s[0]], d);
        assert(seq![s[0]] + d =~= s);
        assert(seq![s[0]] =~= Seq::<ItemModel>::empty().push(s[0]));
        assert(seq![s[0]].to_multiset() =~= Multiset::<ItemModel>::empty().insert(s[0]));
        assert(spec_sort_from(acc, s).to_multiset() =~= acc.to_multiset().add(s.to_multiset()));
    }
}

/// The listing holds exactly the live items.
pub proof fn lemma_sort_permutes(s: Seq<ItemModel>)
    ensures
        spec_sort(s).to_multiset() == s.to_multiset(),
        spec_sort(s).len() == s.len(),
{
    broadcast use vstd::seq_lib::group_to_multiset_ensures;

    lemma_sort_from_multiset(Seq::empty(), s);
    assert(Seq::<ItemModel>::empty().to_multiset().len() == 0);
    assert(Seq::<ItemModel>::empty().to_multiset() =~= Multiset::<ItemModel>::empty());
    assert(spec_sort(s).to_multiset() =~= s.to_multiset());
    assert(spec_sort(s).to_multiset().len() == spec_sort(s).len());
    assert(s.to_multiset().len() == s.len());
}

/// Sorting sorts.
pub proof fn lemma_sort_from_sorted(acc: Seq<ItemModel>, s: Seq<ItemModel>)
    requires
        listing_sorted(acc),
    ensures
        listing_sorted(spec_sort_from(acc, s)),
    decreases s.len(),
{
    if s.len() > 0 {
        lemma_insert_sorted_sorted(s[0], acc);
        lemma_sort_from_sorted(spec_insert_sorted(s[0], acc), s.drop_first());
    }
}

/// The listing respects the listing order everywhere: pinned items precede
/// unpinned ones, and within the same pin state newer update stamps come
/// first.
pub proof fn lemma_sort_sorted(s: Seq<ItemModel>)
    ensures
        listing_sorted(spec_sort(s)),
{
    lemma_sort_from_sorted(Seq::empty(), s);
}

/// Appending one entry to the input inserts it into the output.
proof fn lemma_sort_from_push(acc: Seq<ItemModel>, s: Seq<ItemModel>, x: ItemModel)
    ensures
        spec_sort_from(acc, s.push(x)) == spec_insert_sorted(x, spec_sort_from(acc, s)),
    decreases s.len(),
{
    if s.len() == 0 {
        assert(s.push(x)[0] == x);
        assert(s.push(x).drop_first() =~= s);
        assert(spec_sort_from(acc, s.push(x)) == spec_sort_from(spec_insert_sorted(x, acc), s));
        assert(spec_sort_from(spec_insert_sorted(x, acc), s) == spec_insert_sorted(x, acc));
        assert(spec_sort_from(acc, s) == acc);
    } else {
        assert(s.push(x)[0] == s[0]);
        assert(s.push(x).drop_first() =~= s.drop_first().push(x));
        lemma_sort_from_push(spec_insert_sorted(s[0], acc), s.drop_first(), x);
        assert(spec_sort_from(acc, s.push(x)) == spec_sort_from(
            spec_insert_sorted(s[0], acc),
            s.drop_first().push(x),
        ));
        assert(spec_sort_from(acc, s) == spec_sort_from(
            spec_insert_sorted(s[0], acc),
            s.drop_first(),
        ));
    }
}

/// Exec comparison in listing order.
fn item_leq(a: &HistoryItem, b: &HistoryItem) -> (r: bool)
    ensures
        r == list_leq(a@, b@),
{
    if a.pinned != b.pinned {
        a.pinned
    } else {
        let same_stamp = str_eq(a.updated_at.as_str(), b.updated_at.as_str());
        proof {
            if bytes_of(a.updated_at@) == bytes_of(b.updated_at@) {
                lemma_bytes_injective(a.updated_at@, b.updated_at@);
            }
        }
        if !same_stamp {
            str_lt(b.updated_at.as_str(), a.updated_at.as_str())
        } else {
            str_le(a.id.as_str(), b.id.as_str())
        }
    }
}

/// Insert a copy of an item into an already-sorted vector.
fn insert_sorted(out: &mut Vec<HistoryItem>, item: HistoryItem)
    ensures
        models(final(out)@) == spec_insert_sorted(item@, models(old(out)@)),
{
    let ghost s = models(out@);
    let mut k: usize = 0;
    proof {
        assert(s.skip(0) =~= s);
        assert(s.take(0) =~= Seq::<ItemModel>::empty());
    }
    loop
        invariant_except_break
            s == models(out@),
            s.len() == out@.len(),
            k <= out@.len(),
        invariant
            spec_insert_sorted(item@, s) == s.take(k as int) + spec_insert_sorted(
                item@,
                s.skip(k as int),
            ),
        ensures
            models(out@) == spec_insert_sorted(item@, s),
        decreases out@.len() - k,
    {
        if k == out.len() {
            proof {
                assert(s.skip(k as int).len() == 0);
                assert(spec_insert_sorted(item@, s.skip(k as int)) =~= seq![item@]);
                crate::item::lemma_models_push(out@, item);
                assert(s.take(k as int) + seq![item@] =~= s.push(item@));
            }
            out.push(item);
            break ;
        }
        proof {
            assert(s[k as int] == out@[k as int]@);
            assert(s.skip(k as int)[0] == s[k as int]);
        }
        if item_leq(&item, &out[k]) {
            proof {
                assert(spec_insert_sorted(item@, s.skip(k as int)) == seq![item@] + s.skip(
                    k as int,
                ));
                lemma_models_insert(out@, k as int, item);
                assert(s.take(k as int) + (seq![item@] + s.skip(k as int)) =~= s.insert(
                    k as int,
                    item@,
                ));
            }
            out.insert(k, item);
            break ;
        }
        proof {
            assert(spec_insert_sorted(item@, s.skip(k as int)) == seq![s[k as int]]
                + spec_insert_sorted(item@, s.skip(k as int).drop_first()));
            assert(s.skip(k as int).drop_first() =~= s.skip(k as int + 1));
            assert(s.take(k as int) + (seq![s[k as int]] + spec_insert_sorted(
                item@,
                s.skip(k as int + 1),
            )) =~= s.take(k as int + 1) + spec_insert_sorted(item@, s.skip(k as int + 1)));
        }
        k = k + 1;
    }
}

/// A copy of the items in listing order.
pub(crate) fn sorted_clone(items: &Vec<HistoryItem>) -> (r: Vec<HistoryItem>)
    ensures
        models(r@) == spec_sort(models(items@)),
{
    let ghost s = models(items@);
    let mut out: Vec<HistoryItem> = Vec::new();
    let mut i: usize = 0;
    proof {
        assert(models(out@) =~= Seq::<ItemModel>::empty());
        assert(s.take(0) =~= Seq::<ItemModel>::empty());
    }
    while i < items.len()
        invariant
            s == models(items@),
            s.len() == items@.len(),
            i <= items@.len(),
            models(out@) == spec_sort(s.take(i as int)),
        decreases items@.len() - i,
    {
        proof {
            assert(s[i as int] == items@[i as int]@);
            assert(s.take(i as int).push(s[i as int]) =~= s.take(i as int + 1));
            lemma_sort_from_push(Seq::empty(), s.take(i as int), s[i as int]);
        }
        let copy = items[i].clone();
        insert_sorted(&mut out, copy);
        i = i + 1;
    }
    proof {
        assert(s.take(s.len() as int) =~= s);
    }
    out
}

} // verus!
