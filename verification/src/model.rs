//! The mathematical model of the history table: well-formedness, lookups,
//! and the value-level description of each store operation.

use vstd::prelude::*;
use crate::evict::{lemma_evict_keeps_pinned, spec_evict};
use crate::item::ItemModel;
use crate::order::{bytes_of, lex_le};

verus! {

/// Well-formedness of a table of items: every count is at least one, and no
/// two live items share a text or an id.
pub open spec fn wf_items(s: Seq<ItemModel>) -> bool {
    &&& forall|i: int| 0 <= i < s.len() ==> (#[trigger] s[i]).count >= 1
    &&& forall|i: int, j: int|
        0 <= i < s.len() && 0 <= j < s.len() && i != j ==> (#[trigger] s[i]).text != (
        #[trigger] s[j]).text
    &&& forall|i: int, j: int|
        0 <= i < s.len() && 0 <= j < s.len() && i != j ==> (#[trigger] s[i]).id != (
        #[trigger] s[j]).id
}

pub open spec fn has_text(s: Seq<ItemModel>, text: Seq<char>) -> bool {
    exists|i: int| 0 <= i < s.len() && (#[trigger] s[i]).text == text
}

pub open spec fn idx_of_text(s: Seq<ItemModel>, text: Seq<char>) -> int {
    choose|i: int| 0 <= i < s.len() && (#[trigger] s[i]).text == text
}

pub open spec fn has_id(s: Seq<ItemModel>, id: Seq<char>) -> bool {
    exists|i: int| 0 <= i < s.len() && (#[trigger] s[i]).id == id
}

pub open spec fn idx_of_id(s: Seq<ItemModel>, id: Seq<char>) -> int {
    choose|i: int| 0 <= i < s.len() && (#[trigger] s[i]).id == id
}

/// Is there an item other than the one at `excl` carrying `text`?
pub open spec fn has_other_text(s: Seq<ItemModel>, text: Seq<char>, excl: int) -> bool {
    exists|i: int| 0 <= i < s.len() && i != excl && (#[trigger] s[i]).text == text
}

pub open spec fn idx_of_other_text(s: Seq<ItemModel>, text: Seq<char>, excl: int) -> int {
    choose|i: int| 0 <= i < s.len() && i != excl && (#[trigger] s[i]).text == text
}

/// In a well-formed table the index carrying a given text is unique.
pub proof fn lemma_text_index(s: Seq<ItemModel>, i: int, text: Seq<char>)
    requires
        wf_items(s),
        0 <= i < s.len(),
        s[i].text == text,
    ensures
        has_text(s, text),
        idx_of_text(s, text) == i,
{
    assert(has_text(s, text));
    let j = idx_of_text(s, text);
    assert(0 <= j < s.len() && s[j].text == text);
    if i != j {
        assert(s[i].text != s[j].text);
    }
}

/// In a well-formed table the index carrying a given id is unique.
pub proof fn lemma_id_index(s: Seq<ItemModel>, i: int, id: Seq<char>)
    requires
        wf_items(s),
        0 <= i < s.len(),
        s[i].id == id,
    ensures
        has_id(s, id),
        idx_of_id(s, id) == i,
{
    assert(has_id(s, id));
    let j = idx_of_id(s, id);
    if i != j {
        assert(s[i].id != s[j].id);
    }
}

/// In a well-formed table at most one item besides `excl` carries `text`.
pub proof fn lemma_other_text_index(s: Seq<ItemModel>, i: int, text: Seq<char>, excl: int)
    requires
        wf_items(s),
        0 <= i < s.len(),
        i != excl,
        s[i].text == text,
    ensures
        has_other_text(s, text, excl),
        idx_of_other_text(s, text, excl) == i,
{
    assert(has_other_text(s, text, excl));
    let j = idx_of_other_text(s, text, excl);
    if i != j {
        assert(s[i].text != s[j].text);
    }
}

/// Removing an entry keeps a table well-formed.
pub proof fn lemma_wf_remove(s: Seq<ItemModel>, k: int)
    requires
        wf_items(s),
        0 <= k < s.len(),
    ensures
        wf_items(s.remove(k)),
{
    let r = s.remove(k);
    assert forall|i: int| 0 <= i < r.len() implies (#[trigger] r[i]).count >= 1 by {
        if i < k {
            assert(r[i] == s[i]);
        } else {
            assert(r[i] == s[i + 1]);
        }
    }
    assert forall|i: int, j: int|
        0 <= i < r.len() && 0 <= j < r.len() && i != j implies (#[trigger] r[i]).text != (
    #[trigger] r[j]).text && r[i].id != r[j].id by {
        let oi: int = if i < k { i } else { i + 1 };
        let oj: int = if j < k { j } else { j + 1 };
        assert(r[i] == s[oi]);
        assert(r[j] == s[oj]);
    }
}

/// How many live items are unpinned.
pub open spec fn unpinned_count(s: Seq<ItemModel>) -> int
    decreases s.len(),
{
    if s.len() == 0 {
        0
    } else {
        unpinned_count(s.drop_last()) + if s.last().pinned {
            0int
        } else {
            1int
        }
    }
}

pub proof fn lemma_unpinned_le_len(s: Seq<ItemModel>)
    ensures
        0 <= unpinned_count(s) <= s.len(),
    decreases s.len(),
{
    if s.len() > 0 {
        lemma_unpinned_le_len(s.drop_last());
    }
}

/// A count incremented by a re-capture; it sticks at the machine limit
/// rather than wrapping.
pub open spec fn inc_count(c: int) -> int {
    if c >= i64::MAX {
        c
    } else {
        c + 1
    }
}

/// A count produced by a merge: the sum of both counters, stuck at the
/// machine limit rather than wrapping.
pub open spec fn sat_add(a: int, b: int) -> int {
    if a + b > i64::MAX {
        i64::MAX as int
    } else {
        a + b
    }
}

/// The earlier of two timestamps, by byte-wise comparison.
pub open spec fn earlier(a: Seq<char>, b: Seq<char>) -> Seq<char> {
    if lex_le(bytes_of(a), bytes_of(b)) {
        a
    } else {
        b
    }
}

/// A brand-new item as first capture or first manual insert creates it.
pub open spec fn fresh_item(
    id: Seq<char>,
    text: Seq<char>,
    created_at: Seq<char>,
    updated_at: Seq<char>,
) -> ItemModel {
    ItemModel { id, text, created_at, updated_at, pinned: false, count: 1 }
}

/// An existing item refreshed by a re-capture of the same text: the counter
/// grows, the update stamp is replaced, everything else is preserved.
pub open spec fn touched(m: ItemModel, updated_at: Seq<char>) -> ItemModel {
    ItemModel { updated_at, count: inc_count(m.count), ..m }
}

/// The item that absorbs a merge: the target keeps its id and text, takes
/// the summed counter, the OR of the pins, and the earlier creation stamp.
pub open spec fn merged(src: ItemModel, tgt: ItemModel, updated_at: Seq<char>) -> ItemModel {
    ItemModel {
        id: tgt.id,
        text: tgt.text,
        created_at: earlier(src.created_at, tgt.created_at),
        updated_at,
        pinned: src.pinned || tgt.pinned,
        count: sat_add(src.count, tgt.count),
    }
}

/// An item renamed in place by an edit that collides with nothing.
pub open spec fn renamed(m: ItemModel, text: Seq<char>, updated_at: Seq<char>) -> ItemModel {
    ItemModel { text, updated_at, ..m }
}

/// An item with its pin flag replaced.
pub open spec fn pin_set(m: ItemModel, pinned: bool) -> ItemModel {
    ItemModel { pinned, ..m }
}

/// An update that keeps an entry's text and id keeps the table well-formed.
pub proof fn lemma_wf_update_like(s: Seq<ItemModel>, k: int, m: ItemModel)
    requires
        wf_items(s),
        0 <= k < s.len(),
        m.text == s[k].text,
        m.id == s[k].id,
        m.count >= 1,
    ensures
        wf_items(s.update(k, m)),
{
    let r = s.update(k, m);
    assert forall|i: int| 0 <= i < r.len() implies (#[trigger] r[i]).count >= 1 by {
        if i != k {
            assert(r[i] == s[i]);
        }
    }
    assert forall|i: int, j: int|
        0 <= i < r.len() && 0 <= j < r.len() && i != j implies (#[trigger] r[i]).text != (
    #[trigger] r[j]).text && r[i].id != r[j].id by {
        assert(r[i].text == s[i].text && r[i].id == s[i].id);
        assert(r[j].text == s[j].text && r[j].id == s[j].id);
    }
}

/// Renaming an entry to a text no other entry holds keeps the table
/// well-formed.
pub proof fn lemma_wf_rename(s: Seq<ItemModel>, k: int, m: ItemModel)
    requires
        wf_items(s),
        0 <= k < s.len(),
        m.id == s[k].id,
        m.count == s[k].count,
        !has_other_text(s, m.text, k),
    ensures
        wf_items(s.update(k, m)),
{
    let r = s.update(k, m);
    assert forall|i: int| 0 <= i < r.len() implies (#[trigger] r[i]).count >= 1 by {
        if i != k {
            assert(r[i] == s[i]);
        }
    }
    assert forall|i: int, j: int|
        0 <= i < r.len() && 0 <= j < r.len() && i != j implies (#[trigger] r[i]).text != (
    #[trigger] r[j]).text && r[i].id != r[j].id by {
        if i == k {
            if r[j].text == m.text {
                assert(0 <= j < s.len() && j != k && s[j].text == m.text);
            }
        } else if j == k {
            if r[i].text == m.text {
                assert(0 <= i < s.len() && i != k && s[i].text == m.text);
            }
        }
    }
}

/// Pushing an item whose text and id are fresh keeps the table well-formed.
pub proof fn lemma_wf_push_fresh(s: Seq<ItemModel>, m: ItemModel)
    requires
        wf_items(s),
        !has_text(s, m.text),
        !has_id(s, m.id),
        m.count >= 1,
    ensures
        wf_items(s.push(m)),
{
    let r = s.push(m);
    assert forall|i: int| 0 <= i < r.len() implies (#[trigger] r[i]).count >= 1 by {
        if i < s.len() {
            assert(r[i] == s[i]);
        } else {
            assert(r[i] == m);
        }
    }
    assert forall|i: int, j: int|
        0 <= i < r.len() && 0 <= j < r.len() && i != j implies (#[trigger] r[i]).text != (
    #[trigger] r[j]).text && r[i].id != r[j].id by {
        let n = s.len() as int;
        if i < n && j < n {
            assert(r[i] == s[i] && r[j] == s[j]);
        } else if i == n {
            assert(r[i] == m && r[j] == s[j]);
        } else {
            assert(r[j] == m && r[i] == s[i]);
        }
    }
}

/// In the refresh branch, every pinned id of the old table is still live.
pub proof fn lemma_touched_pinned_id(pre: Seq<ItemModel>, i: int, u: Seq<char>, j: int, max: int)
    requires
        0 <= i < pre.len(),
        0 <= j < pre.len(),
        pre[j].pinned,
    ensures
        has_id(spec_evict(pre.update(i, touched(pre[i], u)), max), pre[j].id),
{
    let mid = pre.update(i, touched(pre[i], u));
    lemma_evict_keeps_pinned(mid, max);
    assert(mid[j].pinned && mid[j].id == pre[j].id);
    assert(spec_evict(mid, max).contains(mid[j]));
    let k = choose|k: int| 0 <= k < spec_evict(mid, max).len() && spec_evict(mid, max)[k] == mid[j];
    assert(spec_evict(mid, max)[k].id == pre[j].id);
}

/// In the fresh-insert branch, every pinned id of the old table is still
/// live.
pub proof fn lemma_pushed_pinned_id(pre: Seq<ItemModel>, m: ItemModel, j: int, max: int)
    requires
        0 <= j < pre.len(),
        pre[j].pinned,
    ensures
        has_id(spec_evict(pre.push(m), max), pre[j].id),
{
    let mid = pre.push(m);
    lemma_evict_keeps_pinned(mid, max);
    assert(mid[j] == pre[j]);
    assert(spec_evict(mid, max).contains(mid[j]));
    let k = choose|k: int| 0 <= k < spec_evict(mid, max).len() && spec_evict(mid, max)[k] == mid[j];
    assert(spec_evict(mid, max)[k].id == pre[j].id);
}

/// When the table does not change, every pinned id trivially stays.
pub proof fn lemma_pinned_ids_stay(s: Seq<ItemModel>)
    ensures
        forall|j: int| 0 <= j < s.len() && (#[trigger] s[j]).pinned ==> has_id(s, s[j].id),
{
    assert forall|j: int| 0 <= j < s.len() && (#[trigger] s[j]).pinned implies has_id(
        s,
        s[j].id,
    ) by {
        assert(0 <= j < s.len() && s[j].id == s[j].id);
    }
}


} // verus!
