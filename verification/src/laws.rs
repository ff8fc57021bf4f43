//! System-wide laws, stated over the value-level transition functions and
//! proved once and for all.

use vstd::prelude::*;
use crate::evict::{lemma_evict_cap, spec_evict};
use crate::item::ItemModel;
use crate::model::{
    fresh_item, has_id, has_text, idx_of_text, lemma_pinned_ids_stay, lemma_pushed_pinned_id,
    lemma_text_index, lemma_touched_pinned_id, lemma_wf_push_fresh, lemma_wf_update_like, merged,
    touched, unpinned_count, wf_items,
};
use crate::order::{bytes_of, lemma_bytes_injective, lemma_lex_total, lex_le};
use crate::store::spec_upsert_items;
use crate::textops::trim_of;
use crate::watcher::{spec_mark_skip, spec_tick_state, spec_tick_writes, CaptureModel};

verus! {

/// Capturing the same text twice, starting from a table that does not hold
/// it and whose cap has room, leaves exactly one item carrying that text:
/// the one created by the first capture, now counted twice.
pub proof fn lemma_capture_twice_counts_two(
    s: Seq<ItemModel>,
    text: Seq<char>,
    id1: Seq<char>,
    c1: Seq<char>,
    u1: Seq<char>,
    id2: Seq<char>,
    c2: Seq<char>,
    u2: Seq<char>,
    max: int,
)
    requires
        wf_items(s),
        trim_of(text).len() > 0,
        !has_text(s, text),
        !has_id(s, id1),
        max <= 0 || s.len() < max,
    ensures
        ({
            let s1 = spec_upsert_items(s, text, id1, c1, u1, max);
            let s2 = spec_upsert_items(s1, text, id2, c2, u2, max);
            &&& has_text(s2, text)
            &&& s2[idx_of_text(s2, text)].count == 2
            &&& s2[idx_of_text(s2, text)].id == id1
            &&& forall|j: int|
                0 <= j < s2.len() && (#[trigger] s2[j]).text == text ==> j == idx_of_text(s2, text)
        }),
{
    let n = s.len() as int;
    let f = fresh_item(id1, text, c1, u1);
    let mid1 = s.push(f);
    lemma_wf_push_fresh(s, f);
    assert(spec_evict(mid1, max) == mid1);
    let s1 = spec_upsert_items(s, text, id1, c1, u1, max);
    assert(s1 == mid1);
    assert(s1[n].text == text);
    lemma_text_index(s1, n, text);
    let t = touched(s1[n], u2);
    assert(t.count == 2);
    let mid2 = s1.update(n, t);
    lemma_wf_update_like(s1, n, t);
    assert(spec_evict(mid2, max) == mid2);
    let s2 = spec_upsert_items(s1, text, id2, c2, u2, max);
    assert(s2 == mid2);
    assert(s2[n].text == text && s2[n].count == 2 && s2[n].id == id1);
    lemma_text_index(s2, n, text);
    assert forall|j: int|
        0 <= j < s2.len() && (#[trigger] s2[j]).text == text implies j == idx_of_text(
        s2,
        text,
    ) by {
        if j != n {
            assert(s2[j].text != s2[n].text);
        }
    }
}

/// However many captures run against a positive cap, each one either leaves
/// the table untouched (a refused capture) or leaves at most `max` unpinned
/// items; so along any capture sequence from an empty table the unpinned
/// count never exceeds the cap.
pub proof fn lemma_capture_respects_cap(
    s: Seq<ItemModel>,
    text: Seq<char>,
    cand: Seq<char>,
    c: Seq<char>,
    u: Seq<char>,
    max: int,
)
    requires
        max > 0,
    ensures
        ({
            let post = spec_upsert_items(s, text, cand, c, u, max);
            unpinned_count(post) <= max || post == s
        }),
{
    if trim_of(text).len() == 0 {
    } else if has_text(s, text) {
        lemma_evict_cap(s.update(idx_of_text(s, text), touched(s[idx_of_text(s, text)], u)), max);
    } else if has_id(s, cand) {
    } else {
        lemma_evict_cap(s.push(fresh_item(cand, text, c, u)), max);
    }
}

/// A capture never evicts a pinned item: every pinned id that was live
/// before is still live after, whatever the cap.
pub proof fn lemma_capture_never_evicts_pinned(
    s: Seq<ItemModel>,
    text: Seq<char>,
    cand: Seq<char>,
    c: Seq<char>,
    u: Seq<char>,
    max: int,
)
    ensures
        forall|j: int|
            0 <= j < s.len() && (#[trigger] s[j]).pinned ==> has_id(
                spec_upsert_items(s, text, cand, c, u, max),
                s[j].id,
            ),
{
    let post = spec_upsert_items(s, text, cand, c, u, max);
    if trim_of(text).len() == 0 || (!has_text(s, text) && has_id(s, cand)) {
        lemma_pinned_ids_stay(s);
    } else if has_text(s, text) {
        assert forall|j: int| 0 <= j < s.len() && (#[trigger] s[j]).pinned implies has_id(
            post,
            s[j].id,
        ) by {
            lemma_touched_pinned_id(s, idx_of_text(s, text), u, j, max);
        }
    } else {
        assert forall|j: int| 0 <= j < s.len() && (#[trigger] s[j]).pinned implies has_id(
            post,
            s[j].id,
        ) by {
            lemma_pushed_pinned_id(s, fresh_item(cand, text, c, u), j, max);
        }
    }
}

/// Merge is commutative in its two items: the summed counter, the OR of the
/// pins, and the earlier creation stamp do not depend on which of the two
/// items existed first. When the counters' sum fits in the machine word, the
/// merged counter is exactly that sum.
pub proof fn lemma_merge_commutes(a: ItemModel, b: ItemModel, u: Seq<char>)
    ensures
        merged(a, b, u).count == merged(b, a, u).count,
        merged(a, b, u).pinned == merged(b, a, u).pinned,
        merged(a, b, u).created_at == merged(b, a, u).created_at,
        merged(a, b, u).updated_at == merged(b, a, u).updated_at,
        a.count + b.count <= i64::MAX ==> merged(a, b, u).count == a.count + b.count,
{
    let ba = bytes_of(a.created_at);
    let bb = bytes_of(b.created_at);
    lemma_lex_total(ba, bb);
    if lex_le(ba, bb) && lex_le(bb, ba) {
        if ba != bb {
            crate::order::lemma_lex_lt_asymmetric(ba, bb);
        }
        lemma_bytes_injective(a.created_at, b.created_at);
    }
}

/// Announcing a text through `mark_clipboard_skip` suppresses the very next
/// tick that observes it — the echo protocol — and a tick after that,
/// observing the same unchanged text, still writes nothing.
pub proof fn lemma_skip_suppresses_capture(
    w: CaptureModel,
    text: Seq<char>,
    ok1: bool,
    ok2: bool,
)
    requires
        trim_of(text).len() > 0,
    ensures
        ({
            let w1 = spec_mark_skip(w, text);
            let w2 = spec_tick_state(w1, Some(text), ok1);
            &&& !spec_tick_writes(w1, Some(text))
            &&& !spec_tick_writes(w2, Some(text))
            &&& spec_tick_state(w2, Some(text), ok2) == w2
        }),
{
}

/// A failed read of the external source is transient: the tick writes
/// nothing and leaves the capture state exactly as it was, so the next tick
/// behaves as if the failure had never happened.
pub proof fn lemma_read_failure_transient(w: CaptureModel, ok: bool)
    ensures
        !spec_tick_writes(w, None),
        spec_tick_state(w, None, ok) == w,
{
}

} // verus!
