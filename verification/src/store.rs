//! The history store: a table of deduplicated text snippets plus a small
//! key-value table of settings. Every operation is one atomic transition;
//! the value-level effect of each is given by a `spec_*` transition function.

use vstd::prelude::*;
use crate::evict::{evict_items, lemma_evict_cap, spec_evict};
use crate::item::{
    lemma_models_push, lemma_models_remove, lemma_models_update, models, opt_str_view,
    ClipboardUpdateResult, ClipboardUpsertPayload, HistoryItem, ItemModel, StoreError,
};
use crate::model::{
    earlier, fresh_item, has_id, has_other_text, has_text, idx_of_id, idx_of_other_text,
    idx_of_text, inc_count, lemma_id_index, lemma_other_text_index, lemma_pinned_ids_stay,
    lemma_pushed_pinned_id, lemma_text_index, lemma_touched_pinned_id,
    lemma_wf_push_fresh, lemma_wf_remove, lemma_wf_rename, lemma_wf_update_like, merged, pin_set,
    renamed, sat_add, touched, unpinned_count, wf_items,
};
use crate::order::str_le;
use crate::textops::{trim_in, trim_of};

verus! {

/// The database key under which the window-opening shortcut is stored.
pub const OPEN_WINDOW_SHORTCUT_KEY: &'static str = "open_window_shortcut";

/// One stored configuration entry: an opaque key mapped to a string value.
pub struct AppSetting {
    pub key: String,
    pub value: String,
}

/// The values of a sequence of settings.
pub open spec fn setting_models(v: Seq<AppSetting>) -> Seq<(Seq<char>, Seq<char>)> {
    v.map_values(|x: AppSetting| (x.key@, x.value@))
}

/// No two settings share a key.
pub open spec fn wf_settings(s: Seq<(Seq<char>, Seq<char>)>) -> bool {
    forall|i: int, j: int|
        0 <= i < s.len() && 0 <= j < s.len() && i != j ==> (#[trigger] s[i]).0 != (
        #[trigger] s[j]).0
}

pub open spec fn has_key(s: Seq<(Seq<char>, Seq<char>)>, key: Seq<char>) -> bool {
    exists|i: int| 0 <= i < s.len() && (#[trigger] s[i]).0 == key
}

pub open spec fn idx_of_key(s: Seq<(Seq<char>, Seq<char>)>, key: Seq<char>) -> int {
    choose|i: int| 0 <= i < s.len() && (#[trigger] s[i]).0 == key
}

/// The value stored under `key`, if any.
pub open spec fn setting_lookup(s: Seq<(Seq<char>, Seq<char>)>, key: Seq<char>) -> Option<
    Seq<char>,
> {
    if has_key(s, key) {
        Some(s[idx_of_key(s, key)].1)
    } else {
        None
    }
}

/// The settings table after writing `value` under `key`; an absent value
/// deletes the entry.
pub open spec fn spec_set_setting(
    s: Seq<(Seq<char>, Seq<char>)>,
    key: Seq<char>,
    value: Option<Seq<char>>,
) -> Seq<(Seq<char>, Seq<char>)> {
    match value {
        Some(v) => if has_key(s, key) {
            s.update(idx_of_key(s, key), (key, v))
        } else {
            s.push((key, v))
        },
        None => if has_key(s, key) {
            s.remove(idx_of_key(s, key))
        } else {
            s
        },
    }
}

/// The table after an insert-or-merge-on-capture. Empty trimmed text changes
/// nothing; a known text bumps that item's counter and update stamp and then
/// evicts; a fresh text is inserted under the candidate id (refused if that
/// id is already live) and then evicted against the cap.
pub open spec fn spec_upsert_items(
    s: Seq<ItemModel>,
    text: Seq<char>,
    cand_id: Seq<char>,
    created: Seq<char>,
    updated: Seq<char>,
    max: int,
) -> Seq<ItemModel> {
    if trim_of(text).len() == 0 {
        s
    } else if has_text(s, text) {
        spec_evict(s.update(idx_of_text(s, text), touched(s[idx_of_text(s, text)], updated)), max)
    } else if has_id(s, cand_id) {
        s
    } else {
        spec_evict(s.push(fresh_item(cand_id, text, created, updated)), max)
    }
}

/// The id of the item a capture touches: the existing holder of the text, or
/// else the candidate id.
pub open spec fn spec_upsert_target(
    s: Seq<ItemModel>,
    text: Seq<char>,
    cand_id: Seq<char>,
) -> Seq<char> {
    if has_text(s, text) {
        s[idx_of_text(s, text)].id
    } else {
        cand_id
    }
}

/// The table after an edit. Empty trimmed text or an unknown id changes
/// nothing; a collision with another item merges the edited item into it;
/// otherwise the edited item is renamed in place.
pub open spec fn spec_edit_items(
    s: Seq<ItemModel>,
    id: Seq<char>,
    text: Seq<char>,
    updated: Seq<char>,
) -> Seq<ItemModel> {
    let tr = trim_of(text);
    if tr.len() == 0 || !has_id(s, id) {
        s
    } else {
        let si = idx_of_id(s, id);
        if has_other_text(s, tr, si) {
            let ti = idx_of_other_text(s, tr, si);
            s.update(ti, merged(s[si], s[ti], updated)).remove(si)
        } else {
            s.update(si, renamed(s[si], tr, updated))
        }
    }
}

/// A requested listing limit, clamped to the supported window.
pub open spec fn clamp_limit(limit: int) -> int {
    if limit < 0 {
        0
    } else if limit > 500 {
        500
    } else {
        limit
    }
}

/// What a listing returns: the table in listing order, cut to the clamped
/// limit.
pub open spec fn spec_listing(s: Seq<ItemModel>, limit: int) -> Seq<ItemModel> {
    let srt = crate::listing::spec_sort(s);
    let n = clamp_limit(limit);
    if n <= srt.len() {
        srt.take(n)
    } else {
        srt
    }
}

/// The table after a pin toggle: nothing changes for an unknown id.
pub open spec fn spec_set_pinned(s: Seq<ItemModel>, id: Seq<char>, pinned: bool) -> Seq<
    ItemModel,
> {
    if has_id(s, id) {
        s.update(idx_of_id(s, id), pin_set(s[idx_of_id(s, id)], pinned))
    } else {
        s
    }
}

/// The table after a delete: nothing changes for an unknown id.
pub open spec fn spec_delete(s: Seq<ItemModel>, id: Seq<char>) -> Seq<ItemModel> {
    if has_id(s, id) {
        s.remove(idx_of_id(s, id))
    } else {
        s
    }
}

/// The transactional store. All mutation of live history routes through the
/// methods here, so the uniqueness and counter invariants hold at every
/// operation boundary.
pub struct HistoryStore {
    items: Vec<HistoryItem>,
    settings: Vec<AppSetting>,
}

impl HistoryStore {
    /// The values of the live items, in insertion order.
    pub closed spec fn items_model(&self) -> Seq<ItemModel> {
        models(self.items@)
    }

    /// The values of the stored settings.
    pub closed spec fn settings_model(&self) -> Seq<(Seq<char>, Seq<char>)> {
        setting_models(self.settings@)
    }

    /// The store's invariant: counters at least one, unique texts, unique
    /// ids, unique setting keys.
    pub open spec fn inv(&self) -> bool {
        &&& wf_items(self.items_model())
        &&& wf_settings(self.settings_model())
    }

    /// An empty store.
    pub fn new() -> (s: Self)
        ensures
            s.inv(),
            s.items_model() == Seq::<ItemModel>::empty(),
            s.settings_model() == Seq::<(Seq<char>, Seq<char>)>::empty(),
    {
        let s = HistoryStore { items: Vec::new(), settings: Vec::new() };
        proof {
            assert(s.items_model() =~= Seq::<ItemModel>::empty());
            assert(s.settings_model() =~= Seq::<(Seq<char>, Seq<char>)>::empty());
        }
        s
    }

    /// Rebuild a store from persisted rows. Refused (`None`) when the rows
    /// violate the store's invariant: a counter below one, two rows sharing
    /// a text or an id, or two settings sharing a key.
    pub fn from_rows(items: Vec<HistoryItem>, settings: Vec<AppSetting>) -> (r: Option<
        HistoryStore,
    >)
        ensures
            match r {
                Some(s) => s.inv() && s.items_model() == models(items@) && s.settings_model()
                    == setting_models(settings@),
                None => !(wf_items(models(items@)) && wf_settings(setting_models(settings@))),
            },
    {
        let ghost s = models(items@);
        let ghost t = setting_models(settings@);
        let mut i: usize = 0;
        while i < items.len()
            invariant
                s == models(items@),
                t == setting_models(settings@),
                i <= items@.len(),
                forall|k: int| 0 <= k < i ==> (#[trigger] s[k]).count >= 1,
                forall|j: int, k: int|
                    0 <= j < k < i ==> (#[trigger] s[j]).text != (#[trigger] s[k]).text && s[j].id
                        != s[k].id,
            decreases items@.len() - i,
        {
            proof {
                assert(s[i as int] == items@[i as int]@);
            }
            if items[i].count < 1 {
                return None;
            }
            let mut j: usize = 0;
            while j < i
                invariant
                    s == models(items@),
                    i < items@.len(),
                    j <= i,
                    forall|k: int|
                        0 <= k < j ==> (#[trigger] s[k]).text != s[i as int].text && s[k].id != s[
                            i as int
                        ].id,
                decreases i - j,
            {
                proof {
                    assert(s[j as int] == items@[j as int]@);
                    assert(s[i as int] == items@[i as int]@);
                }
                if items[j].text == items[i].text || items[j].id == items[i].id {
                    return None;
                }
                j = j + 1;
            }
            i = i + 1;
        }
        let mut i: usize = 0;
        while i < settings.len()
            invariant
                t == setting_models(settings@),
                i <= settings@.len(),
                forall|j: int, k: int| 0 <= j < k < i ==> (#[trigger] t[j]).0 != (#[trigger] t[k]).0,
            decreases settings@.len() - i,
        {
            let mut j: usize = 0;
            while j < i
                invariant
                    t == setting_models(settings@),
                    i < settings@.len(),
                    j <= i,
                    forall|k: int| 0 <= k < j ==> (#[trigger] t[k]).0 != t[i as int].0,
                decreases i - j,
            {
                proof {
                    assert(t[j as int] == (settings@[j as int].key@, settings@[j as int].value@));
                    assert(t[i as int] == (settings@[i as int].key@, settings@[i as int].value@));
                }
                if crate::order::str_eq(settings[j].key.as_str(), settings[i].key.as_str()) {
                    return None;
                }
                j = j + 1;
            }
            i = i + 1;
        }
        proof {
            assert forall|j: int, k: int|
                0 <= j < s.len() && 0 <= k < s.len() && j != k implies (#[trigger] s[j]).text != (
            #[trigger] s[k]).text && s[j].id != s[k].id by {
                if j < k {
                } else {
                    assert(s[k].text != s[j].text && s[k].id != s[j].id);
                }
            }
            assert forall|j: int, k: int|
                0 <= j < t.len() && 0 <= k < t.len() && j != k implies (#[trigger] t[j]).0 != (
            #[trigger] t[k]).0 by {
                if j < k {
                } else {
                    assert(t[k].0 != t[j].0);
                }
            }
        }
        Some(HistoryStore { items, settings })
    }

    /// A copy of every live item, in insertion order, for persistence.
    pub fn all_items(&self) -> (r: Vec<HistoryItem>)
        ensures
            models(r@) == self.items_model(),
    {
        let ghost s = models(self.items@);
        let mut out: Vec<HistoryItem> = Vec::new();
        let mut i: usize = 0;
        proof {
            assert(models(out@) =~= s.take(0));
        }
        while i < self.items.len()
            invariant
                s == models(self.items@),
                i <= self.items@.len(),
                models(out@) == s.take(i as int),
            decreases self.items@.len() - i,
        {
            proof {
                assert(s[i as int] == self.items@[i as int]@);
                lemma_models_push(out@, self.items@[i as int]);
                assert(s.take(i as int).push(s[i as int]) =~= s.take(i as int + 1));
            }
            let copy = self.items[i].clone();
            out.push(copy);
            i = i + 1;
        }
        proof {
            assert(s.take(s.len() as int) =~= s);
        }
        out
    }

    /// A copy of every stored setting, for persistence.
    pub fn all_settings(&self) -> (r: Vec<AppSetting>)
        ensures
            setting_models(r@) == self.settings_model(),
    {
        let ghost t = setting_models(self.settings@);
        let mut out: Vec<AppSetting> = Vec::new();
        let mut i: usize = 0;
        proof {
            assert(setting_models(out@) =~= t.take(0));
        }
        while i < self.settings.len()
            invariant
                t == setting_models(self.settings@),
                i <= self.settings@.len(),
                setting_models(out@) == t.take(i as int),
            decreases self.settings@.len() - i,
        {
            proof {
                assert(t[i as int] == (
                    self.settings@[i as int].key@,
                    self.settings@[i as int].value@,
                ));
            }
            let copy = AppSetting {
                key: self.settings[i].key.clone(),
                value: self.settings[i].value.clone(),
            };
            proof {
                lemma_setting_models_push(out@, copy);
                assert(t.take(i as int).push(t[i as int]) =~= t.take(i as int + 1));
            }
            out.push(copy);
            i = i + 1;
        }
        proof {
            assert(t.take(t.len() as int) =~= t);
        }
        out
    }

    /// Insert a capture or manual insert: merge into the existing holder of
    /// the same text, or create a fresh item, then enforce the cap.
    /// A positive cap bounds the unpinned survivors, and no pinned item is
    /// ever evicted.
    pub fn upsert_clipboard_item(&mut self, item: ClipboardUpsertPayload, max_items: i64) -> (r:
        Result<HistoryItem, StoreError>)
        requires
            old(self).inv(),
        ensures
            final(self).inv(),
            final(self).settings_model() == old(self).settings_model(),
            final(self).items_model() == spec_upsert_items(
                old(self).items_model(),
                item.text@,
                item.id@,
                item.created_at@,
                item.updated_at@,
                max_items as int,
            ),
            max_items > 0 ==> unpinned_count(final(self).items_model()) <= max_items as int
                || final(self).items_model() == old(self).items_model(),
            forall|j: int|
                0 <= j < old(self).items_model().len() && (
                #[trigger] old(self).items_model()[j]).pinned ==> has_id(
                    final(self).items_model(),
                    old(self).items_model()[j].id,
                ),
            ({
                let pre = old(self).items_model();
                let post = final(self).items_model();
                if trim_of(item.text@).len() == 0 {
                    r == Err::<HistoryItem, StoreError>(StoreError::EmptyText)
                } else if !has_text(pre, item.text@) && has_id(pre, item.id@) {
                    r == Err::<HistoryItem, StoreError>(StoreError::IdConflict)
                } else {
                    let tid = spec_upsert_target(pre, item.text@, item.id@);
                    if has_id(post, tid) {
                        r matches Ok(it) && it@ == post[idx_of_id(post, tid)]
                    } else {
                        r == Err::<HistoryItem, StoreError>(StoreError::NotFound)
                    }
                }
            }),
    {
        let ghost pre = models(self.items@);
        let trimmed = trim_in(item.text.as_str());
        if trimmed.as_str().is_empty() {
            proof {
                lemma_pinned_ids_stay(pre);
            }
            return Err(StoreError::EmptyText);
        }
        match find_by_text(&self.items, &item.text) {
            Some(i) => {
                proof {
                    lemma_text_index(pre, i as int, item.text@);
                }
                let target_id = self.items[i].id.clone();
                let old_count = self.items[i].count;
                let new_count: i64 = if old_count == i64::MAX {
                    old_count
                } else {
                    old_count + 1
                };
                let refreshed = HistoryItem {
                    id: self.items[i].id.clone(),
                    text: self.items[i].text.clone(),
                    created_at: self.items[i].created_at.clone(),
                    updated_at: item.updated_at.clone(),
                    pinned: self.items[i].pinned,
                    count: new_count,
                };
                proof {
                    assert(refreshed@ == touched(pre[i as int], item.updated_at@));
                    lemma_models_update(self.items@, i as int, refreshed);
                    lemma_wf_update_like(pre, i as int, touched(pre[i as int], item.updated_at@));
                }
                let ghost mid = pre.update(i as int, touched(pre[i as int], item.updated_at@));
                self.items[i] = refreshed;
                proof {
                    assert(models(self.items@) == mid);
                }
                evict_items(&mut self.items, max_items);
                proof {
                    if max_items > 0 {
                        lemma_evict_cap(mid, max_items as int);
                    }
                    assert forall|j: int|
                        0 <= j < pre.len() && (#[trigger] pre[j]).pinned implies has_id(
                        models(self.items@),
                        pre[j].id,
                    ) by {
                        lemma_touched_pinned_id(pre, i as int, item.updated_at@, j, max_items as int);
                    }
                }
                fetch_by_id(&self.items, &target_id)
            },
            None => {
                match find_by_id(&self.items, &item.id) {
                    Some(_) => {
                        proof {
                            lemma_pinned_ids_stay(pre);
                        }
                        Err(StoreError::IdConflict)
                    },
                    None => {
                        let target_id = item.id.clone();
                        let fresh = HistoryItem {
                            id: item.id,
                            text: item.text,
                            created_at: item.created_at,
                            updated_at: item.updated_at,
                            pinned: false,
                            count: 1,
                        };
                        let ghost mid = pre.push(fresh@);
                        proof {
                            lemma_models_push(self.items@, fresh);
                            lemma_wf_push_fresh(pre, fresh@);
                        }
                        self.items.push(fresh);
                        proof {
                            assert(models(self.items@) == mid);
                        }
                        evict_items(&mut self.items, max_items);
                        proof {
                            if max_items > 0 {
                                lemma_evict_cap(mid, max_items as int);
                            }
                            assert forall|j: int|
                                0 <= j < pre.len() && (#[trigger] pre[j]).pinned implies has_id(
                                models(self.items@),
                                pre[j].id,
                            ) by {
                                lemma_pushed_pinned_id(pre, mid[pre.len() as int], j, max_items as int);
                            }
                        }
                        fetch_by_id(&self.items, &target_id)
                    },
                }
            },
        }
    }

    /// Edit an item's text. A collision with another live item merges the
    /// edited item into it: counters are summed, pins are OR-ed, the earlier
    /// creation stamp survives, and the edited row is deleted.
    pub fn update_clipboard_item_text(&mut self, id: String, text: String, updated_at: String)
        -> (r: Result<ClipboardUpdateResult, StoreError>)
        requires
            old(self).inv(),
        ensures
            final(self).inv(),
            final(self).settings_model() == old(self).settings_model(),
            final(self).items_model() == spec_edit_items(
                old(self).items_model(),
                id@,
                text@,
                updated_at@,
            ),
            ({
                let pre = old(self).items_model();
                let tr = trim_of(text@);
                if tr.len() == 0 {
                    r == Err::<ClipboardUpdateResult, StoreError>(StoreError::EmptyText)
                } else if !has_id(pre, id@) {
                    r == Err::<ClipboardUpdateResult, StoreError>(StoreError::NotFound)
                } else {
                    let si = idx_of_id(pre, id@);
                    if has_other_text(pre, tr, si) {
                        let ti = idx_of_other_text(pre, tr, si);
                        r matches Ok(u) && u.item@ == merged(pre[si], pre[ti], updated_at@)
                            && opt_str_view(u.merged_id) == Some(pre[si].id)
                    } else {
                        r matches Ok(u) && u.item@ == renamed(pre[si], tr, updated_at@)
                            && u.merged_id is None
                    }
                }
            }),
    {
        let ghost pre = models(self.items@);
        let trimmed = trim_in(text.as_str());
        if trimmed.as_str().is_empty() {
            return Err(StoreError::EmptyText);
        }
        let si = match find_by_id(&self.items, &id) {
            None => {
                return Err(StoreError::NotFound);
            },
            Some(si) => si,
        };
        proof {
            lemma_id_index(pre, si as int, id@);
        }
        match find_by_text_excluding(&self.items, &trimmed, si) {
            Some(ti) => {
                proof {
                    lemma_other_text_index(pre, ti as int, trimmed@, si as int);
                }
                let source_id = self.items[si].id.clone();
                let source_count = self.items[si].count;
                let target_count = self.items[ti].count;
                let merged_count: i64 = if source_count > i64::MAX - target_count {
                    i64::MAX
                } else {
                    source_count + target_count
                };
                let merged_pinned = self.items[si].pinned || self.items[ti].pinned;
                let merged_created = if str_le(
                    self.items[si].created_at.as_str(),
                    self.items[ti].created_at.as_str(),
                ) {
                    self.items[si].created_at.clone()
                } else {
                    self.items[ti].created_at.clone()
                };
                let new_target = HistoryItem {
                    id: self.items[ti].id.clone(),
                    text: self.items[ti].text.clone(),
                    created_at: merged_created,
                    updated_at,
                    pinned: merged_pinned,
                    count: merged_count,
                };
                let ghost m = merged(pre[si as int], pre[ti as int], new_target.updated_at@);
                proof {
                    assert(new_target@ == m);
                    lemma_models_update(self.items@, ti as int, new_target);
                    lemma_wf_update_like(pre, ti as int, m);
                }
                let returned = new_target.clone();
                self.items[ti] = new_target;
                proof {
                    lemma_models_remove(self.items@, si as int);
                    lemma_wf_remove(pre.update(ti as int, m), si as int);
                }
                self.items.remove(si);
                Ok(ClipboardUpdateResult { item: returned, merged_id: Some(source_id) })
            },
            None => {
                let new_source = HistoryItem {
                    id: self.items[si].id.clone(),
                    text: trimmed,
                    created_at: self.items[si].created_at.clone(),
                    updated_at,
                    pinned: self.items[si].pinned,
                    count: self.items[si].count,
                };
                let ghost m = renamed(pre[si as int], new_source.text@, new_source.updated_at@);
                proof {
                    assert(new_source@ == m);
                    lemma_models_update(self.items@, si as int, new_source);
                    lemma_wf_rename(pre, si as int, m);
                }
                let returned = new_source.clone();
                self.items[si] = new_source;
                Ok(ClipboardUpdateResult { item: returned, merged_id: None })
            },
        }
    }

    /// Set or clear an item's pin flag.
    pub fn set_clipboard_item_pinned(&mut self, id: String, pinned: bool) -> (r: Result<
        HistoryItem,
        StoreError,
    >)
        requires
            old(self).inv(),
        ensures
            final(self).inv(),
            final(self).settings_model() == old(self).settings_model(),
            final(self).items_model() == spec_set_pinned(old(self).items_model(), id@, pinned),
            ({
                let pre = old(self).items_model();
                let post = final(self).items_model();
                if has_id(pre, id@) {
                    r matches Ok(it) && it@ == pin_set(pre[idx_of_id(pre, id@)], pinned)
                } else {
                    r == Err::<HistoryItem, StoreError>(StoreError::NotFound)
                }
            }),
    {
        let ghost pre = models(self.items@);
        match find_by_id(&self.items, &id) {
            None => Err(StoreError::NotFound),
            Some(i) => {
                proof {
                    lemma_id_index(pre, i as int, id@);
                }
                let flipped = HistoryItem {
                    id: self.items[i].id.clone(),
                    text: self.items[i].text.clone(),
                    created_at: self.items[i].created_at.clone(),
                    updated_at: self.items[i].updated_at.clone(),
                    pinned,
                    count: self.items[i].count,
                };
                let ghost m = pin_set(pre[i as int], pinned);
                proof {
                    assert(flipped@ == m);
                    lemma_models_update(self.items@, i as int, flipped);
                    lemma_wf_update_like(pre, i as int, m);
                }
                let returned = flipped.clone();
                self.items[i] = flipped;
                Ok(returned)
            },
        }
    }

    /// Remove the item carrying `id`, if any; removing an absent id is a
    /// no-op rather than an error.
    pub fn delete_clipboard_item(&mut self, id: &str)
        requires
            old(self).inv(),
        ensures
            final(self).inv(),
            final(self).settings_model() == old(self).settings_model(),
            final(self).items_model() == spec_delete(old(self).items_model(), id@),
    {
        let ghost pre = models(self.items@);
        let owned = id.to_owned();
        match find_by_id(&self.items, &owned) {
            None => {},
            Some(i) => {
                proof {
                    lemma_id_index(pre, i as int, id@);
                    lemma_models_remove(self.items@, i as int);
                    lemma_wf_remove(pre, i as int);
                }
                self.items.remove(i);
            },
        }
    }

    /// Remove every live item; settings are kept.
    pub fn clear_clipboard_history(&mut self)
        requires
            old(self).inv(),
        ensures
            final(self).inv(),
            final(self).settings_model() == old(self).settings_model(),
            final(self).items_model() == Seq::<ItemModel>::empty(),
    {
        self.items.clear();
        proof {
            assert(models(self.items@) =~= Seq::<ItemModel>::empty());
        }
    }

    /// A snapshot of the history in listing order: pinned items first, then
    /// newer update stamps, ties broken by id; at most `limit` items, with
    /// `limit` clamped to the supported window.
    pub fn load_clipboard_history(&self, limit: i64) -> (r: Vec<HistoryItem>)
        requires
            self.inv(),
        ensures
            models(r@) == spec_listing(self.items_model(), limit as int),
    {
        let ghost s = models(self.items@);
        let lim: i64 = if limit < 0 {
            0
        } else if limit > 500 {
            500
        } else {
            limit
        };
        let mut out = crate::listing::sorted_clone(&self.items);
        proof {
            crate::listing::lemma_sort_permutes(s);
        }
        let n: usize = if (lim as usize) <= out.len() {
            lim as usize
        } else {
            out.len()
        };
        out.truncate(n);
        proof {
            let srt = crate::listing::spec_sort(s);
            let cl = clamp_limit(limit as int);
            if cl <= srt.len() {
                assert(models(out@) =~= srt.take(cl)) by {
                    assert(out@.len() == n as int);
                    assert forall|i: int| 0 <= i < out@.len() implies models(out@)[i] == srt.take(
                        cl,
                    )[i] by {
                        assert(models(out@)[i] == out@[i]@);
                    }
                }
            } else {
                assert(models(out@) =~= srt);
            }
        }
        out
    }

    /// How many items are live.
    pub fn item_count(&self) -> (n: usize)
        ensures
            n == self.items_model().len(),
    {
        self.items.len()
    }

    /// Read a setting.
    pub fn get_app_setting(&self, key: &str) -> (r: Option<String>)
        requires
            self.inv(),
        ensures
            opt_str_view(r) == setting_lookup(self.settings_model(), key@),
    {
        let ghost s = setting_models(self.settings@);
        let mut i: usize = 0;
        while i < self.settings.len()
            invariant
                self.inv(),
                s == setting_models(self.settings@),
                i <= self.settings@.len(),
                forall|j: int| 0 <= j < i ==> (#[trigger] s[j]).0 != key@,
            decreases self.settings@.len() - i,
        {
            proof {
                assert(s[i as int] == (self.settings@[i as int].key@, self.settings@[i as int].value@));
            }
            if crate::order::str_eq(self.settings[i].key.as_str(), key) {
                proof {
                    lemma_key_index(s, i as int, key@);
                }
                return Some(self.settings[i].value.clone());
            }
            i = i + 1;
        }
        proof {
            if has_key(s, key@) {
                let j = idx_of_key(s, key@);
                assert(s[j].0 != key@);
            }
        }
        None
    }

    /// The configured window-opening shortcut, if any.
    pub fn get_open_window_shortcut(&self) -> (r: Option<String>)
        requires
            self.inv(),
        ensures
            opt_str_view(r) == setting_lookup(self.settings_model(), OPEN_WINDOW_SHORTCUT_KEY@),
    {
        self.get_app_setting(OPEN_WINDOW_SHORTCUT_KEY)
    }

    /// Normalize and persist the window-opening shortcut: surrounding
    /// whitespace is dropped, and a blank shortcut clears the setting.
    /// Returns the normalized value, which the caller registers with the
    /// windowing system.
    pub fn set_open_window_shortcut(&mut self, shortcut: Option<String>) -> (r: Option<String>)
        requires
            old(self).inv(),
        ensures
            final(self).inv(),
            final(self).items_model() == old(self).items_model(),
            opt_str_view(r) == spec_normalize_shortcut(opt_str_view(shortcut)),
            final(self).settings_model() == spec_set_setting(
                old(self).settings_model(),
                OPEN_WINDOW_SHORTCUT_KEY@,
                spec_normalize_shortcut(opt_str_view(shortcut)),
            ),
    {
        let normalized = normalize_shortcut(shortcut);
        match &normalized {
            Some(v) => self.set_app_setting(OPEN_WINDOW_SHORTCUT_KEY, Some(v.clone())),
            None => self.set_app_setting(OPEN_WINDOW_SHORTCUT_KEY, None),
        }
        normalized
    }

    /// Write a setting; an absent value deletes the key.
    pub fn set_app_setting(&mut self, key: &str, value: Option<String>)
        requires
            old(self).inv(),
        ensures
            final(self).inv(),
            final(self).items_model() == old(self).items_model(),
            final(self).settings_model() == spec_set_setting(
                old(self).settings_model(),
                key@,
                opt_str_view(value),
            ),
    {
        let ghost s = setting_models(self.settings@);
        let found = find_setting(&self.settings, key);
        match value {
            Some(v) => {
                match found {
                    Some(i) => {
                        proof {
                            lemma_key_index(s, i as int, key@);
                        }
                        let entry = AppSetting { key: key.to_owned(), value: v };
                        proof {
                            lemma_setting_models_update(self.settings@, i as int, entry);
                            lemma_wf_settings_update(s, i as int, (entry.key@, entry.value@));
                        }
                        self.settings[i] = entry;
                    },
                    None => {
                        let entry = AppSetting { key: key.to_owned(), value: v };
                        proof {
                            lemma_setting_models_push(self.settings@, entry);
                            lemma_wf_settings_push(s, (entry.key@, entry.value@));
                        }
                        self.settings.push(entry);
                    },
                }
            },
            None => {
                match found {
                    Some(i) => {
                        proof {
                            lemma_key_index(s, i as int, key@);
                            lemma_setting_models_remove(self.settings@, i as int);
                            lemma_wf_settings_remove(s, i as int);
                        }
                        self.settings.remove(i);
                    },
                    None => {},
                }
            },
        }
    }
}

/// What a shortcut value normalizes to: trimmed, and cleared when blank.
pub open spec fn spec_normalize_shortcut(s: Option<Seq<char>>) -> Option<Seq<char>> {
    match s {
        None => None,
        Some(t) => if trim_of(t).len() == 0 {
            None
        } else {
            Some(trim_of(t))
        },
    }
}

/// Trim a requested shortcut; a blank one clears the setting.
pub fn normalize_shortcut(shortcut: Option<String>) -> (r: Option<String>)
    ensures
        opt_str_view(r) == spec_normalize_shortcut(opt_str_view(shortcut)),
{
    match shortcut {
        None => None,
        Some(v) => {
            let trimmed = trim_in(v.as_str());
            if trimmed.as_str().is_empty() {
                None
            } else {
                Some(trimmed)
            }
        },
    }
}

/// Find the index holding exactly this text.
fn find_by_text(items: &Vec<HistoryItem>, text: &String) -> (r: Option<usize>)
    ensures
        match r {
            Some(i) => (i as int) < models(items@).len() && models(items@)[i as int].text
                == text@,
            None => !has_text(models(items@), text@),
        },
{
    let ghost s = models(items@);
    let mut i: usize = 0;
    while i < items.len()
        invariant
            s == models(items@),
            i <= items@.len(),
            forall|j: int| 0 <= j < i ==> (#[trigger] s[j]).text != text@,
        decreases items@.len() - i,
    {
        proof {
            assert(s[i as int] == items@[i as int]@);
        }
        if items[i].text == *text {
            return Some(i);
        }
        i = i + 1;
    }
    proof {
        if has_text(s, text@) {
            let j = choose|j: int| 0 <= j < s.len() && (#[trigger] s[j]).text == text@;
            assert(s[j].text != text@);
        }
    }
    None
}

/// Find the index holding this text, other than the index `excl`.
fn find_by_text_excluding(items: &Vec<HistoryItem>, text: &String, excl: usize) -> (r: Option<
    usize,
>)
    ensures
        match r {
            Some(i) => (i as int) < models(items@).len() && i as int != excl as int && models(
                items@,
            )[i as int].text == text@,
            None => !has_other_text(models(items@), text@, excl as int),
        },
{
    let ghost s = models(items@);
    let mut i: usize = 0;
    while i < items.len()
        invariant
            s == models(items@),
            i <= items@.len(),
            forall|j: int| 0 <= j < i && j != excl as int ==> (#[trigger] s[j]).text != text@,
        decreases items@.len() - i,
    {
        proof {
            assert(s[i as int] == items@[i as int]@);
        }
        if i != excl && items[i].text == *text {
            return Some(i);
        }
        i = i + 1;
    }
    proof {
        if has_other_text(s, text@, excl as int) {
            let j = choose|j: int|
                0 <= j < s.len() && j != excl as int && (#[trigger] s[j]).text == text@;
            assert(s[j].text != text@);
        }
    }
    None
}

/// Find the index holding exactly this id.
fn find_by_id(items: &Vec<HistoryItem>, id: &String) -> (r: Option<usize>)
    ensures
        match r {
            Some(i) => (i as int) < models(items@).len() && models(items@)[i as int].id == id@,
            None => !has_id(models(items@), id@),
        },
{
    let ghost s = models(items@);
    let mut i: usize = 0;
    while i < items.len()
        invariant
            s == models(items@),
            i <= items@.len(),
            forall|j: int| 0 <= j < i ==> (#[trigger] s[j]).id != id@,
        decreases items@.len() - i,
    {
        proof {
            assert(s[i as int] == items@[i as int]@);
        }
        if items[i].id == *id {
            return Some(i);
        }
        i = i + 1;
    }
    proof {
        if has_id(s, id@) {
            let j = choose|j: int| 0 <= j < s.len() && (#[trigger] s[j]).id == id@;
            assert(s[j].id != id@);
        }
    }
    None
}

/// Return a copy of the item carrying `id`, or NotFound.
fn fetch_by_id(items: &Vec<HistoryItem>, id: &String) -> (r: Result<HistoryItem, StoreError>)
    requires
        wf_items(models(items@)),
    ensures
        ({
            let s = models(items@);
            if has_id(s, id@) {
                r matches Ok(it) && it@ == s[idx_of_id(s, id@)]
            } else {
                r == Err::<HistoryItem, StoreError>(StoreError::NotFound)
            }
        }),
{
    let ghost s = models(items@);
    match find_by_id(items, id) {
        Some(i) => {
            proof {
                lemma_id_index(s, i as int, id@);
                assert(s[i as int] == items@[i as int]@);
            }
            Ok(items[i].clone())
        },
        None => Err(StoreError::NotFound),
    }
}

/// Find the index of a setting by key.
fn find_setting(settings: &Vec<AppSetting>, key: &str) -> (r: Option<usize>)
    ensures
        match r {
            Some(i) => (i as int) < setting_models(settings@).len() && setting_models(
                settings@,
            )[i as int].0 == key@,
            None => !has_key(setting_models(settings@), key@),
        },
{
    let ghost s = setting_models(settings@);
    let mut i: usize = 0;
    while i < settings.len()
        invariant
            s == setting_models(settings@),
            i <= settings@.len(),
            forall|j: int| 0 <= j < i ==> (#[trigger] s[j]).0 != key@,
        decreases settings@.len() - i,
    {
        proof {
            assert(s[i as int] == (settings@[i as int].key@, settings@[i as int].value@));
        }
        if crate::order::str_eq(settings[i].key.as_str(), key) {
            return Some(i);
        }
        i = i + 1;
    }
    proof {
        if has_key(s, key@) {
            let j = choose|j: int| 0 <= j < s.len() && (#[trigger] s[j]).0 == key@;
            assert(s[j].0 != key@);
        }
    }
    None
}

/// In a well-formed settings table the index carrying a key is unique.
proof fn lemma_key_index(s: Seq<(Seq<char>, Seq<char>)>, i: int, key: Seq<char>)
    requires
        wf_settings(s),
        0 <= i < s.len(),
        s[i].0 == key,
    ensures
        has_key(s, key),
        idx_of_key(s, key) == i,
{
    assert(has_key(s, key));
    let j = idx_of_key(s, key);
    if i != j {
        assert(s[i].0 != s[j].0);
    }
}

proof fn lemma_setting_models_update(v: Seq<AppSetting>, k: int, x: AppSetting)
    requires
        0 <= k < v.len(),
    ensures
        setting_models(v.update(k, x)) == setting_models(v).update(k, (x.key@, x.value@)),
{
    assert(setting_models(v.update(k, x)) =~= setting_models(v).update(k, (x.key@, x.value@)));
}

proof fn lemma_setting_models_push(v: Seq<AppSetting>, x: AppSetting)
    ensures
        setting_models(v.push(x)) == setting_models(v).push((x.key@, x.value@)),
{
    assert(setting_models(v.push(x)) =~= setting_models(v).push((x.key@, x.value@)));
}

proof fn lemma_setting_models_remove(v: Seq<AppSetting>, k: int)
    requires
        0 <= k < v.len(),
    ensures
        setting_models(v.remove(k)) == setting_models(v).remove(k),
{
    assert(setting_models(v.remove(k)) =~= setting_models(v).remove(k));
}

proof fn lemma_wf_settings_update(s: Seq<(Seq<char>, Seq<char>)>, k: int, x: (Seq<char>, Seq<char>))
    requires
        wf_settings(s),
        0 <= k < s.len(),
        x.0 == s[k].0,
    ensures
        wf_settings(s.update(k, x)),
{
    let r = s.update(k, x);
    assert forall|i: int, j: int|
        0 <= i < r.len() && 0 <= j < r.len() && i != j implies (#[trigger] r[i]).0 != (
    #[trigger] r[j]).0 by {
        assert(r[i].0 == s[i].0 && r[j].0 == s[j].0);
    }
}

proof fn lemma_wf_settings_push(s: Seq<(Seq<char>, Seq<char>)>, x: (Seq<char>, Seq<char>))
    requires
        wf_settings(s),
        !has_key(s, x.0),
    ensures
        wf_settings(s.push(x)),
{
    let r = s.push(x);
    assert forall|i: int, j: int|
        0 <= i < r.len() && 0 <= j < r.len() && i != j implies (#[trigger] r[i]).0 != (
    #[trigger] r[j]).0 by {
        let n = s.len() as int;
        if i < n && j < n {
            assert(r[i] == s[i] && r[j] == s[j]);
        } else if i == n {
            assert(r[i] == x && r[j] == s[j]);
        } else {
            assert(r[j] == x && r[i] == s[i]);
        }
    }
}

proof fn lemma_wf_settings_remove(s: Seq<(Seq<char>, Seq<char>)>, k: int)
    requires
        wf_settings(s),
        0 <= k < s.len(),
    ensures
        wf_settings(s.remove(k)),
{
    let r = s.remove(k);
    assert forall|i: int, j: int|
        0 <= i < r.len() && 0 <= j < r.len() && i != j implies (#[trigger] r[i]).0 != (
    #[trigger] r[j]).0 by {
        let oi: int = if i < k {
            i
        } else {
            i + 1
        };
        let oj: int = if j < k {
            j
        } else {
            j + 1
        };
        assert(r[i] == s[oi]);
        assert(r[j] == s[oj]);
    }
}

} // verus!
