//! The unit of storage: one history item, and the errors store operations
//! can surface.

use vstd::prelude::*;

verus! {

/// The mathematical value of one history item.
pub struct ItemModel {
    pub id: Seq<char>,
    pub text: Seq<char>,
    pub created_at: Seq<char>,
    pub updated_at: Seq<char>,
    pub pinned: bool,
    pub count: int,
}

/// One stored snippet. Timestamps are ISO-8601 strings compared byte-wise;
/// `count` counts how many times the same text was captured or inserted.
pub struct HistoryItem {
    pub id: String,
    pub text: String,
    pub created_at: String,
    pub updated_at: String,
    pub pinned: bool,
    pub count: i64,
}

impl View for HistoryItem {
    type V = ItemModel;

    open spec fn view(&self) -> ItemModel {
        ItemModel {
            id: self.id@,
            text: self.text@,
            created_at: self.created_at@,
            updated_at: self.updated_at@,
            pinned: self.pinned,
            count: self.count as int,
        }
    }
}

impl Clone for HistoryItem {
    fn clone(&self) -> (r: Self)
        ensures
            r@ == self@,
    {
        HistoryItem {
            id: self.id.clone(),
            text: self.text.clone(),
            created_at: self.created_at.clone(),
            updated_at: self.updated_at.clone(),
            pinned: self.pinned,
            count: self.count,
        }
    }
}

/// The mathematical values of a sequence of stored items.
pub open spec fn models(v: Seq<HistoryItem>) -> Seq<ItemModel> {
    v.map_values(|x: HistoryItem| x@)
}

pub proof fn lemma_models_remove(v: Seq<HistoryItem>, k: int)
    requires
        0 <= k < v.len(),
    ensures
        models(v.remove(k)) == models(v).remove(k),
{
    assert(models(v.remove(k)) =~= models(v).remove(k));
}

pub proof fn lemma_models_update(v: Seq<HistoryItem>, k: int, x: HistoryItem)
    requires
        0 <= k < v.len(),
    ensures
        models(v.update(k, x)) == models(v).update(k, x@),
{
    assert(models(v.update(k, x)) =~= models(v).update(k, x@));
}

pub proof fn lemma_models_insert(v: Seq<HistoryItem>, k: int, x: HistoryItem)
    requires
        0 <= k <= v.len(),
    ensures
        models(v.insert(k, x)) == models(v).insert(k, x@),
{
    assert(models(v.insert(k, x)) =~= models(v).insert(k, x@));
}

pub proof fn lemma_models_push(v: Seq<HistoryItem>, x: HistoryItem)
    ensures
        models(v.push(x)) == models(v).push(x@),
{
    assert(models(v.push(x)) =~= models(v).push(x@));
}

/// The data a capture or a manual insert supplies: a candidate id and
/// creation stamp for the case where the text is new to the store.
pub struct ClipboardUpsertPayload {
    pub id: String,
    pub text: String,
    pub created_at: String,
    pub updated_at: String,
}

/// What an edit returns: the surviving item, and the id of the item that was
/// absorbed if the edit caused a merge.
pub struct ClipboardUpdateResult {
    pub item: HistoryItem,
    pub merged_id: Option<String>,
}

/// The value of an optional string.
pub open spec fn opt_str_view(o: Option<String>) -> Option<Seq<char>> {
    match o {
        Some(s) => Some(s@),
        None => None,
    }
}

/// Why a store operation was refused. The store never mutates on a refusal.
#[derive(Clone, Copy, PartialEq, Eq, Structural, Debug)]
pub enum StoreError {
    /// The supplied text is empty once trimmed; nothing is persisted.
    EmptyText,
    /// The operation targets an id with no live item.
    NotFound,
    /// A fresh insert was asked to reuse an id that is already live.
    IdConflict,
}

} // verus!
