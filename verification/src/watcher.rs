//! The capture loop's state machine. A driver samples the external text
//! source on a fixed interval and hands each observation to `tick`, which
//! decides whether the sample is a genuine external change to persist, an
//! echo of a value this system itself wrote, a repeat of the last
//! observation, or nothing at all.

use vstd::prelude::*;
use crate::item::{opt_str_view, ClipboardUpsertPayload, HistoryItem, ItemModel, StoreError};
use crate::model::{has_id, has_text, idx_of_id};
use crate::store::{spec_upsert_items, spec_upsert_target, HistoryStore};
use crate::textops::{trim_in, trim_of};

verus! {

/// The capture loop's shared state: whether monitoring is on, the last text
/// it processed, and the text it has been told to skip once because the
/// system itself is about to write it.
pub struct CaptureState {
    enabled: bool,
    last_seen: Option<String>,
    pending_skip: Option<String>,
}

/// The mathematical value of the capture state.
pub struct CaptureModel {
    pub enabled: bool,
    pub last_seen: Option<Seq<char>>,
    pub pending_skip: Option<Seq<char>>,
}

impl View for CaptureState {
    type V = CaptureModel;

    closed spec fn view(&self) -> CaptureModel {
        CaptureModel {
            enabled: self.enabled,
            last_seen: opt_str_view(self.last_seen),
            pending_skip: opt_str_view(self.pending_skip),
        }
    }
}

/// What one tick reported.
pub enum TickOutcome {
    /// Monitoring is off; the observation was not looked at.
    Disabled,
    /// The external source could not be read; retried next interval.
    ReadFailed,
    /// The observed text is empty once trimmed.
    BlankText,
    /// The observation echoes a value the system itself wrote; suppressed.
    EchoSkipped,
    /// The observation repeats the last processed text; nothing new.
    Unchanged,
    /// The observation was persisted; the payload is the stored item.
    Captured(HistoryItem),
    /// The store refused the write; the sample will be retried or superseded.
    StoreRefused(StoreError),
}

/// The capture state after `mark_clipboard_skip(text)`: the next observation
/// of exactly this trimmed text is to be suppressed. Empty trimmed text
/// changes nothing.
pub open spec fn spec_mark_skip(w: CaptureModel, text: Seq<char>) -> CaptureModel {
    let tr = trim_of(text);
    if tr.len() == 0 {
        w
    } else {
        CaptureModel { last_seen: Some(tr), pending_skip: Some(tr), ..w }
    }
}

/// The capture state after priming with the text already on the external
/// source at startup, which must not be recorded.
pub open spec fn spec_prime(w: CaptureModel, obs: Option<Seq<char>>) -> CaptureModel {
    match obs {
        None => w,
        Some(t) => {
            let tr = trim_of(t);
            if tr.len() == 0 {
                w
            } else {
                CaptureModel { last_seen: Some(tr), ..w }
            }
        },
    }
}

/// Whether a tick observing `obs` reaches the store at all.
pub open spec fn spec_tick_writes(w: CaptureModel, obs: Option<Seq<char>>) -> bool {
    match obs {
        None => false,
        Some(t) => {
            let tr = trim_of(t);
            &&& w.enabled
            &&& tr.len() > 0
            &&& w.pending_skip != Some(tr)
            &&& w.last_seen != Some(tr)
        },
    }
}

/// The capture state after one tick; `wrote` says whether the store
/// accepted the write, which is the only case where a capture advances
/// `last_seen`.
pub open spec fn spec_tick_state(w: CaptureModel, obs: Option<Seq<char>>, wrote: bool) -> CaptureModel {
    if !w.enabled {
        w
    } else {
        match obs {
            None => w,
            Some(t) => {
                let tr = trim_of(t);
                if tr.len() == 0 {
                    w
                } else if w.pending_skip == Some(tr) {
                    CaptureModel { last_seen: Some(tr), pending_skip: None, ..w }
                } else if w.last_seen == Some(tr) {
                    w
                } else if wrote {
                    CaptureModel { last_seen: Some(tr), ..w }
                } else {
                    w
                }
            },
        }
    }
}

/// The trimmed text a writing tick hands to the store.
pub open spec fn spec_tick_text(obs: Option<Seq<char>>) -> Seq<char> {
    match obs {
        None => Seq::empty(),
        Some(t) => trim_of(t),
    }
}

/// Everything one tick does: how the capture state moves, whether and how
/// the table moves, and what outcome is reported.
pub open spec fn tick_rel(
    w0: CaptureModel,
    s0: Seq<ItemModel>,
    obs: Option<Seq<char>>,
    cand: Seq<char>,
    now: Seq<char>,
    max: int,
    w1: CaptureModel,
    s1: Seq<ItemModel>,
    r: TickOutcome,
) -> bool {
    &&& w1 == spec_tick_state(w0, obs, r is Captured)
    &&& !spec_tick_writes(w0, obs) ==> s1 == s0
    &&& spec_tick_writes(w0, obs) ==> s1 == spec_upsert_items(
        s0,
        spec_tick_text(obs),
        cand,
        now,
        now,
        max,
    )
    &&& if !w0.enabled {
        r is Disabled
    } else {
        match obs {
            None => r is ReadFailed,
            Some(t) => {
                let tr = trim_of(t);
                if tr.len() == 0 {
                    r is BlankText
                } else if w0.pending_skip == Some(tr) {
                    r is EchoSkipped
                } else if w0.last_seen == Some(tr) {
                    r is Unchanged
                } else if !has_text(s0, tr) && has_id(s0, cand) {
                    r == TickOutcome::StoreRefused(StoreError::IdConflict)
                } else {
                    let tid = spec_upsert_target(s0, tr, cand);
                    if has_id(s1, tid) {
                        r matches TickOutcome::Captured(it) && it@ == s1[idx_of_id(s1, tid)]
                    } else {
                        r == TickOutcome::StoreRefused(StoreError::NotFound)
                    }
                }
            },
        }
    }
}

impl CaptureState {
    /// A fresh capture state: monitoring on, nothing seen, nothing to skip.
    pub fn new() -> (w: Self)
        ensures
            w@ == (CaptureModel { enabled: true, last_seen: None, pending_skip: None }),
    {
        CaptureState { enabled: true, last_seen: None, pending_skip: None }
    }

    /// Turn background monitoring on or off.
    pub fn set_clipboard_monitoring(&mut self, enabled: bool)
        ensures
            final(self)@ == (CaptureModel { enabled, ..old(self)@ }),
    {
        self.enabled = enabled;
    }

    /// Whether background monitoring is on.
    pub fn get_clipboard_monitoring(&self) -> (b: bool)
        ensures
            b == self@.enabled,
    {
        self.enabled
    }

    /// A caller about to write `text` to the external source announces it
    /// here, so that the next tick observing exactly this text is suppressed
    /// instead of being re-recorded.
    pub fn mark_clipboard_skip(&mut self, text: &str)
        ensures
            final(self)@ == spec_mark_skip(old(self)@, text@),
    {
        let trimmed = trim_in(text);
        if trimmed.as_str().is_empty() {
            return ;
        }
        self.pending_skip = Some(trimmed.clone());
        self.last_seen = Some(trimmed);
    }

    /// Record the text already on the external source at startup so that it
    /// is not counted as a fresh capture.
    pub fn prime(&mut self, observed: Option<String>)
        ensures
            final(self)@ == spec_prime(old(self)@, opt_str_view(observed)),
    {
        match observed {
            None => {},
            Some(content) => {
                let trimmed = trim_in(content.as_str());
                if !trimmed.as_str().is_empty() {
                    self.last_seen = Some(trimmed);
                }
            },
        }
    }

    /// One tick of the capture loop over an already-made observation of the
    /// external source (`None` means the read failed). Decides whether the
    /// sample is persisted, and keeps `last_seen` behind the store so that a
    /// refused write is retried on a later tick.
    pub fn tick(
        &mut self,
        store: &mut HistoryStore,
        observed: Option<String>,
        candidate_id: String,
        now: String,
        max_items: i64,
    ) -> (r: TickOutcome)
        requires
            old(store).inv(),
        ensures
            final(store).inv(),
            final(store).settings_model() == old(store).settings_model(),
            tick_rel(
                old(self)@,
                old(store).items_model(),
                opt_str_view(observed),
                candidate_id@,
                now@,
                max_items as int,
                final(self)@,
                final(store).items_model(),
                r,
            ),
    {
        if !self.enabled {
            return TickOutcome::Disabled;
        }
        let content = match observed {
            None => {
                return TickOutcome::ReadFailed;
            },
            Some(content) => content,
        };
        let trimmed = trim_in(content.as_str());
        if trimmed.as_str().is_empty() {
            return TickOutcome::BlankText;
        }
        let is_echo = match &self.pending_skip {
            Some(p) => *p == trimmed,
            None => false,
        };
        if is_echo {
            self.pending_skip = None;
            self.last_seen = Some(trimmed);
            return TickOutcome::EchoSkipped;
        }
        let is_repeat = match &self.last_seen {
            Some(p) => *p == trimmed,
            None => false,
        };
        if is_repeat {
            return TickOutcome::Unchanged;
        }
        let payload = ClipboardUpsertPayload {
            id: candidate_id,
            text: trimmed.clone(),
            created_at: now.clone(),
            updated_at: now,
        };
        match store.upsert_clipboard_item(payload, max_items) {
            Ok(item) => {
                self.last_seen = Some(trimmed);
                TickOutcome::Captured(item)
            },
            Err(e) => TickOutcome::StoreRefused(e),
        }
    }

    /// One tick with a fresh candidate id and the current time, as the
    /// background loop performs it.
    pub fn tick_with_fresh_stamp(
        &mut self,
        store: &mut HistoryStore,
        observed: Option<String>,
        max_items: i64,
    ) -> (r: TickOutcome)
        requires
            old(store).inv(),
        ensures
            final(store).inv(),
            final(store).settings_model() == old(store).settings_model(),
            exists|cand: Seq<char>, now: Seq<char>|
                #[trigger] tick_rel(
                    old(self)@,
                    old(store).items_model(),
                    opt_str_view(observed),
                    cand,
                    now,
                    max_items as int,
                    final(self)@,
                    final(store).items_model(),
                    r,
                ),
    {
        let candidate_id = crate::stamp::new_uuid_string();
        let now = crate::stamp::now_iso_string();
        let ghost cand_view = candidate_id@;
        let ghost now_view = now@;
        let r = self.tick(store, observed, candidate_id, now, max_items);
        proof {
            assert(tick_rel(
                old(self)@,
                old(store).items_model(),
                opt_str_view(observed),
                cand_view,
                now_view,
                max_items as int,
                self@,
                store.items_model(),
                r,
            ));
        }
        r
    }
}

} // verus!
