//! Fresh identifiers and timestamps for capture payloads.

use vstd::prelude::*;
use crate::item::ClipboardUpsertPayload;

verus! {

/// Relies on chrono: `Utc::now().to_rfc3339()` renders the current moment
/// as a nonempty RFC 3339 / ISO-8601 string. The value depends on the
/// clock, so nothing more is promised of it.
#[verifier::external_body]
pub(crate) fn now_iso_string() -> (r: String)
    ensures
        r@.len() > 0,
{
    chrono::Utc::now().to_rfc3339()
}

/// Relies on uuid: `Uuid::new_v4()` drawn from random bits and rendered in
/// its hyphenated form, which is 36 characters. The value is random, so
/// nothing more is promised of it.
#[verifier::external_body]
pub(crate) fn new_uuid_string() -> (r: String)
    ensures
        r@.len() == 36,
{
    uuid::Uuid::new_v4().to_string()
}

/// A capture payload for `text`: a fresh candidate id and the current time
/// for both stamps.
pub fn build_clipboard_payload(text: String) -> (p: ClipboardUpsertPayload)
    ensures
        p.text@ == text@,
        p.created_at@ == p.updated_at@,
        p.updated_at@.len() > 0,
        p.id@.len() == 36,
{
    let now = now_iso_string();
    ClipboardUpsertPayload { id: new_uuid_string(), text, created_at: now.clone(), updated_at: now }
}

} // verus!
