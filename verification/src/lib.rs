//! A bounded, deduplicating history store for short text snippets, together
//! with the capture-loop state machine that feeds it from an external,
//! mutable text source.
//!
//! The store keeps at most one live item per distinct text, counts repeated
//! captures, merges items when an edit causes a text collision, and evicts
//! the oldest unpinned items once a configured capacity is exceeded. The
//! capture loop decides, per observation of the external source, whether the
//! observed text is a genuine external change worth persisting, an echo of a
//! value this system itself wrote, or a repeat of the last observation.

pub mod evict;
pub mod item;
pub mod laws;
pub mod listing;
pub mod model;
pub mod order;
pub mod stamp;
pub mod store;
pub mod textops;
pub mod watcher;
