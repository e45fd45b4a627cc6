//! Backward-pagination engine for a chat-room event cache.
//!
//! The timeline of a room is held as an ordered sequence of chunks, each
//! either a run of events or a gap standing for unfetched history with a
//! continuation token. This crate verifies the logic of that representation:
//! the merge of freshly fetched history into the chunk sequence, the
//! deduplication of fetched events against what is already known, the
//! single-flight status gate that serializes pagination rounds, and the
//! token lookup that tells a caller where history resumes.
//!
//! Network and storage access, waiting, and the async round loops live
//! outside the verified core, which they drive through the round-step
//! machine of [`pagination::RoomPagination`].

pub mod events;
pub mod deduplicator;
pub mod observable;
pub mod pagination;
