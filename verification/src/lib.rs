//! Per-conversation read-state for a chat client: deriving a read marker and
//! an unread-trigger timestamp from an observed message list, resolving a
//! stable file name for each (server, conversation) pair, and merging fresh
//! state with previously persisted state without ever regressing a read
//! marker. File I/O itself is left to the host; this crate computes every
//! decision and every byte that is persisted.

pub mod codec;
pub mod engine;
pub mod json;
pub mod message;
pub mod metadata;
pub mod path;
pub mod rfc3339;
pub mod timestamp;
