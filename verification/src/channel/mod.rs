//! Messages to and from the external channels, and the buffering of drafts.
pub mod attachment;
pub mod message;
pub mod draft;
pub mod websocket;
