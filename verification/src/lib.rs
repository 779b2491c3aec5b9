//! Verified core of a notification forwarder.
//!
//! The library consumes raw message payloads, decodes them into typed
//! event records, derives a notification request from the record's
//! parameters, renders a plain-text body, and decides what a broker
//! loop should do with each message.  All decisions are verified; the
//! broker and mail transports live outside the library.

mod text;
pub mod payload;
pub mod grammar;
pub mod codec;
pub mod notify;
pub mod dispatch;
pub mod consumer;
pub mod config;
