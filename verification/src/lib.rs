//! Core logic of a desktop mail-dispatch assistant: template variable
//! substitution, filename-driven recipient matching, send-safety validation,
//! and the retry/backoff policy of the remote mail client.

pub mod api;
pub mod attachment;
pub mod filename;
pub mod models;
pub mod slots;
pub mod substitute;
pub mod text;
pub mod validate;
