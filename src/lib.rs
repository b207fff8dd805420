//! Verification and redaction logic for viewing notarized TLS transcripts.

pub mod classify;
pub mod key;
pub mod pipeline;
pub mod render;
pub mod segment;
