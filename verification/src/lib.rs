//! Verified core of a desktop client that captures audio, ships it in short
//! chunks to a transcription server and follows the server's live event feed.
//!
//! Everything here is a plain value or a decision on plain values: the
//! capture loop and its sample buffer, the WAV container, the HTTP requests
//! and what counts as a refusal, the event-stream parser, and the session
//! state machine. Devices, sockets, files and windows stay with the caller.

pub mod audio;
pub mod capture;
pub mod commands;
pub mod parlyx;
pub mod session;
pub mod settings;
pub mod sse;
pub mod text;
pub mod wav;
