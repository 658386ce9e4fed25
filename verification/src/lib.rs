//! Session protocol engine for a voice-assistant relay.
//!
//! A relay accepts one bidirectional connection per client, takes streamed
//! binary audio or textual commands, forwards admitted requests to a speech
//! and chat backend, and answers with plain text. This crate holds the
//! verified core of that relay: the Morse decoder, the audio frame
//! assembler, the admission gate, the bounded conversation window, the
//! chat prompt assembly, and the per-connection session engine that ties
//! them together. Transport, HTTP and file handling live outside.

pub mod admission;
pub mod audio;
pub mod chat;
pub mod context;
pub mod session;
pub mod morse;
pub mod text;
