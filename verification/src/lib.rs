//! Extraction pipeline for exported chat-archive containers.
//!
//! The library turns the raw text of an archive into structured entries: each
//! entry carries its header block, a decoded HTML body, the attachments found
//! in the body, and the messages extracted from the HTML, in document order.
//! Every stage is a pure function with a verified contract; calls into the
//! outside decoding crates go through the trusted boundary in [`outside`].

pub mod html_parser;
pub mod laws;
pub mod mbox_parser;
pub mod message_parser;
pub mod models;
pub mod sanitize;
pub mod output;
pub mod outside;
pub mod text;
pub mod timestamp;
pub mod transfer;
