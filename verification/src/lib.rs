//! Grimoire: note-taking core logic (encryption framing, key sessions,
//! text chunking, tag and link extraction, search merging, hardware
//! classification and bundle-catalogue handling).

pub mod calendar;
pub mod chat;
pub mod chunking;
pub mod crypto;
pub mod export;
pub mod hardware;
pub mod indexing;
pub mod notes;
pub mod numbers;
pub mod properties;
pub mod relations;
pub mod search;
pub mod session;
pub mod vault;
pub mod wiki;
pub mod templates;
pub mod text;
