//! Resolution engine for pronunciation-audio requests.
//!
//! Given a dictionary headword and its phonetic reading, the library decides
//! which supplementary source to query, merges and orders the rows fetched
//! from the persisted store, locates each row's audio file inside a media
//! tree, and projects the survivors into `{name, url}` pairs.  All decision
//! logic lives here and is verified; the surrounding process (HTTP server,
//! store access, filesystem walking) supplies plain values and performs the
//! I/O.

pub mod cli;
pub mod config;
pub mod entry;
pub mod import;
pub mod kana;
pub mod ordering;
pub mod request;
pub mod resolve;
pub mod source;
pub mod text;
pub mod tree;
