//! Note-similarity engine: content fingerprints, a wikilink graph, an
//! incremental embedding store, similarity ranking and detection of
//! similar notes that do not link to each other.

pub mod checksum;
pub mod text;
pub mod tokens;
pub mod wikilink;
pub mod graph;
pub mod note;
pub mod ranking;
pub mod store;
pub mod builder;
pub mod config;
pub mod unlinked;
pub mod report;
pub mod conversation;
pub mod provider;
pub mod document;
pub mod template;
pub mod speedtest;
pub mod assistant;
