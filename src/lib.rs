//! Indexing of a local media collection: file discovery by extension,
//! per-file metadata records, a content-addressed thumbnail cache, an
//! order-preserving scan coordinator with throttled progress events, and the
//! bookkeeping around the persisted library snapshot.
pub mod numerals;
pub mod text;
pub mod song;
pub mod discover;
pub mod scan;
pub mod library;
pub mod snapshot;
pub mod lyrics;
pub mod settings;
pub mod playlist;
pub mod analytics;
pub mod thumbnails;
