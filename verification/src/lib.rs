//! A verified ingestion and enrichment pipeline for a photo/video collection.
//!
//! The library discovers media files (scanner), keeps a persisted store of
//! merged "visual" items (repository), derives thumbnails and per-item traits
//! (enricher), converts unplayable video codecs (transcoder), reconciles the
//! store against the filesystem (cleaner), sequences the stages (bootstrap
//! coordinator) and publishes immutable snapshots to subscribers (state
//! store).

pub mod coordinator;
pub mod enrich;
pub mod events;
pub mod model;
pub mod paths;
pub mod progress;
pub mod repo;
pub mod scan;
pub mod store;
pub mod time;
pub mod transcode;
pub mod view;
