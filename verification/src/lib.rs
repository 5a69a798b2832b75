//! A verified core for an incremental forum crawler.
//!
//! The library holds the logic of the crawl engine: classification of
//! discussion fetch responses, extraction of discussion metadata and post
//! batches from upstream documents, the HTML content sanitizer, batch
//! planning and reassembly, the paginator that walks the discussion index,
//! the worker's outcome classification, and an idempotent store model for
//! discussions, posts and crawl jobs. Network and database access live
//! outside the library and hand plain values in and out.

pub mod api;
pub mod config;
pub mod crawler;
pub mod entity;
pub mod paginator;
pub mod pipeline;
pub mod sanitize;
pub mod store;
pub mod strutil;
pub mod timestamp;
