//! Aggregation pipeline for time-bounded notice listings.
//!
//! The library normalizes listings crawled from several web sources into one
//! `Notice` schema, extracts date ranges and organizers from heterogeneous
//! payloads through an ordered fallback chain, and reconciles all sources
//! into one deduplicated, deterministically ordered collection.

pub mod campuspick;
pub mod crawl;
pub mod dacon;
pub mod date;
pub mod extract;
pub mod feed;
pub mod fetch;
pub mod json;
pub mod merge;
pub mod notice;
pub mod scan;
pub mod text;
pub mod wevity;
