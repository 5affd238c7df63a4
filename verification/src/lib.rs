//! Catalog reconciliation and relocation engine for a personal music library.

pub mod backfill;
pub mod catalog;
pub mod dedup;
pub mod enricher;
pub mod media_organizer;
pub mod models;
pub mod paging;
pub mod relocator;
pub mod scanner;
pub mod tags;
pub mod text;
