//! Verified core of a task-progress overlay pipeline.
//!
//! The library ingests an append-only JSONL log of task lifecycle events,
//! turns the lines into structured events, persists them in a queryable
//! in-memory history store, and fans them out to any number of
//! subscribers over a bounded broadcast feed.
//!
//! - [`watcher`] owns the per-file tailing state and the snapshot scans;
//! - [`json`] and [`events`] parse the flat JSON the interfaces exchange;
//! - [`store`] is the history store with search, statistics and
//!   retention;
//! - [`router`] maps raw events to store effects and domain events and
//!   broadcasts them;
//! - [`config`] holds the configuration values and their defaults.
//!
//! The surrounding process does the file reading, the change
//! notifications and the user surface; every decision about what the
//! bytes mean is made here, under contract.

pub mod config;
pub mod events;
pub mod json;
pub mod router;
pub mod store;
pub mod strutil;
pub mod watcher;
