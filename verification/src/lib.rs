//! Tracks an artist catalog over time: remembers which releases of each
//! artist are already known, diffs fresh catalog snapshots against that
//! state, filters out phantom releases that carry no tracks, and gathers
//! the confirmed new tracks into dated playlists.
//!
//! The crate keeps the whole catalog state in an in-memory relational
//! [`store::Store`]; callers feed it snapshot values fetched from the
//! catalog service and persist the resulting state however they like.

pub mod artists;
pub mod builder;
pub mod engine;
pub mod models;
pub mod playlists;
pub mod release_type;
pub mod releases;
pub mod report;
pub mod store;
pub mod strutil;
pub mod tracks;
