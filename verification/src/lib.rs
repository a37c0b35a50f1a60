//! Windowed live-cache and region-filtered fan-out for a virtualized grid.
//!
//! The crate models the two halves of a live spreadsheet over a huge address
//! space of cells: the client-side bounded cell cache with debounced
//! prefetching, and the server-side edge cache with a per-connection
//! change-filtering pipeline.  All wire messages are line-delimited JSON in a
//! fixed canonical form, encoded and decoded by verified functions.

pub mod cache;
pub mod cell;
pub mod color;
pub mod debounce;
pub mod edge;
pub mod edit;
pub mod feed;
pub mod json;
pub mod limits;
pub mod loader;
pub mod region;
pub mod router;
pub mod stats;
pub mod wire;
