//! Collects per-container CPU and memory usage from a cluster metrics API
//! and republishes it as plain-text exposition lines for a scrape endpoint.
//!
//! The library holds the verified core: parsing unit-suffixed quantity
//! strings into exact decimal values, rendering a decoded dataset into
//! exposition text, the published-snapshot buffer, and the scheduler's
//! cadence arithmetic. The surrounding process (HTTP listener, credentialed
//! fetch, logging) lives outside the library.

pub mod publisher;
pub mod quantity;
pub mod render;
pub mod scheduler;
pub mod unit_converter;
pub mod updater;
