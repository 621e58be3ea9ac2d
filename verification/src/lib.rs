//! A book of bids and asks merged from the books of several venues.
//!
//! Venues send snapshots and diffs of their books. The library reads them,
//! files the quotes of all venues by price, keeps the spread between the best
//! bid and the best ask, and lists the best buckets of each side. It also
//! decides how the streams of the venues are brought up and kept in step with
//! their snapshots.

pub mod aggregated_orderbook;
pub mod decimal;
pub mod decode;
pub mod json;
pub mod keys;
pub mod laws;
pub mod lifecycle;
pub mod publisher;
pub mod side;
pub mod types;
