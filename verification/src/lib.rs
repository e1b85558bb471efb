//! A persistent expense record store: monotonic id allocation, a bounded
//! binary codec for records, a durable ordered id-to-record map, and the
//! query operations layered on top of a full scan.
pub mod codec;
pub mod laws;
pub mod query;
pub mod record;
pub mod store;
