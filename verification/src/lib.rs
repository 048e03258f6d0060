//! Decoder library for wearable motion-sensor logs.
//!
//! Two device families are supported: a zip-packaged binary event log made of
//! header-prefixed records, and a fixed-width paginated text/binary hybrid log.
//! Both are decoded into plain integer sample columns aligned to a shared
//! nanosecond timestamp axis, plus device metadata entries.
//!
//! The library works on in-memory byte buffers; opening files and unpacking
//! the zip container is the caller's business.

pub mod actigraph;
pub mod activity;
pub mod bits;
pub mod datetime;
pub mod encode;
pub mod format;
pub mod geneactiv;
pub mod params;
pub mod records;
pub mod table;
pub mod timestamp;
