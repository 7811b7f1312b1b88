//! A client for counters that speak SCPI over a line-oriented byte stream:
//! reply decoding, the error catalog, the sentinel-driven error query, timeout
//! scoping and the small codecs these need.
pub mod catalog;
pub mod enrich;
pub mod error;
pub mod format;
pub mod handle;
pub mod number;
pub mod replies;
pub mod span;
pub mod status;
pub mod types;

pub use catalog::KsDevErr;
pub use error::Error;
