//! What holds of all headers.
pub mod bounds;
pub mod byte_orders;
pub mod contents;
pub mod descriptions;
pub mod digits;
pub mod encoding;
pub mod header_only;
pub mod headers;
pub mod key_order;
pub mod limits;
pub mod measures;
pub mod opening;
pub mod placement;
pub mod progress;
pub mod reading;
pub mod round_trip;
pub mod rounding;
pub mod streaming;
pub mod summaries;
pub mod tables;
pub mod truncation;
pub mod views;
pub mod wording;
