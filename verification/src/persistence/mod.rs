//! Tables of records, one JSON object per line.

pub mod error;
pub mod migrate;
