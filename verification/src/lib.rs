//! Verified expanding window statistics over polars data frames.

pub mod arithmetic;
pub mod binary64;
pub mod error;
pub mod frames;
pub mod time_series;
