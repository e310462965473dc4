//! Reconciliation of spot-instance advisor and price data into ordered report rows.
pub mod advisor;
pub mod bucket;
pub mod json;
pub mod merge;
pub mod price;
pub mod records;
pub mod region;
pub mod report;
pub mod select;
pub mod text;
