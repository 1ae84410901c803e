//! Sifting of cryptocurrency market data: which coin leads each category,
//! and what changed since the last report.
//!
//! The library decides and computes; asking the services, reading the clock
//! and touching files is left to the program around it.
//!
//! - [`fetch`] says what to ask the listing service and what to keep of the
//!   answers; [`limiter`] says which request may go out now.
//! - [`category`] keeps the categories by id.
//! - [`futures`] turns the markets of the derivatives exchange into the
//!   symbols that can be traded.
//! - [`top_coins`] makes the report, [`coin_diff`] compares two reports.
//! - [`report`] names the files, [`endpoints`] the addresses.
//! - [`models`] and [`text`] hold the records and the handling of text that
//!   the others share.

pub mod category;
pub mod coin_diff;
pub mod endpoints;
pub mod fetch;
pub mod futures;
pub mod limiter;
pub mod models;
pub mod report;
pub mod text;
pub mod top_coins;
