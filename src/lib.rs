//! Extraction of a canteen's weekly menu into structured records, and the
//! rules that decide how each submission of a record is reported.

pub mod text;
pub mod label;
pub mod price;
pub mod date;
pub mod menu;
pub mod api;
pub mod config;
