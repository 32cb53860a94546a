//! Turns the rows that a Trino coordinator sends into Arrow record batches.

pub mod appends;
pub mod arrow_types;
pub mod builder;
pub mod builder_map;
pub mod calendar;
pub mod cells;
pub mod columns;
pub mod decimal;
pub mod encoding;
pub mod flat;
pub mod joined;
pub mod json;
pub mod named_map;
pub mod number;
pub mod numerals;
pub mod outcomes;
pub mod replies;
pub mod rows;
pub mod runs;
pub mod schema;
pub mod settings;
pub mod store;
pub mod success;
pub mod temporal;
pub mod text;
pub mod trino;
pub mod trinoconn;
pub mod trinodbpool;
pub mod type_names;
pub mod types;
pub mod values;
pub mod views;
