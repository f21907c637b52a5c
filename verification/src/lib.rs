//! Converts a run of JSON records into tab-separated text.
//!
//! The columns are not declared anywhere: the header is inferred from the
//! first records, which are held back until it is known, and every later
//! record is written as soon as it is read. What a record holds beyond the
//! header is reported and left out.
//!
//! - [`convert`] holds the conversion and its three phases.
//! - [`header`] and [`row`] say what the header is and what a row holds, and
//!   prove what can be relied on.
//! - [`record`] decodes the records, with serde_json.
//! - [`tsv`] writes and reads tables of separated text.
//! - [`env`] reads command-line arguments.
//! - [`text`] and [`error`] hold the helpers for strings and the one error type.

pub mod convert;
pub mod env;
pub mod error;
pub mod header;
pub mod record;
pub mod row;
pub mod text;
pub mod tsv;
