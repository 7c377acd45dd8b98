//! Conversion between Unix timestamps and human-readable UTC date-times.
//!
//! The library classifies a command-line token as either an integer
//! timestamp or a date expression, formats timestamps as
//! `YYYY-MM-DD HH:MM:SS +0000` strings (inferring seconds versus
//! milliseconds by a fixed threshold), and parses absolute dates and
//! relative offsets such as `-7d` into epoch milliseconds.

pub mod civil;
pub mod convert;
pub mod error;
pub mod parse;
pub mod render;
pub mod text;
