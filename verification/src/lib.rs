//! Turns a textual time token, a calendar date or a Unix epoch value, into a
//! pair of a readable UTC string and the matching Unix timestamp.

pub mod calendar;
pub mod chrono_bridge;
pub mod decimal;
pub mod normalizer;
pub mod notation;
pub mod text;
pub mod time;

pub use normalizer::{
    classify, convert, normalize, parse_unix, parse_utc_date, sentinel, ErrorKind, TokenKind,
};
pub use time::Time;
