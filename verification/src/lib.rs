//! Validation and normalization of per-minute sensor logs.
//!
//! The input is a CSV log: a header naming the temperature unit, then one
//! reading per minute, each with a local wall-clock timestamp.  The library
//! checks the header, parses every row, converts each local timestamp to an
//! unambiguous UTC instant under a named timezone (resolving the repeated
//! hour of a daylight-saving fall-back), and verifies that consecutive
//! readings are exactly one minute apart.  Any irregularity is a structured
//! error naming the offending source line.

pub mod data;
pub mod dates;
pub mod error;
pub mod pipeline;
pub mod text;
pub mod tz;

pub use data::DataPoint;
pub use data::SpecReading;
pub use dates::parse_date;
pub use error::ErrorKind;
pub use error::SensorError;
pub use pipeline::first_pass;
pub use pipeline::parse;
pub use pipeline::parse_header;
pub use pipeline::parse_line;
pub use pipeline::resolve_one;
pub use pipeline::second_pass;
pub use pipeline::third_pass;
pub use text::is_float_str;
pub use tz::resolve_timezone;
pub use tz::Timezone;
pub use tz::TzMapping;
