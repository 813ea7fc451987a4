use vstd::prelude::*;

verus! {

/// What went wrong, as a machine-readable classification.
///
/// A continuity failure carries the two UTC timestamps (seconds since the
/// Unix epoch) that were found not to be exactly one minute apart, so a
/// caller can point at the gap or duplicate in the source file.
#[derive(Clone, Copy, Debug, PartialEq, Eq)]
pub enum ErrorKind {
    /// The input had no lines at all.
    EmptyFile,
    /// The input had a header but no data rows.
    NoData,
    /// The first line matched neither recognized header.
    InvalidHeader,
    /// The timezone identifier did not resolve.
    UnknownTimezone,
    /// A blank line stood anywhere but at the very end.
    UnexpectedEmptyLine,
    /// The first field of a row was not a date-time of the expected shape.
    DateParseError,
    /// The second field of a row was missing or not a readable number.
    TemperatureParseError,
    /// The third field of a row was missing or not a readable number.
    HumidityParseError,
    /// A local time had no UTC mapping, or its ambiguity could not be
    /// resolved because the file starts inside a fall-back window.
    TimezoneConversionError,
    /// Two consecutive UTC timestamps are not exactly 60 seconds apart.
    ContinuityError { prev_utc: i64, cur_utc: i64 },
}

/// A failure of the parsing pipeline: a classification, the 1-based source
/// line it was detected on (when one applies), and an optional
/// human-readable description.
#[derive(Clone, Debug)]
pub struct SensorError {
    pub kind: ErrorKind,
    pub line: Option<usize>,
    pub desc: Option<String>,
}

/// The stock description each classification carries when nothing more
/// specific is known.
pub open spec fn kind_desc(k: ErrorKind) -> Seq<char> {
    match k {
        ErrorKind::EmptyFile => "File empty"@,
        ErrorKind::NoData => "No data"@,
        ErrorKind::InvalidHeader => "invalid header"@,
        ErrorKind::UnknownTimezone => "unknown timezone"@,
        ErrorKind::UnexpectedEmptyLine => "unexpected empty line"@,
        ErrorKind::DateParseError => "failed to parse date"@,
        ErrorKind::TemperatureParseError => "invalid temperature"@,
        ErrorKind::HumidityParseError => "invalid humidity"@,
        ErrorKind::TimezoneConversionError => "failed to convert local time to UTC"@,
        ErrorKind::ContinuityError { .. } => "missing data"@,
    }
}

/// The stock description of `k`, as an owned string.
pub fn desc_of(k: ErrorKind) -> (d: String)
    ensures
        d@ == kind_desc(k),
{
    match k {
        ErrorKind::EmptyFile => "File empty".to_owned(),
        ErrorKind::NoData => "No data".to_owned(),
        ErrorKind::InvalidHeader => "invalid header".to_owned(),
        ErrorKind::UnknownTimezone => "unknown timezone".to_owned(),
        ErrorKind::UnexpectedEmptyLine => "unexpected empty line".to_owned(),
        ErrorKind::DateParseError => "failed to parse date".to_owned(),
        ErrorKind::TemperatureParseError => "invalid temperature".to_owned(),
        ErrorKind::HumidityParseError => "invalid humidity".to_owned(),
        ErrorKind::TimezoneConversionError => "failed to convert local time to UTC".to_owned(),
        ErrorKind::ContinuityError { .. } => "missing data".to_owned(),
    }
}

impl SensorError {
    /// An error with a classification, a source line, and the stock
    /// description of the classification.
    pub fn from_kind(kind: ErrorKind, line: Option<usize>) -> (r: SensorError)
        ensures
            r.kind == kind,
            r.line == line,
            r.desc matches Some(d) && d@ == kind_desc(kind),
    {
        let desc = desc_of(kind);
        SensorError { kind, line, desc: Some(desc) }
    }

    /// An error that carries its own description.
    pub fn with_desc(kind: ErrorKind, line: Option<usize>, desc: String) -> (r: SensorError)
        ensures
            r.kind == kind,
            r.line == line,
            r.desc matches Some(d) && d@ == desc@,
    {
        SensorError { kind, line, desc: Some(desc) }
    }
}

} // verus!
