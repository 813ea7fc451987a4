use vstd::prelude::*;
use vstd::string::StrSliceExecFns;

use crate::data::DataPoint;
use crate::data::SpecReading;
use crate::dates::parse_date;
use crate::dates::spec_parse_date;
use crate::dates::MAX_LOCAL_SECS;
use crate::dates::MIN_LOCAL_SECS;
use crate::error::kind_desc;
use crate::error::ErrorKind;
use crate::error::SensorError;
use crate::text::find_from;
use crate::text::is_float_str;
use crate::text::is_float_text;
use crate::text::scan_for;
use crate::text::strip_quotes;
use crate::text::trim_quotes;
use crate::tz::chosen_tz_name;
use crate::tz::lookup_local;
use crate::tz::resolve_timezone;
use crate::tz::tz_known;
use crate::tz::tz_local_map;
use crate::tz::Timezone;
use crate::tz::TzMapping;

verus! {

/// The exact header line of a file whose temperatures are in Celsius.
pub open spec fn celsius_header() -> Seq<char> {
    "\"Timestamp\",\"Temperature (°C)\",\"Relative Humidity (%)\""@
}

/// The exact header line of a file whose temperatures are in Fahrenheit.
pub open spec fn fahrenheit_header() -> Seq<char> {
    "\"Timestamp\",\"Temperature (°F)\",\"Relative Humidity (%)\""@
}

/// The unit a header line declares: `Some(true)` for Celsius,
/// `Some(false)` for Fahrenheit, `None` for anything else.
pub open spec fn header_unit(h: Seq<char>) -> Option<bool> {
    if h == celsius_header() {
        Some(true)
    } else if h == fahrenheit_header() {
        Some(false)
    } else {
        None
    }
}

/// Classify the header line: `true` when it declares Celsius, `false`
/// when Fahrenheit; any other first line is an invalid-header error that
/// carries the offending text.
pub fn parse_header(header: &str) -> (r: Result<bool, SensorError>)
    ensures
        r is Ok <==> header_unit(header@) is Some,
        r matches Ok(c) ==> header_unit(header@) == Some(c),
        r matches Err(e) ==> e.kind == ErrorKind::InvalidHeader && e.line == Some(1usize) && (
        e.desc matches Some(d) && d@ == header@),
{
    let h = header.to_owned();
    if h == "\"Timestamp\",\"Temperature (°C)\",\"Relative Humidity (%)\"".to_owned() {
        Ok(true)
    } else if h == "\"Timestamp\",\"Temperature (°F)\",\"Relative Humidity (%)\"".to_owned() {
        Ok(false)
    } else {
        Err(SensorError::with_desc(ErrorKind::InvalidHeader, Some(1), header.to_owned()))
    }
}

/// What one data line means.
pub ghost enum LineOut {
    /// The line is blank.
    LineEmpty,
    /// The line is a reading; its local timestamp is naive seconds.
    LineData(SpecReading),
    /// The line is malformed in the way the kind says.
    LineFail(ErrorKind),
}

/// The meaning of one data line: blank, a reading, or a classified
/// failure.  The first comma-separated field (quotes stripped) must be a
/// date of the fixed pattern; the second must read as a number; the third
/// likewise when the file carries humidity; anything beyond is ignored.
pub open spec fn spec_line(line: Seq<char>, with_humidity: bool) -> LineOut {
    if line.len() == 0 {
        LineOut::LineEmpty
    } else {
        let c1 = find_from(line, 0, ',');
        let dt = trim_quotes(line.subrange(0, c1));
        if spec_parse_date(dt) is None {
            LineOut::LineFail(ErrorKind::DateParseError)
        } else if c1 == line.len() {
            LineOut::LineFail(ErrorKind::TemperatureParseError)
        } else {
            let ts = spec_parse_date(dt)->Some_0;
            let c2 = find_from(line, c1 + 1, ',');
            let temp = trim_quotes(line.subrange(c1 + 1, c2));
            if !is_float_text(temp) {
                LineOut::LineFail(ErrorKind::TemperatureParseError)
            } else if !with_humidity {
                LineOut::LineData(SpecReading { timestamp: ts, temperature: temp, humidity: None })
            } else if c2 == line.len() {
                LineOut::LineFail(ErrorKind::HumidityParseError)
            } else {
                let c3 = find_from(line, c2 + 1, ',');
                let hum = trim_quotes(line.subrange(c2 + 1, c3));
                if !is_float_text(hum) {
                    LineOut::LineFail(ErrorKind::HumidityParseError)
                } else {
                    LineOut::LineData(
                        SpecReading { timestamp: ts, temperature: temp, humidity: Some(hum) },
                    )
                }
            }
        }
    }
}

/// The reading a good data line denotes.
pub open spec fn reading_of(line: Seq<char>, with_humidity: bool) -> SpecReading {
    spec_line(line, with_humidity)->LineData_0
}

/// The classification a bad data line earns: a blank line is an
/// unexpected-empty-line error, a malformed one keeps its own kind.
pub open spec fn row_fail_kind(line: Seq<char>, with_humidity: bool) -> ErrorKind {
    match spec_line(line, with_humidity) {
        LineOut::LineEmpty => ErrorKind::UnexpectedEmptyLine,
        LineOut::LineFail(k) => k,
        LineOut::LineData(_) => arbitrary(),
    }
}

/// Parse one data line into an optional reading: `Ok(None)` for a blank
/// line, otherwise the reading, or the kind of the first malformed field.
pub fn parse_line(line: &str, with_humidity: bool) -> (r: Result<Option<DataPoint>, ErrorKind>)
    ensures
        match spec_line(line@, with_humidity) {
            LineOut::LineEmpty => r matches Ok(None),
            LineOut::LineData(sr) => r matches Ok(Some(dp)) && dp@ == sr,
            LineOut::LineFail(k) => r matches Err(k2) && k2 == k,
        },
        r matches Ok(Some(dp)) ==> MIN_LOCAL_SECS <= dp.timestamp <= MAX_LOCAL_SECS,
{
    let n = line.unicode_len();
    if n == 0 {
        return Ok(None);
    }
    let c1 = scan_for(line, 0, ',');
    let dt = strip_quotes(line.substring_char(0, c1));
    let ts = match parse_date(dt) {
        Some(t) => t,
        None => { return Err(ErrorKind::DateParseError) },
    };
    if c1 == n {
        return Err(ErrorKind::TemperatureParseError);
    }
    let c2 = scan_for(line, c1 + 1, ',');
    let temp = strip_quotes(line.substring_char(c1 + 1, c2));
    if !is_float_str(temp) {
        return Err(ErrorKind::TemperatureParseError);
    }
    let temperature = temp.to_owned();
    if !with_humidity {
        return Ok(Some(DataPoint { timestamp: ts, temperature, humidity: None }));
    }
    if c2 == n {
        return Err(ErrorKind::HumidityParseError);
    }
    let c3 = scan_for(line, c2 + 1, ',');
    let hum = strip_quotes(line.substring_char(c2 + 1, c3));
    if !is_float_str(hum) {
        return Err(ErrorKind::HumidityParseError);
    }
    Ok(Some(DataPoint { timestamp: ts, temperature, humidity: Some(hum.to_owned()) }))
}

/// What the first pass returns.  On success: the 1-based line number and
/// the reading of every data row, in file order.  On failure: the first
/// bad row's classification and line number.
pub open spec fn first_post(
    ld: Seq<Seq<char>>,
    end: int,
    with_humidity: bool,
    r: Result<(Vec<usize>, Vec<DataPoint>), SensorError>,
) -> bool {
    match r {
        Ok((ls, ps)) => {
            &&& forall|i: int|
                1 <= i < end ==> spec_line(#[trigger] ld[i], with_humidity) is LineData
            &&& ls@.len() == end - 1
            &&& ps@.len() == end - 1
            &&& forall|j: int| 0 <= j < end - 1 ==> #[trigger] ls@[j] == j + 2
            &&& forall|j: int|
                0 <= j < end - 1 ==> (#[trigger] ps@[j])@ == reading_of(ld[j + 1], with_humidity)
            &&& forall|j: int|
                0 <= j < end - 1 ==> MIN_LOCAL_SECS <= (#[trigger] ps@[j]).timestamp
                    <= MAX_LOCAL_SECS
        },
        Err(e) => exists|i: int|
            {
                &&& 1 <= i < end
                &&& !(spec_line(#[trigger] ld[i], with_humidity) is LineData)
                &&& forall|k: int|
                    1 <= k < i ==> spec_line(#[trigger] ld[k], with_humidity) is LineData
                &&& e.kind == row_fail_kind(ld[i], with_humidity)
                &&& e.line == Some((i + 1) as usize)
                &&& e.desc matches Some(d) && d@ == kind_desc(e.kind)
            },
    }
}

/// First pass: parse every data row (the lines at indices `1..end`),
/// pairing each reading with its 1-based source line number.
pub fn first_pass(lines: &Vec<String>, end: usize, with_humidity: bool) -> (r: Result<
    (Vec<usize>, Vec<DataPoint>),
    SensorError,
>)
    requires
        1 <= end <= lines@.len(),
    ensures
        first_post(lines.deep_view(), end as int, with_humidity, r),
{
    let ghost ld = lines.deep_view();
    let mut linenos: Vec<usize> = Vec::new();
    let mut points: Vec<DataPoint> = Vec::new();
    let mut i: usize = 1;
    while i < end
        invariant
            1 <= i <= end <= lines@.len(),
            ld == lines.deep_view(),
            linenos@.len() == i - 1,
            points@.len() == i - 1,
            forall|k: int| 1 <= k < i ==> spec_line(#[trigger] ld[k], with_humidity) is LineData,
            forall|j: int| 0 <= j < i - 1 ==> #[trigger] linenos@[j] == j + 2,
            forall|j: int|
                0 <= j < i - 1 ==> (#[trigger] points@[j])@ == reading_of(ld[j + 1], with_humidity),
            forall|j: int|
                0 <= j < i - 1 ==> MIN_LOCAL_SECS <= (#[trigger] points@[j]).timestamp
                    <= MAX_LOCAL_SECS,
        decreases end - i,
    {
        proof {
            assert(ld[i as int] == lines@[i as int]@);
        }
        match parse_line(lines[i].as_str(), with_humidity) {
            Ok(Some(dp)) => {
                linenos.push(i + 1);
                points.push(dp);
            },
            Ok(None) => {
                return Err(
                    SensorError::from_kind(ErrorKind::UnexpectedEmptyLine, Some(i + 1)),
                );
            },
            Err(k) => {
                return Err(SensorError::from_kind(k, Some(i + 1)));
            },
        }
        i += 1;
    }
    Ok((linenos, points))
}

/// The mathematical content of a sequence of readings.
pub open spec fn views_of(ps: Seq<DataPoint>) -> Seq<SpecReading> {
    Seq::new(ps.len(), |i: int| ps[i]@)
}

/// A copy of an owned string, by value.
fn clone_string(s: &String) -> (r: String)
    ensures
        r == *s,
{
    s.clone()
}

/// A copy of an optional owned string, by value.
fn clone_opt_string(o: &Option<String>) -> (r: Option<String>)
    ensures
        r == *o,
{
    match o {
        Some(s) => Some(clone_string(s)),
        None => None,
    }
}

/// The UTC instant reading `i` resolves to under the zone called
/// `tzname`, or nothing when it cannot be resolved.
///
/// A unique mapping is used as it stands, and a wall-clock time inside a
/// spring-forward gap resolves to nothing.  An ambiguous wall-clock time
/// (the hour a fall-back transition repeats) is settled by the reading
/// sixty positions earlier — nominally one hour of samples: when that
/// earlier reading maps uniquely, reading `i` still lies in the first
/// occurrence of the repeated hour and takes the earlier instant; when
/// the earlier reading is itself ambiguous, reading `i` lies in the
/// second occurrence and takes the later instant.  A file that begins
/// inside a fall-back window (fewer than sixty prior readings), or whose
/// look-back reading falls in a gap, resolves to nothing.
pub open spec fn spec_resolve(ps: Seq<SpecReading>, tzname: Seq<char>, i: int) -> Option<int> {
    match tz_local_map(tzname, ps[i].timestamp) {
        TzMapping::Gap => None,
        TzMapping::Single(u) => Some(u as int),
        TzMapping::Ambiguous(early, late) => {
            if i < 60 {
                None
            } else {
                match tz_local_map(tzname, ps[i - 60].timestamp) {
                    TzMapping::Gap => None,
                    TzMapping::Single(u) => Some(early as int),
                    TzMapping::Ambiguous(a, b) => Some(late as int),
                }
            }
        },
    }
}

/// Every reading resolves to a UTC instant.
pub open spec fn all_resolve(ps: Seq<SpecReading>, tzname: Seq<char>) -> bool {
    forall|i: int| 0 <= i < ps.len() ==> #[trigger] spec_resolve(ps, tzname, i) is Some
}

/// What the second pass returns.  On success: the same line numbers, and
/// each reading with its local timestamp replaced by the UTC instant it
/// resolves to.  On failure: a conversion error naming the line of the
/// first reading that does not resolve.
pub open spec fn second_post(
    ls: Seq<usize>,
    ps: Seq<SpecReading>,
    tzname: Seq<char>,
    r: Result<(Vec<usize>, Vec<DataPoint>), SensorError>,
) -> bool {
    match r {
        Ok((ls2, ps2)) => {
            &&& all_resolve(ps, tzname)
            &&& ls2@ == ls
            &&& ps2@.len() == ps.len()
            &&& forall|i: int|
                0 <= i < ps.len() ==> {
                    let v = (#[trigger] ps2@[i])@;
                    &&& Some(v.timestamp) == spec_resolve(ps, tzname, i)
                    &&& v.temperature == ps[i].temperature
                    &&& v.humidity == ps[i].humidity
                }
        },
        Err(e) => exists|i: int|
            #![trigger spec_resolve(ps, tzname, i)]
            {
                &&& 0 <= i < ps.len()
                &&& spec_resolve(ps, tzname, i) is None
                &&& forall|k: int| 0 <= k < i ==> #[trigger] spec_resolve(ps, tzname, k) is Some
                &&& e.kind == ErrorKind::TimezoneConversionError
                &&& i < ls.len() && e.line == Some(ls[i])
                &&& e.desc matches Some(d) && d@ == kind_desc(e.kind)
            },
    }
}

/// Resolve one reading's local timestamp to a UTC instant, by the rule
/// `spec_resolve` states: unique mappings stand, a fall-back ambiguity is
/// settled by the reading sixty positions earlier, and everything else is
/// unresolvable.
pub fn resolve_one(points: &Vec<DataPoint>, tz: &Timezone, i: usize) -> (r: Option<i64>)
    requires
        i < points@.len(),
        forall|k: int|
            0 <= k < points@.len() ==> MIN_LOCAL_SECS <= (#[trigger] points@[k]).timestamp
                <= MAX_LOCAL_SECS,
    ensures
        match r {
            Some(u) => spec_resolve(views_of(points@), tz@, i as int) == Some(u as int),
            None => spec_resolve(views_of(points@), tz@, i as int) is None,
        },
{
    let ghost ps = views_of(points@);
    proof {
        assert(ps[i as int] == points@[i as int]@);
    }
    match lookup_local(tz, points[i].timestamp) {
        TzMapping::Single(u) => Some(u),
        TzMapping::Gap => None,
        TzMapping::Ambiguous(early, late) => {
            if i < 60 {
                None
            } else {
                proof {
                    assert(ps[i - 60] == points@[i - 60]@);
                }
                match lookup_local(tz, points[i - 60].timestamp) {
                    TzMapping::Single(_) => Some(early),
                    TzMapping::Ambiguous(_, _) => Some(late),
                    TzMapping::Gap => None,
                }
            }
        },
    }
}

/// Second pass: convert each reading's naive local timestamp to the UTC
/// instant it resolves to, settling fall-back ambiguity by the reading
/// sixty positions earlier.
#[verifier::rlimit(30)]
pub fn second_pass(linenos: Vec<usize>, points: Vec<DataPoint>, tz: &Timezone) -> (r: Result<
    (Vec<usize>, Vec<DataPoint>),
    SensorError,
>)
    requires
        linenos@.len() == points@.len(),
        forall|i: int|
            0 <= i < points@.len() ==> MIN_LOCAL_SECS <= (#[trigger] points@[i]).timestamp
                <= MAX_LOCAL_SECS,
    ensures
        second_post(linenos@, views_of(points@), tz@, r),
{
    let ghost ps = views_of(points@);
    let n = points.len();
    let mut out: Vec<DataPoint> = Vec::new();
    let mut i: usize = 0;
    while i < n
        invariant
            n == points@.len(),
            linenos@.len() == n,
            ps == views_of(points@),
            forall|k: int|
                0 <= k < n ==> MIN_LOCAL_SECS <= (#[trigger] points@[k]).timestamp
                    <= MAX_LOCAL_SECS,
            i <= n,
            out@.len() == i,
            forall|k: int| 0 <= k < i ==> #[trigger] spec_resolve(ps, tz@, k) is Some,
            forall|k: int|
                0 <= k < i ==> {
                    let v = (#[trigger] out@[k])@;
                    &&& Some(v.timestamp) == spec_resolve(ps, tz@, k)
                    &&& v.temperature == ps[k].temperature
                    &&& v.humidity == ps[k].humidity
                },
        decreases n - i,
    {
        match resolve_one(&points, tz, i) {
            Some(utc) => {
                let dp = DataPoint {
                    timestamp: utc,
                    temperature: clone_string(&points[i].temperature),
                    humidity: clone_opt_string(&points[i].humidity),
                };
                proof {
                    assert(ps[i as int] == points@[i as int]@);
                }
                out.push(dp);
            },
            None => {
                let e = SensorError::from_kind(
                    ErrorKind::TimezoneConversionError,
                    Some(linenos[i]),
                );
                proof {
                    assert(spec_resolve(ps, tz@, i as int) is None);
                }
                return Err(e);
            },
        }
        i += 1;
    }
    Ok((linenos, out))
}

/// Consecutive readings are exactly one minute apart.
pub open spec fn continuous(ps: Seq<SpecReading>) -> bool {
    forall|i: int| 1 <= i < ps.len() ==> (#[trigger] ps[i]).timestamp == ps[i - 1].timestamp + 60
}

/// What the third pass returns.  On success the readings pass through
/// unchanged, their line numbers dropped; the first pair of readings not
/// exactly sixty seconds apart is a continuity error naming the second
/// reading's line and both timestamps.
pub open spec fn third_post(
    ls: Seq<usize>,
    ps: Seq<SpecReading>,
    r: Result<Vec<DataPoint>, SensorError>,
) -> bool {
    match r {
        Ok(v) => {
            &&& continuous(ps)
            &&& v@.len() == ps.len()
            &&& forall|i: int| 0 <= i < ps.len() ==> (#[trigger] v@[i])@ == ps[i]
        },
        Err(e) => exists|i: int|
            #![trigger ps[i]]
            {
                &&& 1 <= i < ps.len()
                &&& ps[i].timestamp != ps[i - 1].timestamp + 60
                &&& forall|k: int|
                    1 <= k < i ==> (#[trigger] ps[k]).timestamp == ps[k - 1].timestamp + 60
                &&& e.kind matches ErrorKind::ContinuityError { prev_utc, cur_utc }
                    && prev_utc as int == ps[i - 1].timestamp && cur_utc as int == ps[i].timestamp
                &&& i < ls.len() && e.line == Some(ls[i])
                &&& e.desc matches Some(d) && d@ == kind_desc(e.kind)
            },
    }
}

/// Third pass: verify that consecutive UTC timestamps are exactly sixty
/// seconds apart, and drop the line numbers.
#[verifier::rlimit(30)]
pub fn third_pass(linenos: Vec<usize>, points: Vec<DataPoint>) -> (r: Result<
    Vec<DataPoint>,
    SensorError,
>)
    requires
        linenos@.len() == points@.len(),
    ensures
        third_post(linenos@, views_of(points@), r),
{
    let ghost ps = views_of(points@);
    let n = points.len();
    let mut i: usize = 1;
    while i < n
        invariant
            n == points@.len(),
            linenos@.len() == n,
            ps == views_of(points@),
            1 <= i <= n || (n == 0 && i == 1),
            forall|k: int|
                1 <= k < i ==> (#[trigger] points@[k]).timestamp == points@[k
                    - 1].timestamp as int + 60,
        decreases n - i,
    {
        let prev = points[i - 1].timestamp;
        let cur = points[i].timestamp;
        if !(prev <= i64::MAX - 60 && cur == prev + 60) {
            let e = SensorError::from_kind(
                ErrorKind::ContinuityError { prev_utc: prev, cur_utc: cur },
                Some(linenos[i]),
            );
            proof {
                assert(ps[i as int].timestamp != ps[i - 1].timestamp + 60);
                assert forall|k: int| 1 <= k < i implies (#[trigger] ps[k]).timestamp == ps[k
                    - 1].timestamp + 60 by {
                    assert(ps[k] == points@[k]@);
                    assert(ps[k - 1] == points@[k - 1]@);
                }
                assert(third_post(linenos@, ps, Err(e)));
            }
            return Err(e);
        }
        i += 1;
    }
    proof {
        assert forall|k: int| 1 <= k < ps.len() implies (#[trigger] ps[k]).timestamp == ps[k
            - 1].timestamp + 60 by {
            assert(ps[k] == points@[k]@);
            assert(ps[k - 1] == points@[k - 1]@);
        }
    }
    Ok(points)
}

/// Where the data rows stop: a single trailing blank line (the file's
/// final newline) is ignored.
pub open spec fn data_end(ld: Seq<Seq<char>>) -> int {
    if ld.len() > 1 && ld[ld.len() - 1].len() == 0 {
        ld.len() - 1
    } else {
        ld.len() as int
    }
}

/// Every data row is a good reading.
pub open spec fn rows_parse(ld: Seq<Seq<char>>, end: int, with_humidity: bool) -> bool {
    forall|i: int| 1 <= i < end ==> spec_line(#[trigger] ld[i], with_humidity) is LineData
}

/// The readings the data rows denote, in file order.
pub open spec fn row_readings(ld: Seq<Seq<char>>, end: int, with_humidity: bool) -> Seq<
    SpecReading,
> {
    Seq::new((end - 1) as nat, |j: int| reading_of(ld[j + 1], with_humidity))
}

/// The readings with each local timestamp replaced by the UTC instant it
/// resolves to; meaningful at an index only when that reading resolves.
pub open spec fn resolved_readings(rs: Seq<SpecReading>, name: Seq<char>) -> Seq<SpecReading> {
    Seq::new(
        rs.len(),
        |i: int|
            SpecReading {
                timestamp: spec_resolve(rs, name, i)->Some_0,
                temperature: rs[i].temperature,
                humidity: rs[i].humidity,
            },
    )
}

/// The error carries the stock description of its classification.
pub open spec fn desc_is_stock(e: SensorError) -> bool {
    e.desc matches Some(d) && d@ == kind_desc(e.kind)
}

/// What `parse` returns, for every input.
///
/// On success the file had a recognized header, at least one data row,
/// a known timezone, every row parsed, every local timestamp resolved to
/// UTC, and the resolved instants climb by exactly sixty seconds; the
/// result holds one normalized reading per data row, in file order.  On
/// failure the error's classification says which stage failed first, its
/// line number points at the first offending row, and the stages are
/// tried in the fixed order header, data presence, timezone, row parse,
/// timezone conversion, continuity.
pub open spec fn parse_post(
    ld: Seq<Seq<char>>,
    tz_override: Option<&str>,
    with_humidity: bool,
    r: Result<(bool, Vec<DataPoint>), SensorError>,
) -> bool {
    let name = chosen_tz_name(tz_override);
    let end = data_end(ld);
    let rs = row_readings(ld, end, with_humidity);
    let nr = resolved_readings(rs, name);
    match r {
        Ok((celsius, v)) => {
            &&& ld.len() > 0
            &&& header_unit(ld[0]) == Some(celsius)
            &&& end > 1
            &&& tz_known(name)
            &&& rows_parse(ld, end, with_humidity)
            &&& all_resolve(rs, name)
            &&& continuous(nr)
            &&& v@.len() == end - 1
            &&& forall|j: int| 0 <= j < end - 1 ==> (#[trigger] v@[j])@ == nr[j]
        },
        Err(e) => parse_post_err(ld, end, with_humidity, name, rs, nr, e),
    }
}

/// Parse a sensor log, given as its lines in file order.
///
/// The first line must be one of the two recognized headers; each further
/// line is one reading per minute; a single trailing blank line is
/// ignored.  Local wall-clock timestamps are converted to UTC under the
/// zone `tz_override` names (or the fixed default), and the readings must
/// be exactly one minute apart.  On success the flag says whether the
/// file's temperatures are in Celsius (`true`) or Fahrenheit (`false`);
/// the readings keep the file's unit.
pub fn parse(lines: &Vec<String>, tz_override: Option<&str>, with_humidity: bool) -> (r: Result<
    (bool, Vec<DataPoint>),
    SensorError,
>)
    ensures
        parse_post(lines.deep_view(), tz_override, with_humidity, r),
{
    let ghost ld = lines.deep_view();
    let ghost name = chosen_tz_name(tz_override);
    let n = lines.len();
    if n == 0 {
        return Err(SensorError::from_kind(ErrorKind::EmptyFile, None));
    }
    proof {
        assert(ld[0] == lines@[0]@);
    }
    let celsius = match parse_header(lines[0].as_str()) {
        Ok(c) => c,
        Err(e) => { return Err(e) },
    };
    let mut end = n;
    if end > 1 && lines[end - 1].as_str().is_empty() {
        proof {
            assert(ld[n - 1] == lines@[n - 1]@);
        }
        end = end - 1;
    }
    proof {
        assert(ld[ld.len() - 1] == lines@[n - 1]@);
        assert(end as int == data_end(ld));
    }
    if end == 1 {
        return Err(SensorError::from_kind(ErrorKind::NoData, None));
    }
    let tz = match resolve_timezone(tz_override) {
        Ok(t) => t,
        Err(e) => { return Err(e) },
    };
    let (linenos, points) = match first_pass(lines, end, with_humidity) {
        Ok(p) => p,
        Err(e) => { return Err(e) },
    };
    let ghost rs = row_readings(ld, end as int, with_humidity);
    proof {
        assert forall|j: int| 0 <= j < end - 1 implies views_of(points@)[j] == rs[j] by {
            assert(points@[j]@ == reading_of(ld[j + 1], with_humidity));
        }
        assert(views_of(points@) =~= rs);
    }
    let (linenos2, out) = match second_pass(linenos, points, &tz) {
        Ok(p) => p,
        Err(e) => { return Err(e) },
    };
    let ghost nr = resolved_readings(rs, name);
    proof {
        assert forall|j: int| 0 <= j < rs.len() implies views_of(out@)[j] == nr[j] by {
            assert(views_of(out@)[j] == out@[j]@);
            assert(Some(out@[j]@.timestamp) == spec_resolve(rs, name, j));
            assert(views_of(out@)[j] =~= nr[j]);
        }
        assert(views_of(out@) =~= nr);
    }
    let v = match third_pass(linenos2, out) {
        Ok(v) => v,
        Err(e) => { return Err(e) },
    };
    Ok((celsius, v))
}

/// A successful parse has one output per data row, and the outputs'
/// UTC timestamps climb by exactly sixty seconds.
pub proof fn lemma_output_cadence(
    ld: Seq<Seq<char>>,
    tz_override: Option<&str>,
    with_humidity: bool,
    celsius: bool,
    v: Vec<DataPoint>,
)
    requires
        parse_post(ld, tz_override, with_humidity, Ok((celsius, v))),
    ensures
        v@.len() == data_end(ld) - 1,
        forall|i: int|
            1 <= i < v@.len() ==> (#[trigger] v@[i])@.timestamp == v@[i - 1]@.timestamp + 60,
{
    let name = chosen_tz_name(tz_override);
    let end = data_end(ld);
    let nr = resolved_readings(row_readings(ld, end, with_humidity), name);
    assert forall|i: int|
        1 <= i < v@.len() implies (#[trigger] v@[i])@.timestamp == v@[i - 1]@.timestamp + 60 by {
        assert(v@[i]@ == nr[i]);
        assert(v@[i - 1]@ == nr[i - 1]);
        assert(nr[i].timestamp == nr[i - 1].timestamp + 60);
    }
}

/// The fall-back rule: an ambiguous wall-clock time takes the earlier
/// instant while the reading an hour of samples back still maps
/// uniquely, and the later instant once that reading is itself
/// ambiguous.
pub proof fn lemma_fall_back_rule(
    ps: Seq<SpecReading>,
    name: Seq<char>,
    i: int,
    early: i64,
    late: i64,
)
    requires
        60 <= i < ps.len(),
        tz_local_map(name, ps[i].timestamp) == TzMapping::Ambiguous(early, late),
    ensures
        tz_local_map(name, ps[i - 60].timestamp) is Single ==> spec_resolve(ps, name, i) == Some(
            early as int,
        ),
        tz_local_map(name, ps[i - 60].timestamp) is Ambiguous ==> spec_resolve(ps, name, i)
            == Some(late as int),
        tz_local_map(name, ps[i - 60].timestamp) is Gap ==> spec_resolve(ps, name, i) is None,
{
}

/// A wall-clock time inside a spring-forward gap never resolves: the
/// second pass must fail, with a timezone-conversion error.
pub proof fn lemma_spring_forward_gap(
    ls: Seq<usize>,
    ps: Seq<SpecReading>,
    name: Seq<char>,
    i: int,
    r: Result<(Vec<usize>, Vec<DataPoint>), SensorError>,
)
    requires
        0 <= i < ps.len(),
        tz_local_map(name, ps[i].timestamp) is Gap,
        second_post(ls, ps, name, r),
    ensures
        r is Err,
        r->Err_0.kind == ErrorKind::TimezoneConversionError,
{
    assert(spec_resolve(ps, name, i) is None);
}

/// Missing-sample detection: drop any single interior reading from a
/// continuous sequence, and the third pass must fail with a continuity
/// error naming the line of the reading just after the gap and the two
/// instants around it.
pub proof fn lemma_missing_sample(
    ls: Seq<usize>,
    ps: Seq<SpecReading>,
    k: int,
    r: Result<Vec<DataPoint>, SensorError>,
)
    requires
        ls.len() == ps.len(),
        continuous(ps),
        1 <= k < ps.len() - 1,
        third_post(ls.remove(k), ps.remove(k), r),
    ensures
        r is Err,
        r->Err_0.kind matches ErrorKind::ContinuityError { prev_utc, cur_utc } && prev_utc as int
            == ps[k - 1].timestamp && cur_utc as int == ps[k + 1].timestamp,
        r->Err_0.line == Some(ls[k + 1]),
{
    let qs = ps.remove(k);
    let qls = ls.remove(k);
    ps.remove_ensures(k);
    ls.remove_ensures(k);
    assert(qs[k] == ps[k + 1]);
    assert(qs[k - 1] == ps[k - 1]);
    assert(ps[k + 1].timestamp == ps[k].timestamp + 60);
    assert(ps[k].timestamp == ps[k - 1].timestamp + 60);
    assert(qs[k].timestamp != qs[k - 1].timestamp + 60);
    match r {
        Ok(_) => {
            assert(false);
        },
        Err(e) => {
            let j = choose|j: int|
                #![trigger qs[j]]
                {
                    &&& 1 <= j < qs.len()
                    &&& qs[j].timestamp != qs[j - 1].timestamp + 60
                    &&& forall|t: int|
                        1 <= t < j ==> (#[trigger] qs[t]).timestamp == qs[t - 1].timestamp + 60
                    &&& e.kind matches ErrorKind::ContinuityError { prev_utc, cur_utc }
                        && prev_utc as int == qs[j - 1].timestamp && cur_utc as int
                        == qs[j].timestamp
                    &&& j < qls.len() && e.line == Some(qls[j])
                    &&& e.desc matches Some(d) && d@ == kind_desc(e.kind)
                };
            if j < k {
                assert(qs[j] == ps[j]);
                assert(qs[j - 1] == ps[j - 1]);
                assert(ps[j].timestamp == ps[j - 1].timestamp + 60);
                assert(false);
            }
            if j > k {
                assert(qs[k].timestamp == qs[k - 1].timestamp + 60);
                assert(false);
            }
            assert(j == k);
            assert(qls[k] == ls[k + 1]);
        },
    }
}

/// No reading's wall-clock time lies near a DST transition: every one
/// maps to a single UTC instant.
pub open spec fn no_transition(rs: Seq<SpecReading>, name: Seq<char>) -> bool {
    forall|j: int|
        0 <= j < rs.len() ==> tz_local_map(name, (#[trigger] rs[j]).timestamp) is Single
}

/// Missing-sample detection at the file level: away from any DST
/// transition, removing any single interior data row from a file that
/// parses makes the parse fail with a continuity error that cites the
/// line now holding the reading after the gap, and the two instants
/// around the removed one.
#[verifier::rlimit(50)]
pub proof fn lemma_missing_row(
    ld: Seq<Seq<char>>,
    tz_override: Option<&str>,
    with_humidity: bool,
    celsius: bool,
    v: Vec<DataPoint>,
    k: int,
    r2: Result<(bool, Vec<DataPoint>), SensorError>,
)
    requires
        parse_post(ld, tz_override, with_humidity, Ok((celsius, v))),
        no_transition(
            row_readings(ld, data_end(ld), with_humidity),
            chosen_tz_name(tz_override),
        ),
        2 <= k <= data_end(ld) - 2,
        parse_post(ld.remove(k), tz_override, with_humidity, r2),
    ensures
        r2 is Err,
        r2->Err_0.line == Some((k + 1) as usize),
        r2->Err_0.kind matches ErrorKind::ContinuityError { prev_utc, cur_utc } && prev_utc as int
            == v@[k - 2]@.timestamp && cur_utc as int == v@[k]@.timestamp,
{
    let name = chosen_tz_name(tz_override);
    let end = data_end(ld);
    let rs = row_readings(ld, end, with_humidity);
    let nr = resolved_readings(rs, name);
    let ld2 = ld.remove(k);
    ld.remove_ensures(k);
    // the shortened file keeps its header and its shape
    assert(ld2[0] == ld[0]);
    assert(ld2.len() == ld.len() - 1);
    let end2 = data_end(ld2);
    assert(ld2[ld2.len() - 1] == ld[ld.len() - 1]);
    assert(end2 == end - 1);
    let rs2 = row_readings(ld2, end2, with_humidity);
    let nr2 = resolved_readings(rs2, name);
    // each remaining row keeps its reading, shifted past the removed one
    assert forall|j: int| 0 <= j < end2 - 1 implies #[trigger] rs2[j] == (if j <= k - 2 {
        rs[j]
    } else {
        rs[j + 1]
    }) by {
        if j <= k - 2 {
            assert(ld2[j + 1] == ld[j + 1]);
        } else {
            assert(ld2[j + 1] == ld[j + 2]);
        }
    }
    assert(rows_parse(ld2, end2, with_humidity)) by {
        assert forall|i: int|
            1 <= i < end2 implies spec_line(#[trigger] ld2[i], with_humidity) is LineData by {
            if i < k {
                assert(ld2[i] == ld[i]);
                assert(spec_line(ld[i], with_humidity) is LineData);
            } else {
                assert(ld2[i] == ld[i + 1]);
                assert(spec_line(ld[i + 1], with_humidity) is LineData);
            }
        }
    }
    // away from a transition a reading resolves by itself, so every one
    // still resolves, to the instant it resolved to before
    assert forall|j: int| 0 <= j < rs2.len() implies #[trigger] spec_resolve(rs2, name, j)
        == spec_resolve(rs, name, if j <= k - 2 {
        j
    } else {
        j + 1
    }) by {
        let j0 = if j <= k - 2 {
            j
        } else {
            j + 1
        };
        assert(rs2[j] == rs[j0]);
        assert(tz_local_map(name, rs[j0].timestamp) is Single);
    }
    assert(all_resolve(rs2, name));
    assert forall|j: int| 0 <= j < nr2.len() implies (#[trigger] nr2[j]).timestamp == (if j <= k
        - 2 {
        nr[j].timestamp
    } else {
        nr[j + 1].timestamp
    }) by {
        assert(spec_resolve(rs2, name, j) == spec_resolve(rs, name, if j <= k - 2 {
            j
        } else {
            j + 1
        }));
    }
    // around the removed reading the instants are now two minutes apart
    assert(nr[k].timestamp == nr[k - 1].timestamp + 60);
    assert(nr[k - 1].timestamp == nr[k - 2].timestamp + 60);
    assert(nr2[k - 1].timestamp == nr[k].timestamp);
    assert(nr2[k - 2].timestamp == nr[k - 2].timestamp);
    assert(nr2[k - 1].timestamp != nr2[k - 2].timestamp + 60);
    match r2 {
        Ok((c2, v2)) => {
            assert(continuous(nr2));
            assert(false);
        },
        Err(e) => {
            assert(parse_post_err(ld2, end2, with_humidity, name, rs2, nr2, e));
            match e.kind {
                ErrorKind::EmptyFile => {
                    assert(false);
                },
                ErrorKind::InvalidHeader => {
                    assert(false);
                },
                ErrorKind::NoData => {
                    assert(false);
                },
                ErrorKind::UnknownTimezone => {
                    assert(false);
                },
                ErrorKind::UnexpectedEmptyLine | ErrorKind::DateParseError
                    | ErrorKind::TemperatureParseError | ErrorKind::HumidityParseError => {
                    let i = choose|i: int|
                        #![trigger ld2[i]]
                        {
                            &&& 1 <= i < end2
                            &&& !(spec_line(ld2[i], with_humidity) is LineData)
                            &&& forall|t: int|
                                1 <= t < i ==> spec_line(
                                    #[trigger] ld2[t],
                                    with_humidity,
                                ) is LineData
                            &&& e.kind == row_fail_kind(ld2[i], with_humidity)
                            &&& e.line == Some((i + 1) as usize)
                        };
                    assert(spec_line(ld2[i], with_humidity) is LineData);
                    assert(false);
                },
                ErrorKind::TimezoneConversionError => {
                    let j = choose|j: int|
                        #![trigger spec_resolve(rs2, name, j)]
                        {
                            &&& 0 <= j < rs2.len()
                            &&& spec_resolve(rs2, name, j) is None
                            &&& forall|t: int|
                                0 <= t < j ==> #[trigger] spec_resolve(rs2, name, t) is Some
                            &&& e.line == Some((j + 2) as usize)
                        };
                    assert(spec_resolve(rs2, name, j) is Some);
                    assert(false);
                },
                ErrorKind::ContinuityError { prev_utc, cur_utc } => {
                    let j = choose|j: int|
                        #![trigger nr2[j]]
                        {
                            &&& 1 <= j < nr2.len()
                            &&& nr2[j].timestamp != nr2[j - 1].timestamp + 60
                            &&& forall|t: int|
                                1 <= t < j ==> (#[trigger] nr2[t]).timestamp == nr2[t
                                    - 1].timestamp + 60
                            &&& prev_utc as int == nr2[j - 1].timestamp
                            &&& cur_utc as int == nr2[j].timestamp
                            &&& e.line == Some((j + 2) as usize)
                        };
                    if j < k - 1 {
                        assert(nr2[j].timestamp == nr[j].timestamp);
                        assert(nr2[j - 1].timestamp == nr[j - 1].timestamp);
                        assert(nr[j].timestamp == nr[j - 1].timestamp + 60);
                        assert(false);
                    }
                    if j > k - 1 {
                        assert(nr2[k - 1].timestamp == nr2[k - 2].timestamp + 60);
                        assert(false);
                    }
                    assert(j == k - 1);
                    assert(v@[k - 2]@ == nr[k - 2]);
                    assert(v@[k]@ == nr[k]);
                },
            }
        },
    }
}

/// A line means "blank" exactly when it has no characters.
proof fn lemma_line_empty_iff(l: Seq<char>, with_humidity: bool)
    ensures
        spec_line(l, with_humidity) is LineEmpty <==> l.len() == 0,
{
}

/// Header round-trip: two files whose data rows denote the same readings,
/// one under the Celsius header and one under the Fahrenheit header, are
/// treated identically.  Both parses succeed with the same normalized
/// readings — only the unit flag differs — or both fail with the same
/// classification on the same line.
pub proof fn lemma_header_round_trip(
    ldc: Seq<Seq<char>>,
    ldf: Seq<Seq<char>>,
    tz_override: Option<&str>,
    with_humidity: bool,
    rc: Result<(bool, Vec<DataPoint>), SensorError>,
    rf: Result<(bool, Vec<DataPoint>), SensorError>,
)
    requires
        ldc.len() == ldf.len(),
        ldc.len() >= 1,
        ldc[0] == celsius_header(),
        ldf[0] == fahrenheit_header(),
        forall|i: int|
            1 <= i < ldc.len() ==> spec_line(#[trigger] ldc[i], with_humidity) == spec_line(
                ldf[i],
                with_humidity,
            ),
        parse_post(ldc, tz_override, with_humidity, rc),
        parse_post(ldf, tz_override, with_humidity, rf),
    ensures
        match (rc, rf) {
            (Ok((cc, vc)), Ok((cf, vf))) => cc == true && cf == false && vc@.len() == vf@.len()
                && forall|j: int| 0 <= j < vc@.len() ==> (#[trigger] vc@[j])@ == vf@[j]@,
            (Err(ec), Err(ef)) => ec.kind == ef.kind && ec.line == ef.line,
            _ => false,
        },
{
    let name = chosen_tz_name(tz_override);
    let len = ldc.len() as int;
    // the two recognized headers differ, so each classifies as its own unit
    proof_header_units(ldc, ldf);
    // both files keep or drop their last line together
    if len > 1 {
        lemma_line_empty_iff(ldc[len - 1], with_humidity);
        lemma_line_empty_iff(ldf[len - 1], with_humidity);
        assert(spec_line(ldc[len - 1], with_humidity) == spec_line(ldf[len - 1], with_humidity));
    }
    let end = data_end(ldc);
    assert(data_end(ldf) == end);
    // the rows denote the same readings, so everything downstream agrees
    let rsc = row_readings(ldc, end, with_humidity);
    let rsf = row_readings(ldf, end, with_humidity);
    assert forall|j: int| 0 <= j < end - 1 implies rsc[j] == rsf[j] by {
        assert(spec_line(ldc[j + 1], with_humidity) == spec_line(ldf[j + 1], with_humidity));
    }
    assert(rsc =~= rsf);
    let nr = resolved_readings(rsc, name);
    assert(resolved_readings(rsf, name) == nr);
    match (rc, rf) {
        (Ok((cc, vc)), Ok((cf, vf))) => {
            assert(cc == true && cf == false);
            assert(vc@.len() == vf@.len());
            assert forall|j: int| 0 <= j < vc@.len() implies (#[trigger] vc@[j])@ == vf@[j]@ by {
                assert(vc@[j]@ == nr[j]);
                assert(vf@[j]@ == nr[j]);
            }
        },
        (Ok((cc, vc)), Err(ef)) => {
            proof_no_error_left(ldc, ldf, end, with_humidity, name, rsc, rsf, nr, ef);
        },
        (Err(ec), Ok((cf, vf))) => {
            assert forall|i: int|
                1 <= i < ldf.len() implies spec_line(#[trigger] ldf[i], with_humidity)
                == spec_line(ldc[i], with_humidity) by {
                assert(spec_line(ldc[i], with_humidity) == spec_line(ldf[i], with_humidity));
            }
            proof_no_error_left(ldf, ldc, end, with_humidity, name, rsf, rsc, nr, ec);
        },
        (Err(ec), Err(ef)) => {
            proof_errors_agree(ldc, ldf, end, with_humidity, name, rsc, rsf, nr, ec, ef);
        },
    }
}

/// The two recognized headers are distinct texts, so a file headed by
/// one classifies as that unit and not the other.
proof fn proof_header_units(ldc: Seq<Seq<char>>, ldf: Seq<Seq<char>>)
    requires
        ldc.len() >= 1,
        ldf.len() >= 1,
        ldc[0] == celsius_header(),
        ldf[0] == fahrenheit_header(),
    ensures
        header_unit(ldc[0]) == Some(true),
        header_unit(ldf[0]) == Some(false),
{
    reveal_strlit("\"Timestamp\",\"Temperature (°C)\",\"Relative Humidity (%)\"");
    reveal_strlit("\"Timestamp\",\"Temperature (°F)\",\"Relative Humidity (%)\"");
    assert(celsius_header()[27] != fahrenheit_header()[27]);
}

/// A parse that succeeds refutes every failure over the same rows: no
/// error whatsoever satisfies the failure contract.
#[verifier::rlimit(30)]
proof fn proof_no_error_left(
    ld_ok: Seq<Seq<char>>,
    ld_err: Seq<Seq<char>>,
    end: int,
    with_humidity: bool,
    name: Seq<char>,
    rs_ok: Seq<SpecReading>,
    rs_err: Seq<SpecReading>,
    nr: Seq<SpecReading>,
    e: SensorError,
)
    requires
        ld_ok.len() == ld_err.len() >= 1,
        header_unit(ld_ok[0]) is Some,
        header_unit(ld_err[0]) is Some,
        forall|i: int|
            1 <= i < ld_ok.len() ==> spec_line(#[trigger] ld_ok[i], with_humidity) == spec_line(
                ld_err[i],
                with_humidity,
            ),
        end == data_end(ld_ok),
        end == data_end(ld_err),
        rs_ok == row_readings(ld_ok, end, with_humidity),
        rs_err == row_readings(ld_err, end, with_humidity),
        rs_ok == rs_err,
        nr == resolved_readings(rs_ok, name),
        // what the successful parse guarantees
        end > 1,
        tz_known(name),
        rows_parse(ld_ok, end, with_humidity),
        all_resolve(rs_ok, name),
        continuous(nr),
    ensures
        !parse_post_err(
            ld_err,
            end,
            with_humidity,
            name,
            rs_err,
            resolved_readings(rs_err, name),
            e,
        ),
{
    if parse_post_err(
        ld_err,
        end,
        with_humidity,
        name,
        rs_err,
        resolved_readings(rs_err, name),
        e,
    ) {
        match e.kind {
            ErrorKind::EmptyFile => {
                assert(false);
            },
            ErrorKind::InvalidHeader => {
                assert(false);
            },
            ErrorKind::NoData => {
                assert(false);
            },
            ErrorKind::UnknownTimezone => {
                assert(false);
            },
            ErrorKind::UnexpectedEmptyLine | ErrorKind::DateParseError
                | ErrorKind::TemperatureParseError | ErrorKind::HumidityParseError => {
                let i = choose|i: int|
                    #![trigger ld_err[i]]
                    {
                        &&& 1 <= i < end
                        &&& !(spec_line(ld_err[i], with_humidity) is LineData)
                        &&& forall|k: int|
                            1 <= k < i ==> spec_line(
                                #[trigger] ld_err[k],
                                with_humidity,
                            ) is LineData
                        &&& e.kind == row_fail_kind(ld_err[i], with_humidity)
                        &&& e.line == Some((i + 1) as usize)
                    };
                assert(spec_line(ld_ok[i], with_humidity) is LineData);
                assert(false);
            },
            ErrorKind::TimezoneConversionError => {
                let j = choose|j: int|
                    #![trigger spec_resolve(rs_err, name, j)]
                    {
                        &&& 0 <= j < rs_err.len()
                        &&& spec_resolve(rs_err, name, j) is None
                        &&& forall|k: int|
                            0 <= k < j ==> #[trigger] spec_resolve(rs_err, name, k) is Some
                        &&& e.line == Some((j + 2) as usize)
                    };
                assert(spec_resolve(rs_ok, name, j) is Some);
                assert(false);
            },
            ErrorKind::ContinuityError { prev_utc, cur_utc } => {
                let nre = resolved_readings(rs_err, name);
                let j = choose|j: int|
                    #![trigger nre[j]]
                    {
                        &&& 1 <= j < nre.len()
                        &&& nre[j].timestamp != nre[j - 1].timestamp + 60
                        &&& forall|k: int|
                            1 <= k < j ==> (#[trigger] nre[k]).timestamp == nre[k - 1].timestamp
                                + 60
                        &&& prev_utc as int == nre[j - 1].timestamp
                        &&& cur_utc as int == nre[j].timestamp
                        &&& e.line == Some((j + 2) as usize)
                    };
                assert(nre == nr);
                assert(nr[j].timestamp == nr[j - 1].timestamp + 60);
                assert(false);
            },
        }
    }
}

/// The failure arm of `parse_post`, factored out so the laws can speak
/// of it for a given error.
pub open spec fn parse_post_err(
    ld: Seq<Seq<char>>,
    end: int,
    with_humidity: bool,
    name: Seq<char>,
    rs: Seq<SpecReading>,
    nr: Seq<SpecReading>,
    e: SensorError,
) -> bool {
    match e.kind {
        ErrorKind::EmptyFile => ld.len() == 0 && e.line is None && desc_is_stock(e),
        ErrorKind::InvalidHeader => ld.len() > 0 && header_unit(ld[0]) is None && e.line == Some(
            1usize,
        ) && (e.desc matches Some(d) && d@ == ld[0]),
        ErrorKind::NoData => ld.len() > 0 && header_unit(ld[0]) is Some && end == 1
            && e.line is None && desc_is_stock(e),
        ErrorKind::UnknownTimezone => ld.len() > 0 && header_unit(ld[0]) is Some && end > 1
            && !tz_known(name) && e.line is None && (e.desc matches Some(d) && d@ == name),
        ErrorKind::UnexpectedEmptyLine | ErrorKind::DateParseError
            | ErrorKind::TemperatureParseError | ErrorKind::HumidityParseError => {
            &&& ld.len() > 0 && header_unit(ld[0]) is Some && end > 1 && tz_known(name)
            &&& exists|i: int|
                #![trigger ld[i]]
                {
                    &&& 1 <= i < end
                    &&& !(spec_line(ld[i], with_humidity) is LineData)
                    &&& forall|k: int|
                        1 <= k < i ==> spec_line(#[trigger] ld[k], with_humidity) is LineData
                    &&& e.kind == row_fail_kind(ld[i], with_humidity)
                    &&& e.line == Some((i + 1) as usize)
                }
            &&& desc_is_stock(e)
        },
        ErrorKind::TimezoneConversionError => {
            &&& ld.len() > 0 && header_unit(ld[0]) is Some && end > 1 && tz_known(name)
            &&& rows_parse(ld, end, with_humidity)
            &&& exists|j: int|
                #![trigger spec_resolve(rs, name, j)]
                {
                    &&& 0 <= j < rs.len()
                    &&& spec_resolve(rs, name, j) is None
                    &&& forall|k: int| 0 <= k < j ==> #[trigger] spec_resolve(rs, name, k) is Some
                    &&& e.line == Some((j + 2) as usize)
                }
            &&& desc_is_stock(e)
        },
        ErrorKind::ContinuityError { prev_utc, cur_utc } => {
            &&& ld.len() > 0 && header_unit(ld[0]) is Some && end > 1 && tz_known(name)
            &&& rows_parse(ld, end, with_humidity)
            &&& all_resolve(rs, name)
            &&& exists|j: int|
                #![trigger nr[j]]
                {
                    &&& 1 <= j < nr.len()
                    &&& nr[j].timestamp != nr[j - 1].timestamp + 60
                    &&& forall|k: int|
                        1 <= k < j ==> (#[trigger] nr[k]).timestamp == nr[k - 1].timestamp + 60
                    &&& prev_utc as int == nr[j - 1].timestamp
                    &&& cur_utc as int == nr[j].timestamp
                    &&& e.line == Some((j + 2) as usize)
                }
            &&& desc_is_stock(e)
        },
    }
}

/// Both parses failed: the failures carry the same classification and
/// the same line.
#[verifier::rlimit(50)]
proof fn proof_errors_agree(
    ldc: Seq<Seq<char>>,
    ldf: Seq<Seq<char>>,
    end: int,
    with_humidity: bool,
    name: Seq<char>,
    rsc: Seq<SpecReading>,
    rsf: Seq<SpecReading>,
    nr: Seq<SpecReading>,
    ec: SensorError,
    ef: SensorError,
)
    requires
        ldc.len() == ldf.len() >= 1,
        header_unit(ldc[0]) is Some,
        header_unit(ldf[0]) is Some,
        forall|i: int|
            1 <= i < ldc.len() ==> spec_line(#[trigger] ldc[i], with_humidity) == spec_line(
                ldf[i],
                with_humidity,
            ),
        end == data_end(ldc),
        end == data_end(ldf),
        rsc == row_readings(ldc, end, with_humidity),
        rsf == row_readings(ldf, end, with_humidity),
        rsc == rsf,
        nr == resolved_readings(rsc, name),
        parse_post_err(ldc, end, with_humidity, name, rsc, nr, ec),
        parse_post_err(ldf, end, with_humidity, name, rsf, resolved_readings(rsf, name), ef),
    ensures
        ec.kind == ef.kind,
        ec.line == ef.line,
{
    assert(resolved_readings(rsf, name) == nr);
    // neither failure can be an empty file or a bad header here
    assert(!(ec.kind is EmptyFile) && !(ef.kind is EmptyFile));
    assert(!(ec.kind is InvalidHeader) && !(ef.kind is InvalidHeader));
    if ec.kind is NoData || ef.kind is NoData {
        // a file with no data rows fails the same way on both sides
        assert(end == 1);
        assert(ec.kind is NoData && ef.kind is NoData);
        assert(ec.line is None && ef.line is None);
    } else if ec.kind is UnknownTimezone || ef.kind is UnknownTimezone {
        assert(!tz_known(name));
        assert(ec.kind is UnknownTimezone && ef.kind is UnknownTimezone);
        assert(ec.line is None && ef.line is None);
    } else {
        // both failures concern the rows; find each side's witness row
        proof_row_errors_agree(ldc, ldf, end, with_humidity, name, rsc, rsf, nr, ec, ef);
    }
}

/// Both failures lie in the data rows (a bad row, an unresolvable
/// timestamp, or a continuity break): they name the same row and kind.
#[verifier::rlimit(50)]
proof fn proof_row_errors_agree(
    ldc: Seq<Seq<char>>,
    ldf: Seq<Seq<char>>,
    end: int,
    with_humidity: bool,
    name: Seq<char>,
    rsc: Seq<SpecReading>,
    rsf: Seq<SpecReading>,
    nr: Seq<SpecReading>,
    ec: SensorError,
    ef: SensorError,
)
    requires
        ldc.len() == ldf.len() >= 1,
        forall|i: int|
            1 <= i < ldc.len() ==> spec_line(#[trigger] ldc[i], with_humidity) == spec_line(
                ldf[i],
                with_humidity,
            ),
        end == data_end(ldc),
        end == data_end(ldf),
        rsc == row_readings(ldc, end, with_humidity),
        rsf == row_readings(ldf, end, with_humidity),
        rsc == rsf,
        nr == resolved_readings(rsc, name),
        nr == resolved_readings(rsf, name),
        parse_post_err(ldc, end, with_humidity, name, rsc, nr, ec),
        parse_post_err(ldf, end, with_humidity, name, rsf, nr, ef),
        !(ec.kind is EmptyFile) && !(ef.kind is EmptyFile),
        !(ec.kind is InvalidHeader) && !(ef.kind is InvalidHeader),
        !(ec.kind is NoData) && !(ef.kind is NoData),
        !(ec.kind is UnknownTimezone) && !(ef.kind is UnknownTimezone),
    ensures
        ec.kind == ef.kind,
        ec.line == ef.line,
{
    let row_err_c = ec.kind is UnexpectedEmptyLine || ec.kind is DateParseError || ec.kind
        is TemperatureParseError || ec.kind is HumidityParseError;
    let row_err_f = ef.kind is UnexpectedEmptyLine || ef.kind is DateParseError || ef.kind
        is TemperatureParseError || ef.kind is HumidityParseError;
    if row_err_c || row_err_f {
        // some row is malformed; the other side sees the same row
        assert(row_err_c && row_err_f) by {
            if row_err_c && !row_err_f {
                let i = choose|i: int|
                    #![trigger ldc[i]]
                    {
                        &&& 1 <= i < end
                        &&& !(spec_line(ldc[i], with_humidity) is LineData)
                        &&& forall|k: int|
                            1 <= k < i ==> spec_line(#[trigger] ldc[k], with_humidity) is LineData
                        &&& ec.kind == row_fail_kind(ldc[i], with_humidity)
                        &&& ec.line == Some((i + 1) as usize)
                    };
                assert(rows_parse(ldf, end, with_humidity));
                assert(spec_line(ldf[i], with_humidity) is LineData);
                assert(false);
            }
            if row_err_f && !row_err_c {
                let i = choose|i: int|
                    #![trigger ldf[i]]
                    {
                        &&& 1 <= i < end
                        &&& !(spec_line(ldf[i], with_humidity) is LineData)
                        &&& forall|k: int|
                            1 <= k < i ==> spec_line(#[trigger] ldf[k], with_humidity) is LineData
                        &&& ef.kind == row_fail_kind(ldf[i], with_humidity)
                        &&& ef.line == Some((i + 1) as usize)
                    };
                assert(rows_parse(ldc, end, with_humidity));
                assert(spec_line(ldc[i], with_humidity) is LineData);
                assert(false);
            }
        }
        let ic = choose|i: int|
            #![trigger ldc[i]]
            {
                &&& 1 <= i < end
                &&& !(spec_line(ldc[i], with_humidity) is LineData)
                &&& forall|k: int|
                    1 <= k < i ==> spec_line(#[trigger] ldc[k], with_humidity) is LineData
                &&& ec.kind == row_fail_kind(ldc[i], with_humidity)
                &&& ec.line == Some((i + 1) as usize)
            };
        let jf = choose|i: int|
            #![trigger ldf[i]]
            {
                &&& 1 <= i < end
                &&& !(spec_line(ldf[i], with_humidity) is LineData)
                &&& forall|k: int|
                    1 <= k < i ==> spec_line(#[trigger] ldf[k], with_humidity) is LineData
                &&& ef.kind == row_fail_kind(ldf[i], with_humidity)
                &&& ef.line == Some((i + 1) as usize)
            };
        assert(spec_line(ldc[ic], with_humidity) == spec_line(ldf[ic], with_humidity));
        assert(spec_line(ldc[jf], with_humidity) == spec_line(ldf[jf], with_humidity));
        if ic < jf {
            assert(spec_line(ldf[ic], with_humidity) is LineData);
            assert(false);
        }
        if jf < ic {
            assert(spec_line(ldc[jf], with_humidity) is LineData);
            assert(false);
        }
        assert(ic == jf);
        assert(ec.kind == ef.kind);
        assert(ec.line == ef.line);
    } else if ec.kind is TimezoneConversionError || ef.kind is TimezoneConversionError {
        // some timestamp does not resolve; both sides stop at the first
        assert(ec.kind is TimezoneConversionError && ef.kind is TimezoneConversionError) by {
            if ec.kind is TimezoneConversionError && !(ef.kind is TimezoneConversionError) {
                let j = choose|j: int|
                    #![trigger spec_resolve(rsc, name, j)]
                    {
                        &&& 0 <= j < rsc.len()
                        &&& spec_resolve(rsc, name, j) is None
                        &&& forall|k: int|
                            0 <= k < j ==> #[trigger] spec_resolve(rsc, name, k) is Some
                        &&& ec.line == Some((j + 2) as usize)
                    };
                assert(all_resolve(rsf, name));
                assert(spec_resolve(rsf, name, j) is Some);
                assert(false);
            }
            if ef.kind is TimezoneConversionError && !(ec.kind is TimezoneConversionError) {
                let j = choose|j: int|
                    #![trigger spec_resolve(rsf, name, j)]
                    {
                        &&& 0 <= j < rsf.len()
                        &&& spec_resolve(rsf, name, j) is None
                        &&& forall|k: int|
                            0 <= k < j ==> #[trigger] spec_resolve(rsf, name, k) is Some
                        &&& ef.line == Some((j + 2) as usize)
                    };
                assert(all_resolve(rsc, name));
                assert(spec_resolve(rsc, name, j) is Some);
                assert(false);
            }
        }
        let jc = choose|j: int|
            #![trigger spec_resolve(rsc, name, j)]
            {
                &&& 0 <= j < rsc.len()
                &&& spec_resolve(rsc, name, j) is None
                &&& forall|k: int| 0 <= k < j ==> #[trigger] spec_resolve(rsc, name, k) is Some
                &&& ec.line == Some((j + 2) as usize)
            };
        let jf = choose|j: int|
            #![trigger spec_resolve(rsf, name, j)]
            {
                &&& 0 <= j < rsf.len()
                &&& spec_resolve(rsf, name, j) is None
                &&& forall|k: int| 0 <= k < j ==> #[trigger] spec_resolve(rsf, name, k) is Some
                &&& ef.line == Some((j + 2) as usize)
            };
        if jc < jf {
            assert(spec_resolve(rsf, name, jc) is Some);
            assert(false);
        }
        if jf < jc {
            assert(spec_resolve(rsc, name, jf) is Some);
            assert(false);
        }
        assert(ec.line == ef.line);
    } else {
        // both failures are continuity breaks in the same resolved sequence
        let jc = choose|j: int|
            #![trigger nr[j]]
            {
                &&& 1 <= j < nr.len()
                &&& nr[j].timestamp != nr[j - 1].timestamp + 60
                &&& forall|k: int|
                    1 <= k < j ==> (#[trigger] nr[k]).timestamp == nr[k - 1].timestamp + 60
                &&& ec.kind matches ErrorKind::ContinuityError { prev_utc, cur_utc } && prev_utc
                    as int == nr[j - 1].timestamp && cur_utc as int == nr[j].timestamp
                &&& ec.line == Some((j + 2) as usize)
            };
        let jf = choose|j: int|
            #![trigger nr[j]]
            {
                &&& 1 <= j < nr.len()
                &&& nr[j].timestamp != nr[j - 1].timestamp + 60
                &&& forall|k: int|
                    1 <= k < j ==> (#[trigger] nr[k]).timestamp == nr[k - 1].timestamp + 60
                &&& ef.kind matches ErrorKind::ContinuityError { prev_utc, cur_utc } && prev_utc
                    as int == nr[j - 1].timestamp && cur_utc as int == nr[j].timestamp
                &&& ef.line == Some((j + 2) as usize)
            };
        if jc < jf {
            assert(nr[jc].timestamp == nr[jc - 1].timestamp + 60);
            assert(false);
        }
        if jf < jc {
            assert(nr[jf].timestamp == nr[jf - 1].timestamp + 60);
            assert(false);
        }
        assert(ec.kind == ef.kind);
        assert(ec.line == ef.line);
    }
}

} // verus!
