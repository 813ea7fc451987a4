use chrono::TimeZone;
use sensor::{parse, ErrorKind};

const CELSIUS_HEADER: &str = "\"Timestamp\",\"Temperature (\u{b0}C)\",\"Relative Humidity (%)\"";
const FAHRENHEIT_HEADER: &str = "\"Timestamp\",\"Temperature (\u{b0}F)\",\"Relative Humidity (%)\"";

fn row(ts: &str, temp: &str) -> String {
    format!("\"{}\",\"{}\"", ts, temp)
}

fn la() -> chrono_tz::Tz {
    "America/Los_Angeles".parse().unwrap()
}

fn la_single(y: i32, mo: u32, d: u32, h: u32, mi: u32) -> i64 {
    let naive = chrono::NaiveDate::from_ymd_opt(y, mo, d)
        .unwrap()
        .and_hms_opt(h, mi, 0)
        .unwrap();
    match la().from_local_datetime(&naive) {
        chrono::LocalResult::Single(dt) => dt.timestamp(),
        _ => panic!("expected a unique mapping"),
    }
}

/// A well-formed winter file: one sample per minute, far from any DST
/// transition.
fn winter_lines(count: usize) -> Vec<String> {
    let mut lines = vec![CELSIUS_HEADER.to_string()];
    for i in 0..count {
        let ts = format!("2024-01-15 {:02}:{:02}", i / 60, i % 60);
        lines.push(row(&ts, "20.0"));
    }
    lines
}

#[test]
fn well_formed_file_counts_and_cadence() {
    let lines = winter_lines(130);
    let (celsius, v) = parse(&lines, None, false).unwrap();
    assert!(celsius);
    assert_eq!(v.len(), 130);
    let start = la_single(2024, 1, 15, 0, 0);
    assert_eq!(v[0].timestamp, start);
    for i in 1..v.len() {
        assert_eq!(v[i].timestamp - v[i - 1].timestamp, 60);
    }
    assert_eq!(v[0].temperature, "20.0");
    assert!(v[0].humidity.is_none());
}

#[test]
fn trailing_blank_line_is_ignored() {
    let mut lines = winter_lines(130);
    lines.push(String::new());
    let (_, v) = parse(&lines, None, false).unwrap();
    assert_eq!(v.len(), 130);
}

#[test]
fn interior_blank_line_is_fatal() {
    let mut lines = winter_lines(130);
    lines[50] = String::new();
    let e = parse(&lines, None, false).unwrap_err();
    assert_eq!(e.kind, ErrorKind::UnexpectedEmptyLine);
    assert_eq!(e.line, Some(51));
}

#[test]
fn celsius_and_fahrenheit_files_normalize_alike() {
    // 10 degrees Celsius is exactly 50 degrees Fahrenheit
    let mut lines_c = vec![CELSIUS_HEADER.to_string()];
    let mut lines_f = vec![FAHRENHEIT_HEADER.to_string()];
    for i in 0..120 {
        let ts = format!("2024-01-15 {:02}:{:02}", i / 60, i % 60);
        lines_c.push(row(&ts, "10.0"));
        lines_f.push(row(&ts, "50.0"));
    }
    let (celsius, vc) = parse(&lines_c, None, false).unwrap();
    let (fahrenheit_flag, vf) = parse(&lines_f, None, false).unwrap();
    assert!(celsius);
    assert!(!fahrenheit_flag);
    assert_eq!(vc.len(), vf.len());
    for i in 0..vc.len() {
        assert_eq!(vc[i].timestamp, vf[i].timestamp);
        let c: f64 = vc[i].temperature.parse().unwrap();
        let f: f64 = vf[i].temperature.parse().unwrap();
        let f_as_c = (f - 32.0) * 5.0 / 9.0;
        assert!((c - f_as_c).abs() < 1e-9);
    }
}

#[test]
fn fall_back_first_hour_early_second_hour_late() {
    // In Los Angeles the clocks fell back on 2024-11-03: local times
    // 01:00..01:59 happened twice.
    let mut lines = vec![CELSIUS_HEADER.to_string()];
    for i in 0..60 {
        lines.push(row(&format!("2024-11-03 00:{:02}", i), "10.0"));
    }
    for _pass in 0..2 {
        for i in 0..60 {
            lines.push(row(&format!("2024-11-03 01:{:02}", i), "10.0"));
        }
    }
    for i in 0..60 {
        lines.push(row(&format!("2024-11-03 02:{:02}", i), "10.0"));
    }
    let (_, v) = parse(&lines, None, false).unwrap();
    assert_eq!(v.len(), 240);
    for i in 1..v.len() {
        assert_eq!(v[i].timestamp - v[i - 1].timestamp, 60);
    }
    let naive = chrono::NaiveDate::from_ymd_opt(2024, 11, 3)
        .unwrap()
        .and_hms_opt(1, 0, 0)
        .unwrap();
    let (early, late) = match la().from_local_datetime(&naive) {
        chrono::LocalResult::Ambiguous(a, b) => (a.timestamp(), b.timestamp()),
        _ => panic!("expected an ambiguous mapping"),
    };
    assert_eq!(v[60].timestamp, early);
    assert_eq!(v[120].timestamp, late);
}

#[test]
fn file_starting_inside_fall_back_is_fatal() {
    let mut lines = vec![CELSIUS_HEADER.to_string()];
    for i in 0..60 {
        lines.push(row(&format!("2024-11-03 01:{:02}", i), "10.0"));
    }
    let e = parse(&lines, None, false).unwrap_err();
    assert_eq!(e.kind, ErrorKind::TimezoneConversionError);
    assert_eq!(e.line, Some(2));
}

#[test]
fn spring_forward_gap_is_fatal() {
    // In Los Angeles 2024-03-10 02:00..02:59 never happened.
    let mut lines = vec![CELSIUS_HEADER.to_string()];
    for i in 0..60 {
        lines.push(row(&format!("2024-03-10 01:{:02}", i), "10.0"));
    }
    lines.push(row("2024-03-10 02:30", "10.0"));
    let e = parse(&lines, None, false).unwrap_err();
    assert_eq!(e.kind, ErrorKind::TimezoneConversionError);
    assert_eq!(e.line, Some(62));
}

#[test]
fn removing_an_interior_row_is_caught() {
    let mut lines = winter_lines(130);
    lines.remove(41);
    let e = parse(&lines, None, false).unwrap_err();
    assert_eq!(e.line, Some(42));
    match e.kind {
        ErrorKind::ContinuityError { prev_utc, cur_utc } => {
            assert_eq!(cur_utc - prev_utc, 120);
        }
        k => panic!("wrong kind: {:?}", k),
    }
}

#[test]
fn duplicated_row_is_caught() {
    let mut lines = winter_lines(130);
    let dup = lines[41].clone();
    lines.insert(41, dup);
    let e = parse(&lines, None, false).unwrap_err();
    assert_eq!(e.line, Some(43));
    match e.kind {
        ErrorKind::ContinuityError { prev_utc, cur_utc } => {
            assert_eq!(cur_utc, prev_utc);
        }
        k => panic!("wrong kind: {:?}", k),
    }
}

#[test]
fn malformed_temperature_names_its_line() {
    let mut lines = winter_lines(130);
    lines[4] = row("2024-01-15 00:03", "abc");
    let e = parse(&lines, None, false).unwrap_err();
    assert_eq!(e.kind, ErrorKind::TemperatureParseError);
    assert_eq!(e.line, Some(5));
}

#[test]
fn missing_temperature_field_names_its_line() {
    let mut lines = winter_lines(130);
    lines[4] = "\"2024-01-15 00:03\"".to_string();
    let e = parse(&lines, None, false).unwrap_err();
    assert_eq!(e.kind, ErrorKind::TemperatureParseError);
    assert_eq!(e.line, Some(5));
}

#[test]
fn malformed_date_names_its_line() {
    let mut lines = winter_lines(130);
    lines[7] = row("2024-13-15 00:06", "20.0");
    let e = parse(&lines, None, false).unwrap_err();
    assert_eq!(e.kind, ErrorKind::DateParseError);
    assert_eq!(e.line, Some(8));
}

#[test]
fn invalid_header_wins_over_bad_rows() {
    let lines = vec!["bogus header".to_string(), "also not a row".to_string()];
    let e = parse(&lines, None, false).unwrap_err();
    assert_eq!(e.kind, ErrorKind::InvalidHeader);
    assert_eq!(e.line, Some(1));
    assert_eq!(e.desc.as_deref(), Some("bogus header"));
}

#[test]
fn header_with_trailing_space_is_invalid() {
    let mut header = CELSIUS_HEADER.to_string();
    header.push(' ');
    let lines = vec![header, row("2024-01-15 00:00", "20.0")];
    let e = parse(&lines, None, false).unwrap_err();
    assert_eq!(e.kind, ErrorKind::InvalidHeader);
    assert_eq!(e.line, Some(1));
}

#[test]
fn empty_file_and_header_only_differ() {
    let e = parse(&Vec::new(), None, false).unwrap_err();
    assert_eq!(e.kind, ErrorKind::EmptyFile);

    let e = parse(&vec![CELSIUS_HEADER.to_string()], None, false).unwrap_err();
    assert_eq!(e.kind, ErrorKind::NoData);

    let e = parse(&vec![CELSIUS_HEADER.to_string(), String::new()], None, false).unwrap_err();
    assert_eq!(e.kind, ErrorKind::NoData);
}

#[test]
fn lone_blank_line_is_an_invalid_header() {
    let e = parse(&vec![String::new()], None, false).unwrap_err();
    assert_eq!(e.kind, ErrorKind::InvalidHeader);
    assert_eq!(e.line, Some(1));
    assert_eq!(e.desc.as_deref(), Some(""));
}

#[test]
fn unknown_timezone_is_reported() {
    let lines = winter_lines(3);
    let e = parse(&lines, Some("Not/AZone"), false).unwrap_err();
    assert_eq!(e.kind, ErrorKind::UnknownTimezone);
    assert_eq!(e.line, None);
    assert_eq!(e.desc.as_deref(), Some("Not/AZone"));
}

#[test]
fn timezone_override_is_used() {
    let lines = winter_lines(5);
    let (_, in_utc) = parse(&lines, Some("UTC"), false).unwrap();
    let (_, in_la) = parse(&lines, None, false).unwrap();
    // under UTC the wall-clock time is the instant itself; Los Angeles
    // stood eight hours behind UTC that day
    let naive = chrono::NaiveDate::from_ymd_opt(2024, 1, 15)
        .unwrap()
        .and_hms_opt(0, 0, 0)
        .unwrap()
        .and_utc()
        .timestamp();
    assert_eq!(in_utc[0].timestamp, naive);
    assert_eq!(in_la[0].timestamp - in_utc[0].timestamp, 8 * 3600);
}

#[test]
fn humidity_column_is_parsed_when_enabled() {
    let mut lines = vec![CELSIUS_HEADER.to_string()];
    for i in 0..61 {
        lines.push(format!(
            "\"2024-01-15 {:02}:{:02}\",\"20.0\",\"55.5\"",
            i / 60,
            i % 60
        ));
    }
    let (_, v) = parse(&lines, None, true).unwrap();
    assert_eq!(v.len(), 61);
    assert_eq!(v[0].humidity.as_deref(), Some("55.5"));

    // the same file with the column ignored
    let (_, v) = parse(&lines, None, false).unwrap();
    assert!(v[0].humidity.is_none());
}

#[test]
fn missing_humidity_field_names_its_line() {
    let mut lines = vec![CELSIUS_HEADER.to_string()];
    for i in 0..10 {
        lines.push(format!("\"2024-01-15 00:{:02}\",\"20.0\",\"55.5\"", i));
    }
    lines[3] = row("2024-01-15 00:02", "20.0");
    let e = parse(&lines, None, true).unwrap_err();
    assert_eq!(e.kind, ErrorKind::HumidityParseError);
    assert_eq!(e.line, Some(4));
}

#[test]
fn malformed_humidity_names_its_line() {
    let mut lines = vec![CELSIUS_HEADER.to_string()];
    for i in 0..10 {
        lines.push(format!("\"2024-01-15 00:{:02}\",\"20.0\",\"55.5\"", i));
    }
    lines[6] = format!("\"2024-01-15 00:05\",\"20.0\",\"wet\"");
    let e = parse(&lines, None, true).unwrap_err();
    assert_eq!(e.kind, ErrorKind::HumidityParseError);
    assert_eq!(e.line, Some(7));
}

#[test]
fn unquoted_fields_are_accepted() {
    let mut lines = vec![CELSIUS_HEADER.to_string()];
    for i in 0..61 {
        lines.push(format!("2024-01-15 {:02}:{:02},20.5", i / 60, i % 60));
    }
    let (_, v) = parse(&lines, None, false).unwrap();
    assert_eq!(v.len(), 61);
    assert_eq!(v[17].temperature, "20.5");
}
