use sensor::{is_float_str, parse_date};

#[test]
fn date_parsing_agrees_with_chrono() {
    let cases = [
        "1970-01-01 00:00",
        "2024-01-15 12:34",
        "2024-02-29 23:59",
        "1969-12-31 23:59",
        "0001-01-01 00:00",
        "9999-12-31 23:59",
        "2000-02-29 06:30",
        "1900-03-01 00:00",
    ];
    for s in cases {
        let expected = chrono::NaiveDateTime::parse_from_str(s, "%Y-%m-%d %H:%M")
            .unwrap()
            .and_utc()
            .timestamp();
        assert_eq!(parse_date(s), Some(expected), "date {}", s);
    }
}

#[test]
fn date_parsing_rejects_what_chrono_rejects() {
    let cases = [
        "",
        "2024-01-15",
        "2024-01-15 12:34:56",
        "2024-13-01 00:00",
        "2024-00-01 00:00",
        "2024-01-00 00:00",
        "2024-01-32 00:00",
        "2023-02-29 00:00",
        "1900-02-29 00:00",
        "2024-04-31 00:00",
        "2024-01-15 24:00",
        "2024-01-15 12:60",
        "2024/01/15 12:34",
        "abcd-01-15 12:34",
    ];
    for s in cases {
        assert!(
            chrono::NaiveDateTime::parse_from_str(s, "%Y-%m-%d %H:%M").is_err(),
            "chrono accepts {}",
            s
        );
        assert_eq!(parse_date(s), None, "date {}", s);
    }
}

#[test]
fn date_parsing_enforces_fixed_widths() {
    // the format is the fixed pattern YYYY-MM-DD HH:MM: fields narrower
    // than their column are rejected even where a lax parser would not be
    let cases = ["24-01-15 12:34", "2024-1-15 12:34", "2024-01-15 2:34"];
    for s in cases {
        assert_eq!(parse_date(s), None, "date {}", s);
    }
}

#[test]
fn epoch_is_anchored() {
    assert_eq!(parse_date("1970-01-01 00:00"), Some(0));
    assert_eq!(parse_date("1970-01-01 00:01"), Some(60));
    assert_eq!(parse_date("1969-12-31 23:59"), Some(-60));
}

#[test]
fn float_grammar_agrees_with_parse() {
    let accepted = [
        "0", "20", "20.5", ".5", "5.", "1e5", "1E-5", "+3.2e+7", "-0.25", "inf", "-inf",
        "INFINITY", "Infinity", "nan", "NaN", "+NAN", "007", "1.", "3.2E2",
    ];
    for s in accepted {
        assert!(s.parse::<f64>().is_ok(), "std rejects {}", s);
        assert!(is_float_str(s), "grammar rejects {}", s);
    }
    let rejected = [
        "", ".", "e5", "1e", "abc", "1.2.3", "--5", "1e+", "in", "infin", "+", "-", "1 ",
        " 1", "0x10", "1,5", "NaN%", "1e5.5",
    ];
    for s in rejected {
        assert!(s.parse::<f64>().is_err(), "std accepts {}", s);
        assert!(!is_float_str(s), "grammar accepts {}", s);
    }
}

#[test]
fn celsius_fahrenheit_round_trip_is_tight() {
    // the unit conversions the callers apply: C -> F -> C returns the
    // original value well within the stated tolerance
    let values: [f64; 6] = [-40.0, 0.0, 10.0, 20.0, 36.6, 100.0];
    for c in values {
        let f = c * 9.0 / 5.0 + 32.0;
        let back = (f - 32.0) * 5.0 / 9.0;
        assert!((back - c).abs() < 1e-9, "round trip drifted for {}", c);
    }
}
