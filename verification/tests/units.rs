//! Sizes, durations and instants as text.

use sismatic::time::{Duration, Instant};
use sismatic::units::{
    bytes, duration, format_bytes, format_duration, instant, is_duration_readable,
};

fn rfc3339(at: Instant) -> String {
    chrono::DateTime::from_timestamp(at.secs, at.nanos)
        .expect("an instant of the calendar")
        .to_rfc3339()
}

fn secs(text: &str) -> u64 {
    duration(text).expect("parsing a duration").as_secs()
}

#[test]
fn a_single_term_carries_its_unit() {
    assert_eq!(secs("30s"), 30);
    assert_eq!(secs("5min"), 300);
    assert_eq!(secs("2h"), 7200);
    assert_eq!(secs("30d"), 30 * 86_400);
    assert_eq!(secs("2w"), 14 * 86_400);
}

#[test]
fn the_long_spellings_work_too() {
    assert_eq!(secs("2 weeks"), 14 * 86_400);
    assert_eq!(secs("1 day"), 86_400);
    assert_eq!(secs("45 minutes"), 2_700);
}

#[test]
fn terms_are_summed() {
    assert_eq!(secs("1h 30min"), 5_400);
    assert_eq!(secs("1d 12h"), 129_600);
    assert_eq!(secs("1h30min"), 5_400);
}

#[test]
fn a_bare_integer_is_seconds() {
    assert_eq!(secs("300"), 300);
}

#[test]
fn zero_parses_rather_than_failing() {
    assert_eq!(secs("0"), 0);
}

#[test]
fn surrounding_whitespace_is_ignored() {
    assert_eq!(secs("  30d  "), 30 * 86_400);
}

#[test]
fn a_bad_duration_names_itself_and_the_accepted_forms() {
    let err = duration("thirty days").unwrap_err();
    assert!(err.contains("thirty days"), "got: {err}");
    assert!(
        err.contains("30d"),
        "the message has to show a good one: {err}"
    );
}

#[test]
fn a_date_is_not_a_duration() {
    assert!(duration("2026-01-01").is_err());
}

#[test]
fn a_bare_integer_is_bytes() {
    assert_eq!(bytes("1024").unwrap(), 1024);
    assert_eq!(bytes("0").unwrap(), 0);
}

#[test]
fn the_binary_suffixes_are_powers_of_1024() {
    assert_eq!(bytes("1KiB").unwrap(), 1024);
    assert_eq!(bytes("512MiB").unwrap(), 512 * 1024 * 1024);
    assert_eq!(bytes("2GiB").unwrap(), 2 * 1024 * 1024 * 1024);
    assert_eq!(bytes("1TiB").unwrap(), 1u64 << 40);
}

#[test]
fn the_bare_suffixes_read_as_systemd_reads_them() {
    assert_eq!(bytes("512M").unwrap(), bytes("512MiB").unwrap());
    assert_eq!(bytes("2G").unwrap(), bytes("2GiB").unwrap());
}

#[test]
fn the_decimal_suffixes_are_powers_of_1000() {
    assert_eq!(bytes("1KB").unwrap(), 1_000);
    assert_eq!(bytes("2GB").unwrap(), 2_000_000_000);
    assert_ne!(bytes("512MB").unwrap(), bytes("512MiB").unwrap());
}

#[test]
fn sizes_are_case_insensitive_and_may_be_spaced() {
    assert_eq!(bytes("512mib").unwrap(), bytes("512MiB").unwrap());
    assert_eq!(bytes("512 MiB").unwrap(), bytes("512MiB").unwrap());
    assert_eq!(bytes("  2gb ").unwrap(), 2_000_000_000);
}

#[test]
fn a_fractional_size_is_accepted() {
    assert_eq!(bytes("1.5GiB").unwrap(), 1_610_612_736);
    assert_eq!(bytes("0.5KiB").unwrap(), 512);
}

#[test]
fn an_unknown_unit_is_named_in_the_error() {
    let err = bytes("512QB").unwrap_err();
    assert!(err.contains("qb"), "the offending unit, got: {err}");
    assert!(err.contains("512MiB"), "and a good one, got: {err}");
}

#[test]
fn a_size_that_would_overflow_is_rejected_rather_than_wrapping() {
    assert!(bytes("99999999999999999999TiB").is_err());
    assert!(bytes(&format!("{}TiB", u64::MAX)).is_err());
}

#[test]
fn nonsense_is_not_a_size() {
    assert!(bytes("").is_err());
    assert!(bytes("lots").is_err());
    assert!(bytes("-1").is_err());
    assert!(bytes("1.2.3MiB").is_err());
}

#[test]
fn an_rfc_3339_instant_round_trips() {
    let at = instant("2026-01-01T00:00:00Z").unwrap();
    assert_eq!(rfc3339(at), "2026-01-01T00:00:00+00:00");
}

#[test]
fn an_offset_is_normalized_to_utc() {
    assert_eq!(
        instant("2026-01-01T02:00:00+02:00").unwrap(),
        instant("2026-01-01T00:00:00Z").unwrap()
    );
}

#[test]
fn a_bare_date_is_midnight_utc() {
    assert_eq!(
        instant("2026-01-01").unwrap(),
        instant("2026-01-01T00:00:00Z").unwrap()
    );
}

#[test]
fn a_bad_instant_names_itself_and_the_accepted_forms() {
    let err = instant("last tuesday").unwrap_err();
    assert!(err.contains("last tuesday"), "got: {err}");
    assert!(err.contains("2026-01-01"), "got: {err}");
}

#[test]
fn an_impossible_date_is_rejected() {
    assert!(instant("2026-02-30").is_err());
    assert!(instant("2026-13-01").is_err());
}

#[test]
fn a_duration_is_not_an_instant() {
    assert!(instant("30d").is_err());
}

#[test]
fn a_size_is_written_in_the_largest_unit_that_divides_it() {
    assert_eq!(format_bytes(256 * 1024 * 1024), "256MiB");
    assert_eq!(format_bytes(1024 * 1024 * 1024), "1GiB");
    assert_eq!(format_bytes(1024), "1KiB");
    assert_eq!(format_bytes(1 << 40), "1TiB");
}

#[test]
fn a_size_that_is_no_whole_unit_is_written_in_bytes() {
    assert_eq!(format_bytes(1_234_567), "1234567");
    assert_eq!(format_bytes(0), "0");
    assert_eq!(format_bytes(1), "1");
    assert_eq!(format_bytes(1024 * 1024 - 1), "1048575");
}

#[test]
fn every_rendered_size_parses_back_as_itself() {
    for value in [
        0,
        1,
        1023,
        1024,
        1025,
        1_048_576,
        256 * 1024 * 1024,
        1_234_567,
        (1 << 30) + 1,
        1 << 40,
        u64::MAX,
    ] {
        let rendered = format_bytes(value);
        assert_eq!(
            bytes(&rendered),
            Ok(value),
            "{value} rendered as '{rendered}'"
        );
    }
}

#[test]
fn every_rendered_duration_parses_back_as_itself() {
    for value in [
        Duration::from_millis(500),
        Duration::from_secs(1),
        Duration::from_secs(300),
        Duration::from_secs(3_600),
        Duration::from_secs(24 * 60 * 60),
        Duration::from_secs(30 * 86_400),
        Duration::from_secs(10 * 86_400 + 12 * 3_600),
    ] {
        let rendered = format_duration(value);
        assert_eq!(
            duration(&rendered),
            Ok(value),
            "{value:?} rendered as '{rendered}'"
        );
    }
}

#[test]
fn a_bad_size_names_itself_and_lists_the_suffixes() {
    let err = bytes("  12 parsecs ").unwrap_err();
    assert!(err.contains("'12 parsecs'"), "got: {err}");
    assert!(err.contains("unknown unit 'parsecs'"), "got: {err}");
    for suffix in [
        "K", "M", "G", "T", "KiB", "MiB", "GiB", "TiB", "KB", "MB", "GB", "TB",
    ] {
        assert!(
            err.split(|c: char| !c.is_ascii_alphanumeric())
                .any(|word| word == suffix),
            "{suffix} is not in: {err}"
        );
    }
}

#[test]
fn case_and_white_space_change_no_size() {
    for text in ["7k", "1.5mib", "2gb", "0.25 tib", "12", "3b", "9 parsecs", "."] {
        let plain = bytes(text).ok();
        assert_eq!(bytes(&text.to_ascii_uppercase()).ok(), plain, "{text}");
        assert_eq!(bytes(&format!(" \t{text}\n ")).ok(), plain, "{text}");
    }
}

#[test]
fn a_bare_letter_is_its_binary_unit_and_a_decimal_one_is_smaller() {
    for letter in ["K", "M", "G", "T"] {
        for number in ["1", "7", "1024", "0.5"] {
            let binary = bytes(&format!("{number}{letter}iB")).expect("a size");
            assert_eq!(bytes(&format!("{number}{letter}")), Ok(binary));
            let decimal = bytes(&format!("{number}{letter}B")).expect("a size");
            assert!(decimal < binary, "{number}{letter}");
        }
    }
}

#[test]
fn long_numbers_are_durations_too() {
    assert_eq!(
        duration("9000000000000000000ns"),
        Ok(Duration::from_secs(9_000_000_000))
    );
    assert_eq!(
        duration("9000000000000000000ns 1s"),
        Ok(Duration::from_secs(9_000_000_001))
    );
    assert_eq!(
        duration("18446744073709551615s"),
        Ok(Duration::from_secs(u64::MAX))
    );
    assert_eq!(
        duration("18446744073709551614s 999ms"),
        Ok(Duration::from_parts(u64::MAX - 1, 999_000_000))
    );
    assert!(is_duration_readable("99999999999999999999 years"));
    assert!(duration("99999999999999999999 years").is_err());
    assert!(is_duration_readable("600000000000years"));
    assert!(duration("600000000000years").is_err());
    assert!(!is_duration_readable("18446744073709551615s 999999999ns 1ns"));
    assert_eq!(duration("1.5h 2.5min"), Ok(Duration::from_secs(5_550)));
}

/// What double precision makes of a number with a point.
fn in_double_precision(number: &str, scale: u64) -> Result<u64, &'static str> {
    let value: f64 = number.parse().map_err(|_| "not a number")?;
    if !value.is_finite() {
        return Err("not a positive number");
    }
    let scaled = value * scale as f64;
    if scaled > u64::MAX as f64 {
        return Err("too large");
    }
    Ok(scaled as u64)
}

const UNITS: &[(&str, u64)] = &[
    ("", 1),
    ("K", 1 << 10),
    ("KB", 1_000),
    ("MiB", 1 << 20),
    ("MB", 1_000_000),
    ("G", 1 << 30),
    ("GB", 1_000_000_000),
    ("TiB", 1 << 40),
    ("TB", 1_000_000_000_000),
];

fn agrees_with_double_precision(number: &str) {
    for (unit, scale) in UNITS {
        let text = format!("{number}{unit}");
        match (bytes(&text), in_double_precision(number, *scale)) {
            (Ok(ours), Ok(theirs)) => assert_eq!(ours, theirs, "{text}"),
            (Err(ours), Err(theirs)) => {
                let start = format!("'{text}' is not a size ({theirs});");
                assert!(ours.starts_with(&start), "{ours}");
            }
            (ours, theirs) => panic!("{text}: {ours:?} and {theirs:?}"),
        }
    }
}

#[test]
fn a_size_with_a_point_is_held_in_double_precision() {
    assert_eq!(bytes("1.005KB"), Ok(1004));
    assert_eq!(bytes("18446744073709551616.0"), Ok(u64::MAX));
    assert_eq!(bytes("18446744073709553664.0"), Ok(u64::MAX));
    assert!(bytes("18446744073709553665.0").is_err());
    assert_eq!(bytes("9007199254740993.0"), Ok(9_007_199_254_740_992));
    assert_eq!(bytes("9007199254740993."), Ok(9_007_199_254_740_992));
    assert_eq!(bytes("9007199254740993"), Ok(9_007_199_254_740_993));
    let err = bytes(&format!("{}.0", "9".repeat(400))).unwrap_err();
    assert!(err.contains("(not a positive number)"), "{err}");
    let err = bytes(&format!("{}.0", "9".repeat(300))).unwrap_err();
    assert!(err.contains("(too large)"), "{err}");
}

#[test]
fn the_edges_of_double_precision_are_met() {
    for number in [
        "0.0",
        "0.",
        ".0",
        ".5",
        "0.1",
        "0.3",
        "1.005",
        "4.35",
        "1.1",
        "2.675",
        "0.0000000000001",
        "0.000000000000454747350886464118957519531250",
        "0.000000000000909494701772928237915039062500",
        "0.000000000000909494701772928237915039062499999999999999999999",
        "9007199254740991.5",
        "9007199254740992.5",
        "9007199254740993.0",
        "9007199254740993.00000000000000000000000000000000001",
        "9007199254740994.5",
        "18014398509481983.5",
        "18014398509481985.0",
        "18446744073709549567.9",
        "18446744073709550591.9",
        "18446744073709550592.0",
        "18446744073709551615.0",
        "18446744073709551616.0",
        "18446744073709553664.0",
        "18446744073709553664.1",
        "36893488147419103232.0",
        "16777216.0",
        "16777215.9999999999999",
        "18446744.073709551615",
        "00000000000000000000000000000000000000000000001.5",
    ] {
        agrees_with_double_precision(number);
    }
    // The largest number that is held, and the first that is rounded out of range.
    for number in [
        "179769313486231570814527423731704356798070567525844996598917476803157260780028538760589558632766878171540458953514382464234321326889464182768467546703537516986049910576551282076245490090389328944075868508455133942304583236903222948165808559332123348274797826204144723168738177180919299881250404026184124858368.0",
        "179769313486231580793728971405303415079934132710037826936173778980444968292764750946649017977587207096330286416692887910946555547851940402630657488671505820681908902000708383676273854845817711531764475730270069855571366959622842914819860834936475292719074168444365510704342711559699508093042880177904174497791.0",
        "179769313486231580793728971405303415079934132710037826936173778980444968292764750946649017977587207096330286416692887910946555547851940402630657488671505820681908902000708383676273854845817711531764475730270069855571366959622842914819860834936475292719074168444365510704342711559699508093042880177904174497791.99999",
        "179769313486231580793728971405303415079934132710037826936173778980444968292764750946649017977587207096330286416692887910946555547851940402630657488671505820681908902000708383676273854845817711531764475730270069855571366959622842914819860834936475292719074168444365510704342711559699508093042880177904174497792.0",
        "179769313486231590772930519078902473361797697894230657273430081157732675805500963132708477322407536021120113879871393357658789768814416622492847430639474124377767893424865485276302219601246094119453082952085005768838150682342462881473913110540827237163350510684586298239947245938479716304835356329624224137216.0",
    ] {
        agrees_with_double_precision(number);
    }
}

#[test]
fn many_sizes_agree_with_double_precision() {
    let mut state: u64 = 0x9e37_79b9_7f4a_7c15;
    let mut next = |below: u64| {
        state = state
            .wrapping_mul(6_364_136_223_846_793_005)
            .wrapping_add(1_442_695_040_888_963_407);
        (state >> 33) % below
    };
    for _ in 0..2_000 {
        let before = next(22);
        let behind = next(30);
        let mut number = String::new();
        for _ in 0..before {
            number.push(char::from(b'0' + next(10) as u8));
        }
        number.push('.');
        for _ in 0..behind {
            number.push(char::from(b'0' + next(10) as u8));
        }
        if number != "." {
            agrees_with_double_precision(&number);
        }
    }
}

#[test]
fn whole_seconds_past_the_longest_duration_are_refused() {
    for text in [
        "600000000000years 1s",
        "18446744073709551615s 1s",
        "400000000000 y 300000000000 years 5min",
        "99999999999999999999 weeks 2 months",
    ] {
        assert!(is_duration_readable(text), "{text}");
        let err = duration(text).unwrap_err();
        assert!(err.contains("too large"), "{err}");
    }
    assert_eq!(
        duration("18446744073709551614s 1s"),
        Ok(Duration::from_secs(u64::MAX))
    );
    assert!(!is_duration_readable("600000000000years 1ms"));
    assert!(!is_duration_readable("600000000000years 1millis"));
    assert!(!is_duration_readable("600000000000years 1.5s"));
}
