//! How far back reads are kept, and what a sweep reports.

use sismatic::retention::{
    announce, announce_policy, announce_sweep, finite, report, retention_from_secs,
    retention_from_signed, retention_from_text, Level, Report, Retention, StoreConfig, SweepState,
};
use sismatic::store::lifecycle::{Swept, Usage};
use sismatic::time::{Duration, Instant, Timestamp};
use sismatic::units::instant;

fn at(text: &str) -> Instant {
    instant(text).expect("a test instant")
}

#[test]
fn forever_has_no_cutoff() {
    assert_eq!(Retention::Forever.cutoff(at("2026-09-07T12:00:00Z")), None);
}

#[test]
fn an_age_is_measured_back_from_now() {
    let cutoff = Retention::Age(Duration::from_secs(86_400))
        .cutoff(at("2026-09-07T12:00:00Z"))
        .expect("a bounded window has a cutoff");
    assert_eq!(cutoff, Timestamp("2026-09-06T12:00:00.000Z".into()));
}

#[test]
fn an_age_cutoff_moves_with_the_clock() {
    let retention = Retention::Age(Duration::from_secs(3_600));
    let first = retention.cutoff(at("2026-09-07T12:00:00Z")).unwrap();
    let later = retention.cutoff(at("2026-09-07T13:00:00Z")).unwrap();
    assert_eq!(first, Timestamp("2026-09-07T11:00:00.000Z".into()));
    assert_eq!(later, Timestamp("2026-09-07T12:00:00.000Z".into()));
}

#[test]
fn a_fixed_floor_does_not_move() {
    let retention = Retention::Since(Timestamp("2026-01-01T00:00:00.000Z".into()));
    assert_eq!(
        retention.cutoff(at("2026-09-07T12:00:00Z")),
        retention.cutoff(at("2027-09-07T12:00:00Z")),
    );
}

#[test]
fn a_window_older_than_the_calendar_keeps_everything() {
    let forever_ish = Retention::Age(Duration::from_secs(u64::MAX));
    assert_eq!(forever_ish.cutoff(at("2026-09-07T12:00:00Z")), None);
}

#[test]
fn a_cutoff_is_rendered_the_way_a_stored_read_is() {
    let cutoff = Retention::Age(Duration::from_secs(1))
        .cutoff(at("2026-09-07T12:00:00Z"))
        .unwrap();
    assert_eq!(cutoff.as_str(), "2026-09-07T11:59:59.000Z");
    assert!(cutoff.as_str() < "2026-09-07T12:00:00.000Z");
}

#[test]
fn retention_reads_back_as_it_was_written() {
    assert_eq!(Retention::Forever.describe(), "forever");
    assert_eq!(
        Retention::Age(Duration::from_secs(30 * 86_400)).describe(),
        "30days"
    );
    assert_eq!(
        Retention::Since(Timestamp("2026-01-01T00:00:00.000Z".into())).describe(),
        "since 2026-01-01T00:00:00.000Z"
    );
}

fn usage(bytes: u64, budget: Option<u64>, evicted: u64) -> Usage {
    Usage {
        bytes,
        entries: 0,
        budget,
        evicted,
    }
}

#[test]
fn a_store_inside_its_budget_is_quiet() {
    assert_eq!(report(&usage(100, Some(1_000), 0), 0), Report::Quiet);
    assert_eq!(report(&usage(u64::MAX, None, 0), 0), Report::Quiet);
}

#[test]
fn eviction_since_the_last_tick_is_reported_as_a_delta() {
    assert_eq!(
        report(&usage(100, Some(1_000), 70), 40),
        Report::Evicting { entries: 30 }
    );
}

#[test]
fn a_quiet_interval_after_an_evicting_one_goes_quiet_again() {
    assert_eq!(report(&usage(100, Some(1_000), 70), 70), Report::Quiet);
}

#[test]
fn being_over_budget_outranks_the_eviction_delta() {
    assert_eq!(
        report(&usage(2_000, Some(1_000), 70), 40),
        Report::OverBudget
    );
}

// ---- reading a retention --------------------------------------------------

#[test]
fn a_retention_is_a_word_a_duration_or_an_instant() {
    for text in ["forever", " Forever ", "FOREVER"] {
        assert_eq!(retention_from_text(text), Ok(Retention::Forever));
    }
    assert_eq!(
        retention_from_text("30d"),
        Ok(Retention::Age(Duration::from_secs(30 * 86_400)))
    );
    assert_eq!(
        retention_from_text("3600"),
        Ok(Retention::Age(Duration::from_secs(3_600)))
    );
    assert_eq!(
        retention_from_text("2026-01-01"),
        Ok(Retention::Since(Timestamp(
            "2026-01-01T00:00:00.000Z".into()
        )))
    );
    let err = retention_from_text("5 fortnights").unwrap_err();
    assert!(err.starts_with("invalid retention: "), "{err}");
    assert!(err.contains("; and "), "{err}");
}

#[test]
fn a_window_has_a_length() {
    let zero = "a zero retention window is ambiguous: write 'forever' to keep everything, or a \
                duration such as '1h' to keep almost nothing";
    assert_eq!(retention_from_text("0"), Err(zero.to_owned()));
    assert_eq!(retention_from_secs(0), Err(zero.to_owned()));
    assert_eq!(finite(Duration::from_secs(0)), Err(zero.to_owned()));
    assert_eq!(
        retention_from_secs(60),
        Ok(Retention::Age(Duration::from_secs(60)))
    );
    assert_eq!(
        retention_from_signed(60),
        Ok(Retention::Age(Duration::from_secs(60)))
    );
    assert_eq!(
        retention_from_signed(-5),
        Err("retention cannot be negative: -5".to_owned())
    );
    assert_eq!(
        retention_from_signed(i64::MIN),
        Err("retention cannot be negative: -9223372036854775808".to_owned())
    );
}

#[test]
fn readings_are_reported_since_the_last() {
    let mut state = SweepState::new();
    assert_eq!(
        state.take_reading(&usage(100, Some(1_000), 40)),
        Report::Evicting { entries: 40 }
    );
    assert_eq!(
        state.take_reading(&usage(100, Some(1_000), 70)),
        Report::Evicting { entries: 30 }
    );
    assert_eq!(
        state.take_reading(&usage(100, Some(1_000), 70)),
        Report::Quiet
    );
}

#[test]
fn what_a_sweep_says_is_as_loud_as_it_matters() {
    assert_eq!(announce(Report::Quiet).level, Level::Debug);
    assert_eq!(
        announce(Report::Evicting { entries: 1 }).level,
        Level::Warn
    );
    assert_eq!(announce(Report::OverBudget).level, Level::Warn);
    assert_eq!(
        announce_sweep(&Swept {
            entries: 2,
            bytes: 10
        })
        .level,
        Level::Info
    );
    assert_eq!(announce_sweep(&Swept::default()).level, Level::Debug);
    let policy = |cleanup| StoreConfig {
        retain: Retention::Forever,
        cleanup,
        max_memory: None,
    };
    assert_eq!(announce_policy(&policy(None)).level, Level::Warn);
    assert_eq!(
        announce_policy(&policy(Some(Duration::from_secs(60)))).level,
        Level::Info
    );
}

#[test]
fn a_described_window_reads_back_as_itself() {
    for secs in [1, 59, 3_600, 86_400 * 45 + 61] {
        let window = Retention::Age(Duration::from_secs(secs));
        assert_eq!(retention_from_text(&window.describe()), Ok(window));
    }
    assert_eq!(
        retention_from_text(&Retention::Forever.describe()),
        Ok(Retention::Forever)
    );
}

#[test]
fn a_window_older_than_year_zero_keeps_everything() {
    let now = at("2026-09-07T12:00:00Z");
    let window = Retention::Age(Duration::from_secs(100_000_000_000));
    assert_eq!(window.cutoff(now), None);
    // To the first second of year 0, and one second further.
    let back: u64 = 62_167_219_200 + now.secs as u64;
    assert_eq!(
        Retention::Age(Duration::from_secs(back)).cutoff(now),
        Some(Timestamp("0000-01-01T00:00:00.000Z".into()))
    );
    assert_eq!(
        Retention::Age(Duration::from_secs(back + 1)).cutoff(now),
        None
    );
}

#[test]
fn the_longest_window_reads_back_as_itself() {
    for age in [
        Duration::from_secs(u64::MAX),
        Duration::from_parts(u64::MAX, 999_999_999),
        Duration::from_parts(0, 1),
    ] {
        let retention = Retention::Age(age);
        assert_eq!(retention_from_text(&retention.describe()), Ok(retention));
    }
}
