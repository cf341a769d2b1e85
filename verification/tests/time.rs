//! Points in time.
use alwaysrunning::time::{now_ts, parse_since, since_fits, Moment, SinceError};

fn clock() -> Moment {
    let d = std::time::SystemTime::now().duration_since(std::time::UNIX_EPOCH).unwrap();
    Moment { secs: d.as_secs() as i64, nanos: d.subsec_nanos() }
}

const NOW: Moment = Moment { secs: 1_000_000, nanos: 5 };

fn at(secs: i64, nanos: u32) -> Moment {
    Moment { secs, nanos }
}

#[test]
fn parse_since_duration() {
    let since = parse_since("10m", clock()).expect("since");
    let now = clock();
    let delta = (now.secs - since.secs) as u64;
    assert!(delta >= 9 * 60 && delta <= 11 * 60);
}

#[test]
fn every_unit_has_its_length() {
    assert_eq!(parse_since("10s", NOW), Ok(at(999_990, 5)));
    assert_eq!(parse_since("10M", NOW), Ok(at(999_400, 5)));
    assert_eq!(parse_since(" 2h ", NOW), Ok(at(992_800, 5)));
    assert_eq!(parse_since("1D", NOW), Ok(at(913_600, 5)));
    assert_eq!(parse_since("20d", NOW), Ok(at(-728_000, 5)));
    assert_eq!(parse_since("1700000000", NOW), Ok(at(1_700_000_000, 0)));
    assert_eq!(parse_since("+5", NOW), Ok(at(5, 0)));
}

#[test]
fn what_reaches_too_far_back_is_the_epoch() {
    assert_eq!(parse_since("18446744073709551615s", NOW), Ok(at(0, 0)));
}

#[test]
fn since_errors_name_the_input() {
    assert_eq!(parse_since("  ", NOW), Err(SinceError::Empty));
    assert_eq!(parse_since("m", NOW), Err(SinceError::Value));
    assert_eq!(parse_since("-1m", NOW), Err(SinceError::Value));
    assert_eq!(parse_since("10w", NOW), Err(SinceError::Unit));
    assert_eq!(SinceError::Empty.message(" "), "--since is empty");
    assert_eq!(SinceError::Value.message("x m"), "invalid --since value: x m");
    assert_eq!(SinceError::Unit.message("10w"), "invalid --since unit: 10w (use s/m/h/d or unix seconds)");
}

#[test]
fn what_cannot_be_held_does_not_fit() {
    assert!(since_fits("10m"));
    assert!(since_fits(""));
    assert!(since_fits("10w"));
    assert!(!since_fits("10\u{b5}"));
    assert!(!since_fits("18446744073709551615"));
    assert!(!since_fits("18446744073709551615m"));
    assert!(since_fits("9223372036854775807"));
}

#[test]
fn a_clock_before_the_epoch_shows_zero() {
    assert_eq!(now_ts(at(-1, 7)), 0);
    assert_eq!(now_ts(at(17, 7)), 17);
}

#[test]
fn moments_are_ordered() {
    assert!(at(1, 9).is_before(&at(2, 0)));
    assert!(at(1, 0).is_before(&at(1, 1)));
    assert!(!at(1, 1).is_before(&at(1, 1)));
    assert!(!at(2, 0).is_before(&at(1, 9)));
}
