use std::time::Duration;
use std::time::SystemTime;
use std::time::UNIX_EPOCH;
use swab::age::parse_age;
use swab::age::Age;
use swab::age::AgeError;
use swab::age::Timestamp;

fn lenient(text: &str, expected_secs: u64) {
    assert_eq!(Age::parse(text).unwrap(), Age::from_secs(expected_secs));
}

fn moment(time: SystemTime) -> Timestamp {
    let since = time.duration_since(UNIX_EPOCH).unwrap();
    Timestamp { seconds: since.as_secs(), nanos: since.subsec_nanos() }
}

fn at(seconds: u64, nanos: u32) -> Timestamp {
    Timestamp { seconds, nanos }
}

#[test]
fn parsing() {
    lenient("1s", 1);
    lenient("5s", 5);
    lenient("1m", 60);
    lenient("5m", 300);
    lenient("1h", 3600);
    lenient("2h", 7200);
    lenient("1d", 86400);
    lenient("7d", 604_800);
    lenient("1w", 604_800);
    lenient("2w", 1_209_600);
    lenient("1mo", 2_592_000);
    lenient("1y", 31_536_000);
}

#[test]
fn parsing_with_ago_suffix() {
    lenient("1d ago", 86400);
    lenient("1dago", 86400);
    lenient("  5d ago  ", 432_000);
}

#[test]
fn parse_invalid_unit() {
    assert_eq!(Age::parse("5x").unwrap_err().message(), "invalid age unit: `x`");
}

#[test]
fn parse_invalid_amount() {
    assert_eq!(Age::parse("abcd").unwrap_err().message(), "invalid age amount: ``");
}

#[test]
fn older_than() {
    let now = SystemTime::now();
    let age = Age::from_secs(60);

    assert!(!age.older_than(moment(now), moment(now)));
    assert!(age.older_than(moment(now - Duration::from_secs(120)), moment(now)));
}

#[test]
fn parse_age_accepts_valid_inputs() {
    assert_eq!(parse_age("30d").unwrap(), Age::from_secs(30 * 24 * 60 * 60));
    assert_eq!(parse_age("12h ago").unwrap(), Age::from_secs(12 * 60 * 60));
    assert_eq!(parse_age("2w").unwrap(), Age::from_secs(2 * 7 * 24 * 60 * 60));
    assert_eq!(parse_age("1y").unwrap(), Age::from_secs(365 * 24 * 60 * 60));
}

#[test]
fn parse_age_rejects_invalid_inputs() {
    assert!(parse_age("3x").is_err());
    assert!(parse_age("ago").is_err());
    assert!(parse_age("30 d").is_err());
    assert!(parse_age("30dago").is_err());
}

#[test]
fn parse_age_names_each_fault() {
    assert!(matches!(parse_age("3x"), Err(AgeError::UnknownUnit)));
    assert!(matches!(parse_age("ago"), Err(AgeError::MissingSpace)));
    assert!(matches!(parse_age("30dago"), Err(AgeError::MissingSpace)));
    assert!(matches!(parse_age("30 d"), Err(AgeError::Malformed)));
    assert!(matches!(parse_age(""), Err(AgeError::Malformed)));
    assert!(matches!(parse_age("   "), Err(AgeError::Malformed)));
    assert!(matches!(parse_age("30"), Err(AgeError::MissingUnit)));
    assert!(matches!(parse_age("d"), Err(AgeError::MissingAmount)));
    assert!(matches!(parse_age("99999999999999999999d"), Err(AgeError::AmountNotInteger)));
    assert!(matches!(parse_age("18446744073709551615y"), Err(AgeError::TooLarge)));
    assert_eq!(parse_age("18446744073709551615s").unwrap(), Age::from_secs(u64::MAX));
}

#[test]
fn parse_age_messages() {
    assert_eq!(
        parse_age("30dago").unwrap_err().message(),
        "invalid age: expected a space before `ago`"
    );
    assert_eq!(
        parse_age("30 d").unwrap_err().message(),
        "invalid age: expected <amount><unit>[ ago] with no interior spaces"
    );
    assert_eq!(parse_age("30").unwrap_err().message(), "invalid age: missing unit");
    assert_eq!(parse_age("d").unwrap_err().message(), "invalid age: missing amount");
    assert_eq!(
        parse_age("99999999999999999999d").unwrap_err().message(),
        "invalid age: amount must be an integer"
    );
    assert_eq!(
        parse_age("3x").unwrap_err().message(),
        "invalid age: unit must be one of s, m, h, d, w, mo, y"
    );
    assert_eq!(
        parse_age("18446744073709551615y").unwrap_err().message(),
        "invalid age: value is too large"
    );
}

#[test]
fn lenient_parse_strips_every_trailing_ago() {
    lenient("3hagoago", 10_800);
    lenient("\t2m  ago\n", 120);
    assert_eq!(Age::parse("1d ago ago").unwrap_err().message(), "invalid age unit: `d ago`");
    assert_eq!(Age::parse("").unwrap_err().message(), "invalid age amount: ``");
    assert_eq!(Age::parse("ago").unwrap_err().message(), "invalid age amount: ``");
}

#[test]
fn lenient_parse_refuses_what_does_not_fit() {
    assert_eq!(
        Age::parse("99999999999999999999s").unwrap_err().message(),
        "invalid age amount: `99999999999999999999`"
    );
    assert_eq!(
        Age::parse("18446744073709551615m").unwrap_err().message(),
        "invalid age amount: `18446744073709551615`"
    );
    lenient("18446744073709551615s", u64::MAX);
    lenient("007d", 604_800);
}

#[test]
fn older_than_is_strict_and_never_true_of_the_future() {
    let age = Age::from_secs(60);
    assert!(!age.older_than(at(100, 0), at(160, 0)));
    assert!(age.older_than(at(100, 0), at(160, 1)));
    assert!(!age.older_than(at(200, 0), at(100, 0)));
    assert!(Age::from_secs(0).older_than(at(5, 0), at(5, 1)));
    assert!(!Age::from_secs(0).older_than(at(5, 0), at(5, 0)));
}

#[test]
fn timestamps_compare_by_seconds_then_nanos() {
    assert!(at(2, 0).is_after(at(1, 999_999_999)));
    assert!(at(1, 5).is_after(at(1, 4)));
    assert!(!at(1, 4).is_after(at(1, 4)));
    assert_eq!(Timestamp::epoch(), at(0, 0));
}

#[test]
fn format_counts_in_the_largest_fitting_unit() {
    let start = at(1_000_000, 0);
    assert_eq!(start.format(at(1_000_000, 0)), "0 seconds ago");
    assert_eq!(start.format(at(1_000_001, 0)), "1 second ago");
    assert_eq!(start.format(at(1_000_059, 999_999_999)), "59 seconds ago");
    assert_eq!(start.format(at(1_000_060, 0)), "1 minute ago");
    assert_eq!(start.format(at(1_000_000 + 3599, 0)), "59 minutes ago");
    assert_eq!(start.format(at(1_000_000 + 3600, 0)), "1 hour ago");
    assert_eq!(start.format(at(1_000_000 + 86_399, 0)), "23 hours ago");
    assert_eq!(start.format(at(1_000_000 + 86_400, 0)), "1 day ago");
    assert_eq!(start.format(at(1_000_000 + 10 * 86_400, 0)), "10 days ago");
    assert_eq!(start.format(at(999_999, 0)), "0 seconds ago");
}
