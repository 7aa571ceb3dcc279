use meme_data_service::interval::{
    default_interval, interval_start_ts, is_active_interval, parse_interval_to_seconds,
};

#[test]
fn test_parse_interval_to_seconds_valid() {
    assert_eq!(parse_interval_to_seconds("1s"), Some(1));
    assert_eq!(parse_interval_to_seconds("60s"), Some(60));
    assert_eq!(parse_interval_to_seconds("1m"), Some(60));
    assert_eq!(parse_interval_to_seconds("5m"), Some(300));
    assert_eq!(parse_interval_to_seconds("1h"), Some(3600));
    assert_eq!(parse_interval_to_seconds("2h"), Some(7200));
    assert_eq!(parse_interval_to_seconds("1d"), Some(86400));
}

#[test]
fn test_parse_interval_to_seconds_invalid() {
    assert_eq!(parse_interval_to_seconds("1"), None); // no unit
    assert_eq!(parse_interval_to_seconds("m"), None); // no number
    assert_eq!(parse_interval_to_seconds("1x"), None); // unknown unit
    assert_eq!(parse_interval_to_seconds(""), None); // nothing at all
    assert_eq!(parse_interval_to_seconds("60m1s"), None); // two intervals
    assert_eq!(parse_interval_to_seconds("-1m"), None); // negative
    assert_eq!(parse_interval_to_seconds("1.5m"), None); // fractional
}

#[test]
fn default_interval_is_one_minute() {
    assert_eq!(default_interval(), "1m");
    assert_eq!(parse_interval_to_seconds(&default_interval()), Some(60));
}

#[test]
fn numbers_are_read_as_decimal() {
    assert_eq!(parse_interval_to_seconds("+5m"), Some(300));
    assert_eq!(parse_interval_to_seconds("0007s"), Some(7));
    assert_eq!(parse_interval_to_seconds("0s"), Some(0));
    assert_eq!(parse_interval_to_seconds("18446744073709551615s"), Some(u64::MAX));
    assert_eq!(parse_interval_to_seconds("18446744073709551616s"), None);
    assert_eq!(parse_interval_to_seconds("213503982334601d"), Some(18446744073709526400));
}

#[test]
fn other_texts_are_no_intervals() {
    for text in ["+m", "++1m", " 1m", "1m ", "1M", "1分", "é1m", "１m", "+", "s"] {
        assert_eq!(parse_interval_to_seconds(text), None, "{}", text);
    }
}

#[test]
fn too_many_seconds_are_no_interval() {
    assert_eq!(parse_interval_to_seconds("213503982334602d"), None);
    assert_eq!(parse_interval_to_seconds("5124095576030432h"), None);
    assert_eq!(parse_interval_to_seconds("18446744073709551615m"), None);
    assert_eq!(parse_interval_to_seconds("99999999999999999999m"), None);
    assert_eq!(parse_interval_to_seconds("307445734561825860m"), Some(18446744073709551600));
}

#[test]
fn buckets_start_at_multiples_of_the_interval() {
    assert_eq!(interval_start_ts(65, 60), 60);
    assert_eq!(interval_start_ts(59, 60), 0);
    assert_eq!(interval_start_ts(600, 300), 600);
    assert_eq!(interval_start_ts(u64::MAX, 1), u64::MAX);
}

#[test]
fn one_and_five_minutes_are_active() {
    assert!(is_active_interval(60));
    assert!(is_active_interval(300));
    assert!(!is_active_interval(1));
    assert!(!is_active_interval(3600));
    assert!(!is_active_interval(0));
}
