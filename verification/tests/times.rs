use rust_tar::calendar::{date_from_days, days_of_date};
use rust_tar::mtime::{format_mtime, mtime_from_groups, parse_mtime_arg};
use rust_tar::number::{decimal_chars, padded_chars, parse_i64, parse_u64, parse_unsigned};

fn chars(s: &str) -> Vec<char> {
    s.chars().collect()
}

fn groups(parts: [Option<&str>; 7]) -> Vec<Option<String>> {
    parts.iter().map(|p| p.map(|s| s.to_string())).collect()
}

#[test]
fn times_are_shown_in_utc() {
    assert_eq!(format_mtime(0), "1970-01-01 00:00");
    assert_eq!(format_mtime(59), "1970-01-01 00:00");
    assert_eq!(format_mtime(60), "1970-01-01 00:01");
    assert_eq!(format_mtime(-1), "1969-12-31 23:59");
    assert_eq!(format_mtime(951782400), "2000-02-29 00:00");
    assert_eq!(format_mtime(1680350400), "2023-04-01 12:00");
    assert_eq!(format_mtime(4102444799), "2099-12-31 23:59");
    assert_eq!(format_mtime(253402300800), "10000-01-01 00:00");
    assert_eq!(format_mtime(-62198755200), "-001-01-01 00:00");
}

#[test]
fn extreme_times_are_shown() {
    assert_eq!(format_mtime(i64::MAX), "292277026596-12-04 15:30");
    assert_eq!(format_mtime(i64::MIN), "-292277022657-01-27 08:29");
}

#[test]
fn seconds_behind_an_at_sign_are_read() {
    assert_eq!(parse_mtime_arg("@0"), Some(0));
    assert_eq!(parse_mtime_arg("@1680350400"), Some(1680350400));
    assert_eq!(parse_mtime_arg("@-5"), Some(-5));
    assert_eq!(parse_mtime_arg("@+5"), Some(5));
    assert_eq!(parse_mtime_arg("@"), None);
    assert_eq!(parse_mtime_arg("@1.5"), None);
    assert_eq!(parse_mtime_arg("@9223372036854775807"), Some(i64::MAX));
    assert_eq!(parse_mtime_arg("@-9223372036854775808"), Some(i64::MIN));
    assert_eq!(parse_mtime_arg("@9223372036854775808"), None);
}

#[test]
fn dates_are_read() {
    assert_eq!(parse_mtime_arg("1970-01-01"), Some(0));
    assert_eq!(parse_mtime_arg("2023-04-01 12:00:00"), Some(1680350400));
    assert_eq!(parse_mtime_arg("2023-04-01T12:00:07"), Some(1680350407));
    assert_eq!(parse_mtime_arg("2023-04-01 12:00"), Some(1680350400));
    assert_eq!(parse_mtime_arg("2000-02-29"), Some(951782400));
    assert_eq!(parse_mtime_arg("2023-04-01x"), Some(1680307200));
    assert_eq!(parse_mtime_arg("2023-04-01 12"), Some(1680307200));
    assert_eq!(parse_mtime_arg("2023-04-01 12:00:0"), Some(1680350400));
}

#[test]
fn what_is_no_date_is_not_interpreted() {
    assert_eq!(parse_mtime_arg(""), None);
    assert_eq!(parse_mtime_arg("yesterday"), None);
    assert_eq!(parse_mtime_arg("23-04-01"), None);
    assert_eq!(parse_mtime_arg(" 2023-04-01"), None);
    assert_eq!(parse_mtime_arg("２０２３-04-01"), None);
}

#[test]
fn days_and_times_that_are_none_are_not_interpreted() {
    for no_date in [
        "2023-03-00", "2023-04-00", "2023-01-00", "2023-02-29", "2023-02-30", "2023-04-31",
        "2023-00-01", "2023-13-01", "1900-02-29", "2023-12-32", "2023-99-99",
    ] {
        assert_eq!(parse_mtime_arg(no_date), None);
    }
    for no_time in ["24:00", "99:00", "12:60", "12:99", "12:00:60", "12:00:99"] {
        assert_eq!(parse_mtime_arg(&format!("2023-04-01 {no_time}")), None);
    }
    assert_eq!(parse_mtime_arg("2024-02-29 23:59:59"), Some(1709251199));
    assert_eq!(parse_mtime_arg("0000-02-29"), Some(-62162121600));
    assert_eq!(parse_mtime_arg("9999-12-31 23:59:59"), Some(253402300799));
}

#[test]
fn groups_of_a_date_are_read() {
    let g = groups([None, Some("2023"), Some("04"), Some("01"), None, None, None]);
    assert_eq!(mtime_from_groups(&g), Some(1680307200));
    let g = groups([
        None,
        Some("2023"),
        Some("04"),
        Some("01"),
        Some("12"),
        Some("00"),
        Some("07"),
    ]);
    assert_eq!(mtime_from_groups(&g), Some(1680350407));
    let g = groups([None, Some("२०२३"), Some("04"), Some("01"), None, None, None]);
    assert_eq!(mtime_from_groups(&g), None);
    let g = groups([
        None,
        Some("1970"),
        Some("01"),
        Some("01"),
        Some("१२"),
        Some("01"),
        None,
    ]);
    assert_eq!(mtime_from_groups(&g), None);
}

#[test]
fn shown_times_are_read_back_to_the_minute() {
    for secs in [0, 951782400, 1680350459, 1709164800, 4102444799, -62167219200] {
        let text = format_mtime(secs);
        assert_eq!(parse_mtime_arg(&text), Some(secs - secs.rem_euclid(60)));
    }
}

#[test]
fn dates_and_days_are_inverse() {
    assert_eq!(date_from_days(0), (1970, 1, 1));
    assert_eq!(date_from_days(-1), (1969, 12, 31));
    assert_eq!(date_from_days(11016), (2000, 2, 29));
    for days in [-719468, -1, 0, 59, 60, 365, 11016, 19000, 36524, 146097] {
        let (y, m, d) = date_from_days(days);
        if (0..=9999).contains(&y) {
            assert_eq!(days_of_date(y, m as i64, d as i64), days);
        }
    }
}

#[test]
fn numbers_are_written_and_read() {
    assert_eq!(decimal_chars(0), chars("0"));
    assert_eq!(decimal_chars(18446744073709551615), chars("18446744073709551615"));
    assert_eq!(padded_chars(7, 2), chars("07"));
    assert_eq!(padded_chars(-1, 4), chars("-001"));
    assert_eq!(padded_chars(12345, 4), chars("12345"));
    assert_eq!(parse_u64("18446744073709551615"), Some(u64::MAX));
    assert_eq!(parse_u64("18446744073709551616"), None);
    assert_eq!(parse_u64("+7"), Some(7));
    assert_eq!(parse_u64("-7"), None);
    assert_eq!(parse_u64(""), None);
    assert_eq!(parse_u64("+"), None);
    assert_eq!(parse_i64(&chars("-")), None);
    assert_eq!(parse_i64(&chars("--1")), None);
    assert_eq!(parse_unsigned(&chars("777"), 8, u64::MAX), Some(511));
    assert_eq!(parse_unsigned(&chars("78"), 8, u64::MAX), None);
    assert_eq!(parse_unsigned(&chars("1000"), 10, 999), None);
}

#[test]
fn shown_times_are_ordered_like_minutes() {
    let secs = [
        -62167219200, -62167219141, -62167219140, -1, 0, 59, 60, 3599, 3600, 86399, 86400,
        951782399, 951782400, 1680350459, 4102444799, 253402300799,
    ];
    for a in secs {
        assert_eq!(format_mtime(a).len(), 16);
        for b in secs {
            let (m, n) = (a.div_euclid(60), b.div_euclid(60));
            assert_eq!(format_mtime(a) == format_mtime(b), m == n);
            assert_eq!(format_mtime(a) < format_mtime(b), m < n);
        }
    }
    assert_eq!(format_mtime(-62167219200), "0000-01-01 00:00");
    assert_eq!(format_mtime(253402300799), "9999-12-31 23:59");
}
