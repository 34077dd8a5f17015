use cryptdatum::timestamp;
use cryptdatum::timestamp::{
    days_in_month, div_rem, get_date, is_leap_year, write_str, MAX_BUF_SIZE,
};

#[test]
fn format_documented_example() {
    let ts = 1234567890;
    let fmt = "%Y-%m-%dT%H:%M:%S%nZ";
    assert_eq!(timestamp::format(fmt, ts), "1970-01-01T01:00:00.234567890Z");
}

#[test]
fn format_magic_date() {
    let s = timestamp::format("%Y-%m-%dT%H:%M:%S%nZ", 1652155382000000001);
    assert_eq!(s, "2022-05-10T02:03:04.000000001Z");
}

#[test]
fn format_zero() {
    assert_eq!(timestamp::format("%Y/%m/%d %n", 0), "1970/01/01 .000000000");
}

#[test]
fn format_copies_other_characters() {
    assert_eq!(timestamp::format("at %q!", 0), "at q!");
    assert_eq!(timestamp::format("100%%", 0), "100%");
    assert_eq!(timestamp::format("end%", 0), "end%");
    assert_eq!(timestamp::format("", 0), "");
    assert_eq!(timestamp::format("é %Y", 0), "é 1970");
}

#[test]
fn format_stops_at_capacity() {
    let s = timestamp::format("%n%n%n%n%n%n%n", 5);
    assert_eq!(s.chars().count(), MAX_BUF_SIZE);
    assert_eq!(&s[0..10], ".000000005");
    let long = "x".repeat(100);
    assert_eq!(timestamp::format(&long, 0), "x".repeat(64));
}

#[test]
fn format_largest_timestamp() {
    let s = timestamp::format("%Y-%m-%d %n", u64::MAX);
    assert_eq!(s, "2554-07-21 .709551615");
}

#[test]
fn leap_day_placement() {
    assert_eq!(get_date(0), (1970, 1, 1));
    assert_eq!(get_date(11016), (2000, 2, 29));
    assert_eq!(get_date(11017), (2000, 3, 1));
    assert_eq!(get_date(19782), (2024, 2, 29));
    assert_eq!(get_date(47540), (2100, 2, 28));
    assert_eq!(get_date(47541), (2100, 3, 1));
    assert_eq!(get_date(365), (1971, 1, 1));
    assert_eq!(get_date(364), (1970, 12, 31));
    assert_eq!(get_date(789), (1972, 2, 29));
    assert_eq!(get_date(1095), (1972, 12, 31));
}

#[test]
fn leap_years() {
    assert!(is_leap_year(2000));
    assert!(is_leap_year(2024));
    assert!(!is_leap_year(1900));
    assert!(!is_leap_year(2100));
    assert!(!is_leap_year(2023));
    assert_eq!(days_in_month(2024, 2), 29);
    assert_eq!(days_in_month(2100, 2), 28);
    assert_eq!(days_in_month(2023, 4), 30);
    assert_eq!(days_in_month(2023, 12), 31);
}

#[test]
fn div_rem_values() {
    assert_eq!(div_rem(1234567890, 1_000_000_000), (1, 234567890));
    assert_eq!(div_rem(7, 7), (1, 0));
}

#[test]
fn write_str_caps() {
    let mut buf = String::from("abc");
    let n = write_str(3, &mut buf, &String::from("def"));
    assert_eq!((n, buf.as_str()), (6, "abcdef"));
    let mut full = "y".repeat(62);
    let n = write_str(62, &mut full, &String::from("1234"));
    assert_eq!(n, 64);
    assert_eq!(&full[60..], "yy12");
}
