use cryptdatum::{bool_str, pretty_size};

#[test]
fn pretty_size_units() {
    assert_eq!(pretty_size(0), "0 B");
    assert_eq!(pretty_size(1023), "1023 B");
    assert_eq!(pretty_size(1024), "1 KB");
    assert_eq!(pretty_size(1536), "1 KB");
    assert_eq!(pretty_size(1048576), "1 MB");
    assert_eq!(pretty_size(5 * 1024 * 1024 * 1024), "5 GB");
    assert_eq!(pretty_size(u64::MAX), "15 EB");
}

#[test]
fn bool_str_values() {
    assert_eq!(bool_str(true), "true");
    assert_eq!(bool_str(false), "false");
}
