use webkernel::strutil::{join_segments, parse_u32, split_path, u32_to_string};

#[test]
fn split_on_slashes() {
    assert_eq!(split_path("/users/admin"), vec!["", "users", "admin"]);
    assert_eq!(split_path(""), vec![""]);
    assert_eq!(split_path("/"), vec!["", ""]);
    assert_eq!(split_path("a/b"), vec!["a", "b"]);
    assert_eq!(split_path("//"), vec!["", "", ""]);
}

#[test]
fn join_inverts_split() {
    for path in ["/users/admin", "", "/", "a/b", "//", "/wildcard/a/b/c"] {
        let segs = split_path(path);
        assert_eq!(join_segments(&segs, 0), path);
    }
}

#[test]
fn parse_u32_accepts_exactly_decimal_u32_strings() {
    assert_eq!(parse_u32("0"), Some(0));
    assert_eq!(parse_u32("42"), Some(42));
    assert_eq!(parse_u32("007"), Some(7));
    assert_eq!(parse_u32("4294967295"), Some(u32::MAX));
    assert_eq!(parse_u32("4294967296"), None);
    assert_eq!(parse_u32("99999999999999999999"), None);
    assert_eq!(parse_u32(""), None);
    assert_eq!(parse_u32("-1"), None);
    assert_eq!(parse_u32("+1"), None);
    assert_eq!(parse_u32("12a"), None);
    assert_eq!(parse_u32("a12"), None);
}

#[test]
fn u32_formats_in_decimal() {
    assert_eq!(u32_to_string(0), "0");
    assert_eq!(u32_to_string(7), "7");
    assert_eq!(u32_to_string(10), "10");
    assert_eq!(u32_to_string(1234567890), "1234567890");
    assert_eq!(u32_to_string(u32::MAX), "4294967295");
}
