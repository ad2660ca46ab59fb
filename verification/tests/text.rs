use rss::text::{i64_to_string, local_name, str_eq};

#[test]
fn str_eq_compares_character_by_character() {
    assert!(str_eq("", ""));
    assert!(str_eq("url", "url"));
    assert!(str_eq("\u{e9}t\u{e9}", "\u{e9}t\u{e9}"));
    assert!(!str_eq("url", "urn"));
    assert!(!str_eq("url", "ur"));
    assert!(!str_eq("", "u"));
    assert!(!str_eq("\u{e9}", "e"));
}

#[test]
fn i64_to_string_writes_decimal() {
    assert_eq!(i64_to_string(0), "0");
    assert_eq!(i64_to_string(7), "7");
    assert_eq!(i64_to_string(10), "10");
    assert_eq!(i64_to_string(80), "80");
    assert_eq!(i64_to_string(-1), "-1");
    assert_eq!(i64_to_string(-120), "-120");
    assert_eq!(i64_to_string(1234567890), "1234567890");
    assert_eq!(i64_to_string(i64::MAX), "9223372036854775807");
    assert_eq!(i64_to_string(i64::MIN), "-9223372036854775808");
}

#[test]
fn local_name_is_what_stands_behind_the_first_colon() {
    assert_eq!(local_name("dc:creator"), "creator");
    assert_eq!(local_name("creator"), "creator");
    assert_eq!(local_name("a:b:c"), "b:c");
    assert_eq!(local_name(":x"), "x");
    assert_eq!(local_name("x:"), "");
    assert_eq!(local_name(":"), "");
    assert_eq!(local_name(""), "");
    assert_eq!(local_name("\u{e9}t\u{e9}:\u{fc}ber"), "\u{fc}ber");
}
