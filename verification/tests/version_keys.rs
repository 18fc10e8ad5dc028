use std::cmp::Ordering;

use toolchain_registry::text::{same_text, text_precedes};
use toolchain_registry::version_key::{ParseError, VersionKey};

fn key(text: &str) -> VersionKey {
    VersionKey::parse(text).unwrap()
}

#[test]
fn parse_reads_name_and_numbers() {
    let k = key("cpython@3.11.4");
    assert_eq!(k.name, "cpython");
    assert_eq!((k.major, k.minor, k.patch), (3, 11, 4));
}

#[test]
fn parse_keeps_debug_suffix_in_name() {
    let k = key("cpython-dbg@3.12.0");
    assert_eq!(k.name, "cpython-dbg");
    assert_eq!((k.major, k.minor, k.patch), (3, 12, 0));
}

#[test]
fn parse_accepts_extreme_numbers() {
    let k = key("pypy@0.0.0");
    assert_eq!((k.major, k.minor, k.patch), (0, 0, 0));
    let k = key("pypy@255.100.99");
    assert_eq!((k.major, k.minor, k.patch), (255, 100, 99));
}

#[test]
fn parse_accepts_empty_and_unusual_names() {
    assert_eq!(key("@1.2.3").name, "");
    assert_eq!(key("my build.1@1.2.3").name, "my build.1");
    assert_eq!(key("pythön@1.2.3").name, "pythön");
}

#[test]
fn parse_refuses_text_without_separator() {
    assert_eq!(VersionKey::parse("cpython").unwrap_err(), ParseError::MissingSeparator);
    assert_eq!(VersionKey::parse("3.11.4").unwrap_err(), ParseError::MissingSeparator);
    assert_eq!(VersionKey::parse("").unwrap_err(), ParseError::MissingSeparator);
}

#[test]
fn parse_refuses_malformed_versions() {
    for text in [
        "cpython@",
        "cpython@3",
        "cpython@3.11",
        "cpython@3.11.",
        "cpython@3..4",
        "cpython@.11.4",
        "cpython@3.11.4.5",
        "cpython@3.11.4 ",
        "cpython@ 3.11.4",
        "cpython@3.011.4",
        "cpython@03.11.4",
        "cpython@3.11.00",
        "cpython@3.256.0",
        "cpython@3.11.1000",
        "cpython@3.11.4a1",
        "cpython@3.x.4",
        "cpython@-3.11.4",
        "cpython@+3.11.4",
        "a@b@3.11.4",
        "cpython@3.11.4@",
        "cpython@٣.11.4",
    ] {
        assert_eq!(
            VersionKey::parse(text).unwrap_err(),
            ParseError::MalformedVersion,
            "{}",
            text
        );
    }
}

#[test]
fn to_string_writes_canonical_text() {
    let k = VersionKey { name: "cpython".to_string(), major: 3, minor: 11, patch: 4 };
    assert_eq!(k.to_string(), "cpython@3.11.4");
    let k = VersionKey { name: "pypy-dbg".to_string(), major: 200, minor: 0, patch: 10 };
    assert_eq!(k.to_string(), "pypy-dbg@200.0.10");
    let k = VersionKey { name: String::new(), major: 109, minor: 90, patch: 9 };
    assert_eq!(k.to_string(), "@109.90.9");
}

#[test]
fn text_round_trips_through_parse() {
    for text in [
        "cpython@3.11.4",
        "cpython-dbg@3.11.4",
        "pypy@3.9.0",
        "custom@0.0.0",
        "x@255.255.255",
        "@10.20.30",
        "a.b-c_d@1.10.100",
    ] {
        assert_eq!(key(text).to_string(), text);
    }
}

#[test]
fn every_well_formed_key_round_trips_through_text() {
    for n in 0..=255u8 {
        let k = VersionKey { name: "n".to_string(), major: n, minor: 255 - n, patch: n / 2 };
        let back = key(&k.to_string());
        assert_eq!(back, k);
    }
}

#[test]
fn compare_orders_by_name_ascending() {
    assert_eq!(key("cpython@3.11.4").compare(&key("pypy@3.9.0")), Ordering::Less);
    assert_eq!(key("pypy@3.9.0").compare(&key("cpython@3.11.4")), Ordering::Greater);
    assert_eq!(key("cpython@3.11.4").compare(&key("cpython-dbg@3.11.4")), Ordering::Less);
    assert_eq!(key("Z@1.0.0").compare(&key("a@9.9.9")), Ordering::Less);
}

#[test]
fn compare_orders_versions_descending_within_a_name() {
    assert_eq!(key("cpython@3.12.0").compare(&key("cpython@3.11.4")), Ordering::Less);
    assert_eq!(key("cpython@3.9.18").compare(&key("cpython@3.10.0")), Ordering::Greater);
    assert_eq!(key("cpython@3.11.5").compare(&key("cpython@3.11.4")), Ordering::Less);
    assert_eq!(key("cpython@2.7.18").compare(&key("cpython@3.0.0")), Ordering::Greater);
}

#[test]
fn compare_is_equal_only_on_one_key() {
    assert_eq!(key("cpython@3.11.4").compare(&key("cpython@3.11.4")), Ordering::Equal);
    assert!(key("cpython@3.11.4") == key("cpython@3.11.4"));
    assert!(key("cpython@3.11.4") != key("cpython@3.11.5"));
    assert!(key("cpython@3.11.4") != key("cpythoN@3.11.4"));
}

#[test]
fn precedes_agrees_with_compare() {
    let keys = ["a@1.0.0", "a@2.0.0", "b@1.0.0", "ab@1.0.0", "a@1.0.1"];
    for x in keys {
        for y in keys {
            let less = key(x).compare(&key(y)) == Ordering::Less;
            assert_eq!(key(x).precedes(&key(y)), less);
        }
    }
}

#[test]
fn text_order_is_the_dictionary_order() {
    assert!(text_precedes("", "a"));
    assert!(!text_precedes("a", ""));
    assert!(!text_precedes("a", "a"));
    assert!(text_precedes("a", "ab"));
    assert!(text_precedes("ab", "b"));
    assert!(text_precedes("z", "é"));
    for (x, y) in [("abc", "abd"), ("", ""), ("é", "z"), ("10", "9")] {
        assert_eq!(text_precedes(x, y), x < y);
    }
}

#[test]
fn same_text_compares_whole_texts() {
    assert!(same_text("python_debug", "python_debug"));
    assert!(!same_text("python_debug", "python_debu"));
    assert!(!same_text("a", "b"));
    assert!(same_text("", ""));
}

#[test]
fn clone_keeps_the_key() {
    let k = key("cpython@3.11.4");
    assert_eq!(k.clone(), k);
}
