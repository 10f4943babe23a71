//! Text functions.

use proximadb::text::finite::{double_text, single_text};
use proximadb::text::float::float_text;
use proximadb::text::hex::hex_of;
use proximadb::text::map::TextMap;
use proximadb::text::number::{decimal_text, read_signed, read_unsigned, signed_decimal_text};
use proximadb::text::order::{comes_before, insert_ascending};
use proximadb::text::split::{join_texts, split_text};
use proximadb::text::trim::trimmed;

fn chars(s: &str) -> Vec<char> {
    s.chars().collect()
}

#[test]
fn decimals_read_back() {
    for n in [0u64, 7, 10, 999, u64::MAX] {
        assert_eq!(decimal_text(n as u128), n.to_string());
        assert_eq!(read_unsigned(&chars(&n.to_string()), u64::MAX), Some(n));
    }
    for n in [0i64, -1, 5, i64::MIN, i64::MAX] {
        assert_eq!(signed_decimal_text(n), n.to_string());
        assert_eq!(read_signed(&chars(&n.to_string())), Some(n));
    }
    for t in ["", "-", "+", "1x", "18446744073709551616", "-1", "+7", "007"] {
        assert_eq!(read_unsigned(&chars(t), u64::MAX), t.parse::<u64>().ok(), "{t:?}");
        assert_eq!(read_signed(&chars(t)), t.parse::<i64>().ok(), "{t:?}");
    }
}

#[test]
fn floats_are_told_from_other_texts() {
    for t in [
        "1", "-1.5", "+.5", "1.", "1e3", "1E-3", "inf", "-Infinity", "nan", "NaN", "", ".", "e3", "1e", "1e+",
        "0x1", "1_0", " 1", "+-1", "infin",
    ] {
        assert_eq!(float_text(&chars(t)), t.parse::<f64>().is_ok(), "{t:?}");
    }
}

#[test]
fn finite_texts_are_those_in_range() {
    for t in [
        "0",
        "1e38",
        "3.4028235e38",
        "3.4028235677973362e38",
        "3.4028235677973366e38",
        "1e39",
        "-1e39",
        "0.000000001e47",
        "1e300",
        "nan",
        "inf",
        "x",
        "1e99999999999999999999",
        "0e99999999999999999999",
        "1e-99999999999999999999",
    ] {
        let expected = t.parse::<f32>().map(|x| x.is_finite()).unwrap_or(false);
        assert_eq!(single_text(&chars(t)), expected, "{t}");
    }
    for t in [
        "1e308",
        "1.7976931348623157e308",
        "1.7976931348623158e308",
        "1.7976931348623159e308",
        "1.8e308",
        "-1e309",
        "1e-400",
    ] {
        let expected = t.parse::<f64>().map(|x| x.is_finite()).unwrap_or(false);
        assert_eq!(double_text(&chars(t)), expected, "{t}");
    }
}

#[test]
fn maps_keep_their_keys_in_order() {
    let mut m = TextMap::new();
    m.insert("b".to_string(), 1);
    m.insert("a".to_string(), 2);
    m.insert("b".to_string(), 3);
    assert_eq!(m.len(), 2);
    assert_eq!((m.key_at(0).as_str(), *m.value_at(0)), ("a", 2));
    assert_eq!(m.get("b"), Some(&3));
    m.remove("b");
    assert_eq!(m.get("b"), None);
    m.remove("z");
    assert_eq!(m.len(), 1);
}

#[test]
fn texts_are_ordered_by_scalar_values() {
    assert!(comes_before("a", "b"));
    assert!(comes_before("a", "aa"));
    assert!(!comes_before("b", "a"));
    assert!(!comes_before("a", "a"));
    assert!(comes_before("z", "é"));
    let mut v = Vec::new();
    for t in ["b", "a", "c", "a"] {
        insert_ascending(&mut v, t.to_string());
    }
    assert_eq!(v, ["a", "b", "c"]);
}

#[test]
fn pieces_join_back() {
    let parts = split_text("a,,b", ',');
    assert_eq!(parts, ["a", "", "b"]);
    assert_eq!(join_texts(&parts, ","), "a,,b");
    assert_eq!(split_text("", ','), [""]);
}

#[test]
fn bytes_are_shown_in_hexadecimal() {
    assert_eq!(hex_of(&[0x00, 0x1f, 0xff]), "001fff");
    assert_eq!(hex_of(&[]), "");
    assert_ne!(hex_of(&[1, 2]), hex_of(&[2, 1]));
}

#[test]
fn space_of_every_script_is_trimmed() {
    for t in [" a ", "\u{00a0}a\u{2003}", "\t\n", "a b", "", "\u{3000}x", "\u{200b}x"] {
        assert_eq!(trimmed(t), t.trim(), "{t:?}");
    }
}
