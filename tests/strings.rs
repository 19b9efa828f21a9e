use rnvme::cstr::{CBoundedStr, CStr, CStrConvertError};
use rnvme::lit::{
    byte, parse_lit_byte, parse_lit_byte_str, parse_lit_char, parse_lit_float, parse_lit_int,
    parse_lit_str,
};
use rnvme::projection::field_name_hash;

#[test]
fn c_str_from_valid_bytes() {
    let c = CStr::from_bytes_with_nul(b"nvme\0").unwrap();
    assert_eq!(c.len(), 4);
    assert_eq!(c.len_with_nul(), 5);
    assert!(!c.is_empty());
    assert_eq!(c.as_bytes(), b"nvme");
    assert_eq!(c.as_bytes_with_nul(), b"nvme\0");
}

#[test]
fn c_str_empty() {
    let c = CStr::from_bytes_with_nul_unwrap(b"\0");
    assert!(c.is_empty());
    assert_eq!(c.as_bytes(), b"");
}

#[test]
fn c_str_errors() {
    assert_eq!(CStr::from_bytes_with_nul(b"").err(), Some(CStrConvertError::NotNulTerminated));
    assert_eq!(CStr::from_bytes_with_nul(b"ab").err(), Some(CStrConvertError::NotNulTerminated));
    assert_eq!(CStr::from_bytes_with_nul(b"a\0b\0").err(), Some(CStrConvertError::InteriorNul));
}

#[test]
fn bounded_c_str() {
    let b = CBoundedStr::<6>::from_bytes_with_nul(b"nvme\0").unwrap();
    assert_eq!(b.to_char_array(), [110, 118, 109, 101, 0, 0]);
    assert_eq!(b.expand_to_char_array::<8>(), [110, 118, 109, 101, 0, 0, 0, 0]);
    assert_eq!(b.as_c_str().len(), 4);
    assert_eq!(
        CBoundedStr::<4>::from_bytes_with_nul(b"nvme\0").err(),
        Some(CStrConvertError::BoundExceeded)
    );
    assert_eq!(
        CBoundedStr::<8>::from_bytes_with_nul(b"nv\0me\0").err(),
        Some(CStrConvertError::InteriorNul)
    );
    let exact = CBoundedStr::<5>::from_bytes_with_nul(b"nvme\0").unwrap();
    assert_eq!(exact.relax_bound::<7>().to_char_array(), [110, 118, 109, 101, 0, 0, 0]);
}

#[test]
fn field_name_hashes() {
    assert_eq!(field_name_hash(""), 0xcbf29ce484222325);
    assert_eq!(field_name_hash("x"), 0xaf63f54c86021707);
    assert_eq!(field_name_hash("sq_tail"), 0xe1f123c7c0992eb4);
}

#[test]
fn byte_past_end_is_zero() {
    assert_eq!(byte(b"ab", 1), b'b');
    assert_eq!(byte(b"ab", 2), 0);
}

#[test]
fn byte_literals() {
    assert_eq!(parse_lit_byte("b'a'"), (b'a', String::new()));
    assert_eq!(parse_lit_byte("b'\\n'u8"), (b'\n', "u8".to_string()));
    assert_eq!(parse_lit_byte("b'\\xfF'"), (0xff, String::new()));
    assert_eq!(parse_lit_byte("b'\\''"), (b'\'', String::new()));
}

#[test]
fn char_literals() {
    assert_eq!(parse_lit_char("'a'"), ('a', String::new()));
    assert_eq!(parse_lit_char("'é'sfx"), ('é', "sfx".to_string()));
    assert_eq!(parse_lit_char("'\\t'"), ('\t', String::new()));
    assert_eq!(parse_lit_char("'\\x41'"), ('A', String::new()));
    assert_eq!(parse_lit_char("'\\u{1F600}'"), ('\u{1F600}', String::new()));
    assert_eq!(parse_lit_char("'\\u{1_0}'"), ('\u{10}', String::new()));
}

#[test]
fn int_literals() {
    assert_eq!(parse_lit_int("42"), Some(("42".to_string(), String::new())));
    assert_eq!(parse_lit_int("0x1f_u8"), Some(("31".to_string(), "u8".to_string())));
    assert_eq!(parse_lit_int("-0b1010i32"), Some(("-10".to_string(), "i32".to_string())));
    assert_eq!(parse_lit_int("0o777"), Some(("511".to_string(), String::new())));
    assert_eq!(parse_lit_int("1_000_000usize"), Some(("1000000".to_string(), "usize".to_string())));
    assert_eq!(parse_lit_int("0x"), Some(("0".to_string(), String::new())));
    assert_eq!(parse_lit_int("1e"), Some(("1".to_string(), "e".to_string())));
    assert_eq!(
        parse_lit_int("340282366920938463463374607431768211455"),
        Some(("340282366920938463463374607431768211455".to_string(), String::new()))
    );
}

#[test]
fn non_int_literals() {
    assert_eq!(parse_lit_int("1.5"), None);
    assert_eq!(parse_lit_int("1e5"), None);
    assert_eq!(parse_lit_int("1e-5"), None);
    assert_eq!(parse_lit_int("0b102"), None);
    assert_eq!(parse_lit_int("abc"), None);
    assert_eq!(parse_lit_int(""), None);
    assert_eq!(parse_lit_int("340282366920938463463374607431768211456"), None);
}

#[test]
fn float_literals() {
    assert_eq!(parse_lit_float("1.5"), Some(("1.5".to_string(), String::new())));
    assert_eq!(parse_lit_float("1_000.25f32"), Some(("1000.25".to_string(), "f32".to_string())));
    assert_eq!(parse_lit_float("-2E+1_0"), Some(("-2e10".to_string(), String::new())));
    assert_eq!(parse_lit_float("3e-4f64"), Some(("3e-4".to_string(), "f64".to_string())));
    assert_eq!(parse_lit_float("7em"), Some(("7".to_string(), "em".to_string())));
}

#[test]
fn non_float_literals() {
    assert_eq!(parse_lit_float(""), None);
    assert_eq!(parse_lit_float("-"), None);
    assert_eq!(parse_lit_float(".5"), None);
    assert_eq!(parse_lit_float("1.2.3"), None);
    assert_eq!(parse_lit_float("1e+"), None);
    assert_eq!(parse_lit_float("1e5e3"), Some(("1e5".to_string(), "e3".to_string())));
    assert_eq!(parse_lit_float("1e5e+3"), Some(("1e5".to_string(), "e+3".to_string())));
}

#[test]
fn string_literals() {
    assert_eq!(parse_lit_str("\"abc\""), ("abc".to_string(), String::new()));
    assert_eq!(parse_lit_str("\"a\\nb\\\"\"x"), ("a\nb\"".to_string(), "x".to_string()));
    assert_eq!(parse_lit_str("\"a\\\n   b\""), ("ab".to_string(), String::new()));
    assert_eq!(parse_lit_str("\"a\r\nb\""), ("a\nb".to_string(), String::new()));
    assert_eq!(parse_lit_str("\"\\u{e9}t\u{e9}\""), ("été".to_string(), String::new()));
    assert_eq!(parse_lit_str("r\"a\\b\""), ("a\\b".to_string(), String::new()));
    assert_eq!(parse_lit_str("r#\"say \"hi\"\"#sfx"), ("say \"hi\"".to_string(), "sfx".to_string()));
}

#[test]
fn byte_string_literals() {
    assert_eq!(parse_lit_byte_str("b\"ab\""), (b"ab".to_vec(), String::new()));
    assert_eq!(parse_lit_byte_str("b\"\\x00\\xff\\t\"s"), (vec![0, 0xff, b'\t'], "s".to_string()));
    assert_eq!(parse_lit_byte_str("b\"a\\\n  b\""), (b"ab".to_vec(), String::new()));
    assert_eq!(parse_lit_byte_str("br#\"a\"b\"#"), (b"a\"b".to_vec(), String::new()));
}
