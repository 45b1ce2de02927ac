use cloudevents_http::event::ExtensionValue;
use cloudevents_http::extract::{carried, decode_scalar};
use cloudevents_http::scalar::{format_decimal, parse_decimal_text};
use cloudevents_http::serializer::header_name;
use cloudevents_http::text::{check_lower_token, same_text};
use cloudevents_http::wire::encode_scalar;

#[test]
fn integers_are_written_in_decimal() {
    assert_eq!(format_decimal(10), b"10".to_vec());
    assert_eq!(format_decimal(0), b"0".to_vec());
    assert_eq!(format_decimal(7), b"7".to_vec());
    assert_eq!(format_decimal(-1), b"-1".to_vec());
    assert_eq!(format_decimal(1234567890), b"1234567890".to_vec());
    assert_eq!(format_decimal(i64::MAX), b"9223372036854775807".to_vec());
    assert_eq!(format_decimal(i64::MIN), b"-9223372036854775808".to_vec());
}

#[test]
fn decimal_texts_are_read_as_integers() {
    assert_eq!(parse_decimal_text(b"10"), Some(10));
    assert_eq!(parse_decimal_text(b"0"), Some(0));
    assert_eq!(parse_decimal_text(b"-1"), Some(-1));
    assert_eq!(parse_decimal_text(b"9223372036854775807"), Some(i64::MAX));
    assert_eq!(parse_decimal_text(b"-9223372036854775808"), Some(i64::MIN));
}

#[test]
fn other_texts_are_not_read_as_integers() {
    assert_eq!(parse_decimal_text(b""), None);
    assert_eq!(parse_decimal_text(b"-"), None);
    assert_eq!(parse_decimal_text(b"-0"), None);
    assert_eq!(parse_decimal_text(b"00"), None);
    assert_eq!(parse_decimal_text(b"010"), None);
    assert_eq!(parse_decimal_text(b"+1"), None);
    assert_eq!(parse_decimal_text(b"1 "), None);
    assert_eq!(parse_decimal_text(b"1a"), None);
    assert_eq!(parse_decimal_text(b"--1"), None);
    assert_eq!(parse_decimal_text(b"9223372036854775808"), None);
    assert_eq!(parse_decimal_text(b"-9223372036854775809"), None);
    assert_eq!(parse_decimal_text(b"18446744073709551616"), None);
    assert_eq!(parse_decimal_text(b"99999999999999999999999999"), None);
}

#[test]
fn every_integer_text_is_read_back() {
    for n in [0i64, 1, 9, 10, 11, 99, 100, 101, -9, -10, -99, -100, 4096, -65536] {
        assert_eq!(parse_decimal_text(&format_decimal(n)), Some(n));
    }
}

#[test]
fn extension_values_are_written_as_text() {
    assert_eq!(encode_scalar(&ExtensionValue::Integer(10)), b"10".to_vec());
    assert_eq!(encode_scalar(&ExtensionValue::Boolean(true)), b"true".to_vec());
    assert_eq!(encode_scalar(&ExtensionValue::Boolean(false)), b"false".to_vec());
    assert_eq!(encode_scalar(&ExtensionValue::String("val".to_string())), b"val".to_vec());
    assert_eq!(
        encode_scalar(&ExtensionValue::String("caf\u{e9}".to_string())),
        vec![b'c', b'a', b'f', 0xc3, 0xa9]
    );
    assert_eq!(encode_scalar(&ExtensionValue::String(String::new())), Vec::<u8>::new());
}

#[test]
fn texts_are_read_as_extension_values() {
    assert_eq!(decode_scalar(b"10"), Some(ExtensionValue::Integer(10)));
    assert_eq!(decode_scalar(b"true"), Some(ExtensionValue::Boolean(true)));
    assert_eq!(decode_scalar(b"false"), Some(ExtensionValue::Boolean(false)));
    assert_eq!(decode_scalar(b"val"), Some(ExtensionValue::String("val".to_string())));
    assert_eq!(decode_scalar(b"TRUE"), Some(ExtensionValue::String("TRUE".to_string())));
    assert_eq!(decode_scalar(b"1.0"), Some(ExtensionValue::String("1.0".to_string())));
    assert_eq!(
        decode_scalar(&[b'c', b'a', b'f', 0xc3, 0xa9]),
        Some(ExtensionValue::String("caf\u{e9}".to_string()))
    );
    assert_eq!(decode_scalar(&[0xc3]), None);
    assert_eq!(decode_scalar(&[0xff, b'a']), None);
}

#[test]
fn header_names_stand_behind_the_marker() {
    assert_eq!(header_name("id"), "ce-id");
    assert_eq!(header_name("specversion"), "ce-specversion");
    assert_eq!(header_name("someint"), "ce-someint");
    assert_eq!(header_name("datacontenttype"), "content-type");
    assert_eq!(header_name(""), "ce-");
}

#[test]
fn carried_names_are_found_behind_the_marker() {
    assert_eq!(carried("ce-id"), Some("id".to_string()));
    assert_eq!(carried("ce-someint"), Some("someint".to_string()));
    assert_eq!(carried("content-type"), Some("datacontenttype".to_string()));
    assert_eq!(carried("ce-datacontenttype"), Some("datacontenttype".to_string()));
    assert_eq!(carried("ce-"), Some(String::new()));
    assert_eq!(carried("ce-caf\u{e9}"), Some("caf\u{e9}".to_string()));
    assert_eq!(carried("ce"), None);
    assert_eq!(carried("c"), None);
    assert_eq!(carried(""), None);
    assert_eq!(carried("CE-id"), Some("id".to_string()));
    assert_eq!(carried("Ce-SomeInt"), Some("someint".to_string()));
    assert_eq!(carried("Content-Type"), Some("datacontenttype".to_string()));
    assert_eq!(carried("CE-\u{c9}"), Some("\u{c9}".to_string()));
    assert_eq!(carried("xce-id"), None);
    assert_eq!(carried("host"), None);
    assert_eq!(carried("content-length"), None);
    assert_eq!(carried("\u{e9}e-id"), None);
}

#[test]
fn texts_are_compared_by_their_characters() {
    assert!(same_text("", ""));
    assert!(same_text("ce-id", "ce-id"));
    assert!(same_text("caf\u{e9}", "caf\u{e9}"));
    assert!(!same_text("ce-id", "ce-ie"));
    assert!(!same_text("ce-id", "ce-i"));
    assert!(!same_text("", "a"));
}

#[test]
fn lower_tokens_are_told_from_other_texts() {
    assert!(check_lower_token("someint"));
    assert!(check_lower_token("string_ex"));
    assert!(check_lower_token("a"));
    assert!(check_lower_token("0"));
    assert!(check_lower_token("!#$%&'*+-.^_`|~"));
    assert!(!check_lower_token(""));
    assert!(!check_lower_token("Upper"));
    assert!(!check_lower_token("with space"));
    assert!(!check_lower_token("colon:"));
    assert!(!check_lower_token("caf\u{e9}"));
    assert!(!check_lower_token("a\u{0}"));
    assert!(!check_lower_token("a(b)"));
    assert!(!check_lower_token("a,b"));
    assert!(!check_lower_token("a/b"));
    assert!(!check_lower_token("a@b"));
    assert!(!check_lower_token("a[b]"));
    assert!(!check_lower_token("a{b}"));
    assert!(!check_lower_token("a\"b"));
    assert!(!check_lower_token("a\u{7f}"));
}
