//! Tests of the vault body's JSON encoding.

use spooky_pass::vault_core::body_codec::{decode_body, encode_body, parse_decimal, parse_json_str};
use spooky_pass::vault_core::entry::{Entry, VaultBody};

fn sample_entry() -> Entry {
    Entry {
        id: "00ff".into(),
        title: "Git\"Hub\"".into(),
        username: "octo\\cat".into(),
        password: "p\nw".into(),
        urls: vec!["https://github.com".into(), "https://gh.io".into()],
        notes: "\u{1}".into(),
        created: "2026-06-14T00:00:00Z".into(),
        updated: "2026-06-14T12:00:00Z".into(),
    }
}

#[test]
fn empty_body_encodes_compactly() {
    let body = VaultBody { version: 1, entries: vec![] };
    assert_eq!(encode_body(&body), br#"{"version":1,"entries":[]}"#.to_vec());
}

#[test]
fn entry_encodes_fields_in_order_with_escapes() {
    let body = VaultBody { version: 1, entries: vec![sample_entry()] };
    let expected = [
        r#"{"version":1,"entries":[{"id":"00ff","title":"Git\"Hub\"","username":"octo\\cat","#,
        r#""password":"p\nw","urls":["https://github.com","https://gh.io"],"notes":"\u0001","#,
        r#""created":"2026-06-14T00:00:00Z","updated":"2026-06-14T12:00:00Z"}]}"#,
    ]
    .join("");
    assert_eq!(String::from_utf8(encode_body(&body)).unwrap(), expected);
}

#[test]
fn decoding_the_encoding_gives_the_body_back() {
    let body = VaultBody { version: 7, entries: vec![sample_entry(), sample_entry()] };
    assert_eq!(decode_body(&encode_body(&body)), Some(body));
}

#[test]
fn decoder_reads_the_original_encoding_of_a_body() {
    let json = br#"{"version":1,"entries":[{"id":"a","title":"t","username":"u","password":"p","urls":[],"notes":"","created":"c","updated":"d"}]}"#;
    let body = decode_body(json).expect("canonical body");
    assert_eq!(body.version, 1);
    assert_eq!(body.entries.len(), 1);
    assert_eq!(body.entries[0].title, "t");
    assert!(body.entries[0].urls.is_empty());
}

#[test]
fn decoder_rejects_other_byte_strings() {
    for bad in [
        &b""[..],
        br#"{"version":1,"entries":[]} "#,
        br#"{ "version":1,"entries":[]}"#,
        br#"{"version":01,"entries":[]}"#,
        br#"{"version":1,"entries":[],}"#,
        br#"{"entries":[],"version":1}"#,
        br#"{"version":4294967296,"entries":[]}"#,
        br#"{"version":1,"entries":[{"id":"\u0041","title":"t","username":"u","password":"p","urls":[],"notes":"","created":"c","updated":"d"}]}"#,
    ] {
        assert_eq!(decode_body(bad), None, "accepted {:?}", String::from_utf8_lossy(bad));
    }
}

#[test]
fn string_literal_parser_reports_its_end() {
    let b = br#"xx"a\"b"yy"#;
    let (s, end) = parse_json_str(b, 2).unwrap();
    assert_eq!(s, "a\"b");
    assert_eq!(end, 8);
    assert!(parse_json_str(b, 0).is_none());
}

#[test]
fn decimal_parser_reads_the_largest_u32() {
    assert_eq!(parse_decimal(b"4294967295,", 0), Some((4294967295, 10)));
    assert_eq!(parse_decimal(b"0,", 0), Some((0, 1)));
    assert_eq!(parse_decimal(b"4294967296,", 0), None);
    assert_eq!(parse_decimal(b"00,", 0), None);
}
