use person_service::json::list_json;
use person_service::json::parse_body;
use person_service::json::person_json;
use person_service::num::parse_u64;
use person_service::num::u64_to_dec;
use person_service::store::PersonStore;

fn parse(s: &str) -> Option<Vec<u8>> {
    parse_body(&s.as_bytes().to_vec())
}

#[test]
fn person_json_exact() {
    assert_eq!(
        person_json(0, &b"Jim".to_vec()),
        br#"{"id":0,"name":"Jim"}"#.to_vec()
    );
}

#[test]
fn person_json_escapes_name() {
    assert_eq!(
        person_json(7, &b"a\"b\\c\nd\te".to_vec()),
        br#"{"id":7,"name":"a\"b\\c\nd\te"}"#.to_vec()
    );
    assert_eq!(
        person_json(1, &vec![1u8, 31u8]),
        br#"{"id":1,"name":"\u0001\u001f"}"#.to_vec()
    );
}

#[test]
fn list_json_exact() {
    let s = PersonStore::seeded();
    assert_eq!(
        list_json(&s.list),
        br#"{"list":[{"id":0,"name":"Jim"},{"id":1,"name":"Joe"}]}"#.to_vec()
    );
    let e = PersonStore::empty();
    assert_eq!(list_json(&e.list), br#"{"list":[]}"#.to_vec());
}

#[test]
fn rendered_json_agrees_with_a_real_json_parser() {
    let s = PersonStore::seeded();
    let value: serde_json::Value = serde_json::from_slice(&list_json(&s.list)).unwrap();
    assert_eq!(value["list"][0]["id"], serde_json::Value::from(0));
    assert_eq!(value["list"][0]["name"], serde_json::Value::from("Jim"));
    assert_eq!(value["list"][1]["name"], serde_json::Value::from("Joe"));

    let odd = person_json(5, &b"a\"b\\c\nd\x01".to_vec());
    let value: serde_json::Value = serde_json::from_slice(&odd).unwrap();
    assert_eq!(value["name"], serde_json::Value::from("a\"b\\c\nd\u{1}"));
}

#[test]
fn parse_body_accepts_the_plain_shape() {
    assert_eq!(parse(r#"{"name":"Sam"}"#), Some(b"Sam".to_vec()));
    assert_eq!(parse(" {\t\"name\"\r\n: \"Sam\" } "), Some(b"Sam".to_vec()));
    assert_eq!(parse(r#"{"name":""}"#), Some(Vec::new()));
}

#[test]
fn parse_body_decodes_escapes() {
    assert_eq!(parse(r#"{"name":"a\"b\\c\/d\bx\fy\nz\rw\tv"}"#),
        Some(b"a\"b\\c/d\x08x\x0cy\nz\rw\tv".to_vec()));
    assert_eq!(parse(r#"{"name":"A"}"#), Some(b"A".to_vec()));
    assert_eq!(parse(r#"{"name":"é"}"#), Some(vec![0xC3, 0xA9]));
    assert_eq!(parse(r#"{"name":"€"}"#), Some(vec![0xE2, 0x82, 0xAC]));
    assert_eq!(
        parse(r#"{"name":"😀"}"#),
        Some(vec![0xF0, 0x9F, 0x98, 0x80])
    );
}

#[test]
fn parse_body_rejects_malformed_input() {
    assert_eq!(parse(""), None);
    assert_eq!(parse("{}"), None);
    assert_eq!(parse(r#"{"name":42}"#), None);
    assert_eq!(parse(r#"{"name":"x""#), None);
    assert_eq!(parse(r#"{"name":"x"} trailing"#), None);
    assert_eq!(parse(r#"{"other":"x"}"#), None);
    assert_eq!(parse(r#"{"name":"a\qb"}"#), None);
    assert_eq!(parse("{\"name\":\"a\nb\"}"), None);
    assert_eq!(parse(r#"{"name":"\uD83D"}"#), None);
    assert_eq!(parse(r#"{"name":"\uDE00"}"#), None);
    assert_eq!(parse(r#"{"name":"\u12"}"#), None);
    assert_eq!(parse(r#"["name","x"]"#), None);
}

#[test]
fn decimal_rendering_exact() {
    assert_eq!(u64_to_dec(0), b"0".to_vec());
    assert_eq!(u64_to_dec(7), b"7".to_vec());
    assert_eq!(u64_to_dec(1234567890), b"1234567890".to_vec());
    assert_eq!(u64_to_dec(u64::MAX), b"18446744073709551615".to_vec());
}

#[test]
fn decimal_parsing_exact() {
    assert_eq!(parse_u64(&b"0".to_vec()), Some(0));
    assert_eq!(parse_u64(&b"42".to_vec()), Some(42));
    assert_eq!(parse_u64(&b"18446744073709551615".to_vec()), Some(u64::MAX));
    assert_eq!(parse_u64(&b"18446744073709551616".to_vec()), None);
    assert_eq!(parse_u64(&Vec::new()), None);
    assert_eq!(parse_u64(&b"1a".to_vec()), None);
    assert_eq!(parse_u64(&b"-1".to_vec()), None);
}
