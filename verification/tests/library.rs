//! Round-trip, serialiser and helper tests.

use jsosso::arbitrary::{make_arbitrary, make_n_arbitrary, n_random};
use jsosso::cli::{build_message, check_args, parse_command, usage, Config};
use jsosso::errors::JsonError;
use jsosso::parsing::parse;
use jsosso::stream::JsonStream;
use jsosso::{Json, JsonMap};
use std::io::Cursor;

fn parse_bytes(v: Vec<u8>) -> Result<Json, JsonError> {
    jsosso::parsing::parse_buffer(v)
}

fn to_bytes(j: &Json) -> Vec<u8> {
    let mut v: Vec<u8> = Vec::new();
    let n = j.serialize(&mut v);
    assert_eq!(n, v.len());
    v
}

fn obj(entries: Vec<(&str, Json)>) -> Json {
    Json::Object(Box::new(JsonMap {
        entries: entries.into_iter().map(|(k, v)| (k.to_string(), v)).collect(),
    }))
}

#[test]
fn test_serialize_null() {
    assert_eq!(to_bytes(&Json::Null), b"null".to_vec());
    assert_eq!(to_bytes(&Json::Boolean(true)), b"true".to_vec());
    assert_eq!(to_bytes(&Json::Boolean(false)), b"false".to_vec());
}

#[test]
fn test_serialize_number_text() {
    assert_eq!(to_bytes(&Json::Number("500.123".to_string())), b"500.123".to_vec());
    assert_eq!(to_bytes(&Json::Number("-9.0".to_string())), b"-9.0".to_vec());
}

#[test]
fn test_serialize_string_escapes() {
    let j = Json::String("a\"b\\c\nd/e\tf\rg\u{8}h\u{c}i".to_string());
    assert_eq!(
        to_bytes(&j),
        b"\"a\\\"b\\\\c\\nd\\/e\\tf\\rg\\bh\\fi\"".to_vec()
    );
}

#[test]
fn test_serialize_array_layout() {
    let j = Json::Array(vec![
        Json::Number("1".to_string()),
        Json::Number("2".to_string()),
        Json::Null,
    ]);
    assert_eq!(to_bytes(&j), b"[\n  1, 2, null\n]\n".to_vec());
}

#[test]
fn test_serialize_object_layout() {
    let j = obj(vec![("a", Json::Null), ("b", Json::Boolean(true))]);
    assert_eq!(to_bytes(&j), b"{\n  \"a\": null,\n  \"b\": true\n}\n".to_vec());
}

#[test]
fn test_serialize_long_line_wraps() {
    // 13 ten-character strings exceed the 120-byte line, so the
    // separator switches to a line break exactly once.
    let elems: Vec<Json> = (0..13).map(|_| Json::String("0123456789".to_string())).collect();
    let j = Json::Array(elems);
    let out = String::from_utf8(to_bytes(&j)).unwrap();
    let wraps = out.matches(",\n").count();
    assert_eq!(wraps, 1);
}

#[test]
fn test_roundtrip_handmade() {
    let j = obj(vec![
        ("list", Json::Array(vec![Json::Number("0".to_string()), Json::String("XY".to_string())])),
        ("flag", Json::Boolean(false)),
        ("nothing", Json::Null),
    ]);
    let bytes = to_bytes(&j);
    let back = parse_bytes(bytes).unwrap();
    assert_eq!(back, j);
}

#[test]
fn test_roundtrip_generated() {
    for _ in 0..20 {
        let original = make_n_arbitrary(10);
        let bytes = to_bytes(&original);
        let mycopy = match parse_bytes(bytes) {
            Ok(j) => j,
            Err(e) => panic!("unexpected error: {:?}", e),
        };
        assert_eq!(original, mycopy);
    }
}

#[test]
fn test_roundtrip_unbounded() {
    let original = make_arbitrary();
    let bytes = to_bytes(&original);
    let mycopy = parse_bytes(bytes).unwrap();
    assert_eq!(original, mycopy);
}

#[test]
fn test_serialize_idempotent() {
    for _ in 0..10 {
        let original = make_n_arbitrary(10);
        let once = to_bytes(&original);
        let reparsed = parse_bytes(once.clone()).unwrap();
        let twice = to_bytes(&reparsed);
        assert_eq!(once, twice);
    }
}

#[test]
fn test_duplicate_key_rejected() {
    let v: Vec<u8> = r#"{"k":1,"k":2}"#.to_string().bytes().collect();
    assert!(match parse_bytes(v) {
        Ok(v) => panic!("unexpected value: {:?}", v),
        Err(JsonError::Failed(m, _)) if m == "duplicated key 'k' in object" => true,
        Err(e) => panic!("unexpected error: {:?}", e),
    });
}

#[test]
fn test_fail_unknown_escape() {
    let v: Vec<u8> = r#""a\q""#.to_string().bytes().collect();
    assert!(match parse_bytes(v) {
        Ok(v) => panic!("unexpected value: {:?}", v),
        Err(JsonError::Failed(m, _)) if m == "unknown escape sequence 113" => true,
        Err(e) => panic!("unexpected error: {:?}", e),
    });
}

#[test]
fn test_fail_bad_hex_digit() {
    let v: Vec<u8> = r#""\uZZZZ""#.to_string().bytes().collect();
    assert!(match parse_bytes(v) {
        Ok(v) => panic!("unexpected value: {:?}", v),
        Err(JsonError::Failed(m, _)) if m == "hexadecimal expected, have: 122" => true,
        Err(e) => panic!("unexpected error: {:?}", e),
    });
}

#[test]
fn test_fail_invalid_text() {
    let v: Vec<u8> = vec![34, 0xFF, 34];
    assert!(match parse_bytes(v) {
        Ok(v) => panic!("unexpected value: {:?}", v),
        Err(JsonError::Failed(m, _)) if m == "unicode error" => true,
        Err(e) => panic!("unexpected error: {:?}", e),
    });
}

#[test]
fn test_unicode_lone_high_surrogate() {
    // a high surrogate not followed by another escape degrades to the
    // replacement character; the following bytes stay in the string
    let v: Vec<u8> = r#""x\uD834y""#.to_string().bytes().collect();
    assert!(match parse_bytes(v) {
        Ok(Json::String(s)) => s == "x\u{FFFD}y",
        r => panic!("unexpected result: {:?}", r),
    });
}

#[test]
fn test_exponent_normalized() {
    // the exponent marker is lower-cased and a plus sign is dropped
    let v: Vec<u8> = b"[1.5E2, 2e+3]".to_vec();
    let a = match parse_bytes(v) {
        Ok(Json::Array(a)) => a,
        r => panic!("unexpected result: {:?}", r),
    };
    assert!(matches!(&a[0], Json::Number(t) if t == "1.5e2"));
    assert!(matches!(&a[1], Json::Number(t) if t == "2e3"));
}

#[test]
fn test_trailing_garbage_ignored() {
    let v: Vec<u8> = b"42 this is not json".to_vec();
    assert!(match parse_bytes(v) {
        Ok(Json::Number(t)) => t == "42",
        r => panic!("unexpected result: {:?}", r),
    });
}

#[test]
fn test_n_random_stream() {
    // the benchmark buffer: repeated values, each of which parses back
    // and survives another round trip
    let v = n_random(5);
    let mut input = Cursor::new(v);
    let mut s = JsonStream::new(&mut input);
    let mut count = 0;
    loop {
        match parse(&mut s) {
            Ok(j) => {
                let bytes = to_bytes(&j);
                let r = parse_bytes(bytes).unwrap();
                assert_eq!(j, r);
                count += 1;
            },
            Err(e) if e.is_eof() => break,
            Err(e) => panic!("parse of serialized failed with error: {:?}", e),
        }
    }
    assert_eq!(count, 5);
}

#[test]
fn test_map_operations() {
    let mut m = JsonMap::new();
    assert_eq!(m.len(), 0);
    assert!(!m.contains_key("a"));
    m.insert("a".to_string(), Json::Null);
    m.insert("b".to_string(), Json::Boolean(true));
    assert_eq!(m.len(), 2);
    assert!(m.contains_key("a"));
    assert!(m.get("c").is_none());
    // a colliding key overwrites and does not grow the map
    m.insert("a".to_string(), Json::Number("7".to_string()));
    assert_eq!(m.len(), 2);
    assert!(matches!(m.get("a"), Some(Json::Number(t)) if t == "7"));
}

#[test]
fn test_usage_text() {
    let u = usage("client");
    assert!(u.starts_with("Usage client: [OPTION]"));
    assert!(u.contains("--port"));
}

#[test]
fn test_check_args() {
    let mut cfg = Config::default();
    assert!(!cfg.acks);
    assert_eq!(cfg.port, "6049");
    let args = vec!["-a".to_string(), "-p".to_string(), "7001".to_string()];
    assert!(check_args(&args, &mut cfg).is_ok());
    assert!(cfg.acks);
    assert_eq!(cfg.port, "7001");

    let bad = vec!["--nonsense".to_string()];
    assert!(match check_args(&bad, &mut cfg) {
        Err(m) => m == "unknown option '--nonsense'",
        Ok(()) => panic!("unknown option accepted"),
    });
}

#[test]
fn test_parse_command() {
    let v: Vec<u8> = b"Add\n\n{\"k\": [1, 2]}".to_vec();
    let mut input = Cursor::new(v);
    let mut s = JsonStream::new(&mut input);
    let c = parse_command(&mut s).unwrap();
    assert_eq!(c.name, "Add");
    assert!(matches!(c.payload, Json::Object(_)));
}

#[test]
fn test_build_message_roundtrip() {
    let v = build_message();
    assert!(v.starts_with(b"Add\n\n"));
    let mut input = Cursor::new(v);
    let mut s = JsonStream::new(&mut input);
    let c = parse_command(&mut s).unwrap();
    assert_eq!(c.name, "Add");
}

#[test]
fn test_generated_numbers_parse() {
    for _ in 0..50 {
        if let Json::Number(t) = make_n_arbitrary(1) {
            let f = t.parse::<f64>();
            assert!(f.is_ok(), "number text does not parse: {}", t);
        }
    }
}

#[test]
fn test_serialize_idempotent_parsed() {
    // stable formatting also for values that came from the parser
    let first = parse_bytes(b"[1.5E2, -0.75, \"a\\tb/c\", {\"k\": 0e+7}]".to_vec()).unwrap();
    let once = to_bytes(&first);
    let again = parse_bytes(once.clone()).unwrap();
    assert_eq!(first, again);
    assert_eq!(once, to_bytes(&again));
}
