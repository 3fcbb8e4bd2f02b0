//! JSON texts.

use sandcastle::json::{escape_into, json_to_string, object_json, parse, str_json, write_json, Json};

#[test]
fn values_read_back() {
    for text in [
        "null",
        "true",
        "[]",
        "{}",
        "-1.5e3",
        r#""a\"b\\c\n""#,
        r#"[1,[2,{"a":null}],"x"]"#,
        r#"{"b":1,"a":2,"b":3}"#,
    ] {
        let v = parse(text.as_bytes()).unwrap();
        assert_eq!(json_to_string(&v), text);
    }
}

#[test]
fn blanks_are_dropped() {
    let v = parse(b" { \"a\" :\t[ 1 ,\n2 ] } ").unwrap();
    assert_eq!(json_to_string(&v), r#"{"a":[1,2]}"#);
}

#[test]
fn escapes_are_read() {
    let v = parse(br#""\u00e9\ud83d\ude00\/\b\f\t\r""#).unwrap();
    assert_eq!(v.as_str(), Some("\u{e9}\u{1f600}/\u{8}\u{c}\t\r"));
}

#[test]
fn escapes_are_written() {
    let mut out = String::new();
    escape_into(&mut out, "\u{1}\u{e9}\"");
    assert_eq!(out, "\\u0001\u{e9}\\\"");
    assert_eq!(str_json("a\tb"), r#""a\tb""#);
    assert_eq!(object_json(&vec![("k", "1".to_string()), ("l", "[]".to_string())]), r#"{"k":1,"l":[]}"#);
}

#[test]
fn nonsense_is_refused() {
    for text in ["", "nul", "[1", "{\"a\"}", "\"a", "1 2", "{'a':1}", "[1,]", "\u{1}"] {
        assert!(parse(text.as_bytes()).is_err(), "{text}");
    }
    assert!(parse(b"\"\xff\"").is_err());
}

#[test]
fn members_are_found() {
    let v = parse(br#"{"a":"x","n":1,"o":{"a":"y"}}"#).unwrap();
    assert_eq!(v.get_str("a"), Some("x"));
    assert_eq!(v.get_str("n"), None);
    assert_eq!(v.get("o").and_then(|o| o.get_str("a")), Some("y"));
    assert!(v.get("z").is_none());
    assert!(Json::Null.get("a").is_none());
}

#[test]
fn written_behind_what_is_there() {
    let mut out = "x=".to_string();
    write_json(&mut out, &Json::Arr(vec![Json::Bool(false), Json::Str("s".into())]));
    assert_eq!(out, r#"x=[false,"s"]"#);
}
