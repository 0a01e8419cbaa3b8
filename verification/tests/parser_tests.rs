use json_parser::parse;
use json_parser::parser::hex_char;
use json_parser::parser::normal_str;
use json_parser::parser::parse_array;
use json_parser::parser::parse_bool;
use json_parser::parser::parse_object;
use json_parser::parser::parse_str;
use json_parser::parser::parse_string;
use json_parser::parser::parse_value;
use json_parser::value::JsonValue;

fn chars(s: &str) -> Vec<char> {
    s.chars().collect()
}

fn rest(s: &[char], pos: usize) -> String {
    s[pos..].iter().collect()
}

#[test]
fn test_normal_str() {
    let v = chars("abc\n");
    let r = normal_str(&v, 0).unwrap();
    assert_eq!((rest(&v, r.1), r.0), ("\n".to_owned(), "abc".to_owned()));
    let v = chars("abc\\n");
    let r = normal_str(&v, 0).unwrap();
    assert_eq!((rest(&v, r.1), r.0), ("\\n".to_owned(), "abc".to_owned()));
}

#[test]
fn test_hex_char() {
    let v = chars("u1234abc");
    let r = hex_char(&v, 0).unwrap();
    assert_eq!((rest(&v, r.1), r.0), ("abc".to_owned(), '\u{1234}'));
}

#[test]
fn test_str() {
    let v = chars(r"abc\n \u1234");
    let r = parse_str(&v, 0).unwrap();
    assert_eq!((rest(&v, r.1), r.0), ("".to_owned(), "abc\n \u{1234}".to_owned()));
}

#[test]
fn test_string() {
    let v = chars(r#""""#);
    let r = parse_string(&v, 0).unwrap();
    assert_eq!((rest(&v, r.1), r.0), ("".to_owned(), "".to_owned()));
    let v = chars(r#""abc\n \u1234""#);
    let r = parse_string(&v, 0).unwrap();
    assert_eq!((rest(&v, r.1), r.0), ("".to_owned(), "abc\n \u{1234}".to_owned()));
}

#[test]
fn test_bool() {
    let v = chars("false");
    let r = parse_bool(&v, 0).unwrap();
    assert_eq!((rest(&v, r.1), r.0), ("".to_owned(), false));
    let v = chars("true");
    let r = parse_bool(&v, 0).unwrap();
    assert_eq!((rest(&v, r.1), r.0), ("".to_owned(), true));
}

#[test]
fn test_value() {
    let v = chars("null");
    let r = parse_value(&v, 0).unwrap();
    assert_eq!((rest(&v, r.1), r.0), ("".to_owned(), JsonValue::Null));
    let v = chars("true");
    let r = parse_value(&v, 0).unwrap();
    assert_eq!((rest(&v, r.1), r.0), ("".to_owned(), JsonValue::Bool(true)));
    let v = chars("false");
    let r = parse_value(&v, 0).unwrap();
    assert_eq!((rest(&v, r.1), r.0), ("".to_owned(), JsonValue::Bool(false)));
    let v = chars("\"\"");
    let r = parse_value(&v, 0).unwrap();
    assert_eq!((rest(&v, r.1), r.0), ("".to_owned(), JsonValue::String("".to_owned())));
}

#[test]
fn test_array() {
    let v = chars(r#"[]"#);
    let r = parse_array(&v, 0).unwrap();
    assert_eq!((rest(&v, r.1), r.0), ("".to_owned(), vec![]));
    let v = chars(r#"["string",   null, 0 , false, [  null]    ,{}]"#);
    let r = parse_array(&v, 0).unwrap();
    assert_eq!(
        (rest(&v, r.1), r.0),
        (
            "".to_owned(),
            vec![
                JsonValue::String("string".to_owned()),
                JsonValue::Null,
                JsonValue::Number("0".to_owned()),
                JsonValue::Bool(false),
                JsonValue::Array(vec![JsonValue::Null]),
                JsonValue::Object(vec![])
            ],
        )
    );
}

#[test]
fn test_object() {
    let rst = vec![
        ("a".to_owned(), JsonValue::Null),
        ("b".to_owned(), JsonValue::Array(vec![])),
        ("c".to_owned(), JsonValue::Object(vec![])),
    ];
    let v = chars(r#"{"a": null, "b": [] , "c" :{} }"#);
    let r = parse_object(&v, 0).unwrap();
    assert_eq!((rest(&v, r.1), r.0), ("".to_owned(), rst));
}

#[test]
fn test_unclosed_array() {
    println!("{}", parse("[,]").unwrap_err());
}
