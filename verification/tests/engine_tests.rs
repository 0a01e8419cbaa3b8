use json_parser::parse;
use json_parser::parser::parse_string;
use json_parser::value::JsonValue;

fn chars(s: &str) -> Vec<char> {
    s.chars().collect()
}

#[test]
fn accepted_document_mirrors_nesting() {
    let data = "  { \"a\"\t: 42,
    \"b\": [ \"x\", \"y\", 12 ] ,
    \"c\": { \"hello\" : \"world\"
    }
    } ";
    let tree = parse(data).unwrap();
    let expected = JsonValue::Object(vec![
        ("a".to_owned(), JsonValue::Number("42".to_owned())),
        (
            "b".to_owned(),
            JsonValue::Array(vec![
                JsonValue::String("x".to_owned()),
                JsonValue::String("y".to_owned()),
                JsonValue::Number("12".to_owned()),
            ]),
        ),
        (
            "c".to_owned(),
            JsonValue::Object(vec![(
                "hello".to_owned(),
                JsonValue::String("world".to_owned()),
            )]),
        ),
    ]);
    assert_eq!(tree, expected);
}

#[test]
fn scalar_root_rejected() {
    assert!(parse("42").is_err());
    assert!(parse("true").is_err());
    assert!(parse("null").is_err());
    assert!(parse("\"hi\"").is_err());
}

#[test]
fn duplicate_keys_last_write_wins() {
    let tree = parse("{\"a\":1,\"a\":2}").unwrap();
    let expected = JsonValue::Object(vec![("a".to_owned(), JsonValue::Number("2".to_owned()))]);
    assert_eq!(tree, expected);
}

#[test]
fn empty_containers() {
    assert_eq!(parse("{}").unwrap(), JsonValue::Object(vec![]));
    assert_eq!(parse("[]").unwrap(), JsonValue::Array(vec![]));
    assert_eq!(parse("{ \t\n }").unwrap(), JsonValue::Object(vec![]));
    assert_eq!(parse("[ \r\n\t ]").unwrap(), JsonValue::Array(vec![]));
}

#[test]
fn escape_round_trip() {
    let tree = parse("[\"abc\\n \\u1234\"]").unwrap();
    assert_eq!(
        tree,
        JsonValue::Array(vec![JsonValue::String("abc\n \u{1234}".to_owned())])
    );
}

#[test]
fn escape_table_decodes() {
    let tree = parse(r#"["\" \\ \/ \b \f \n \r \t"]"#).unwrap();
    assert_eq!(
        tree,
        JsonValue::Array(vec![JsonValue::String(
            "\" \\ / \u{8} \u{c} \n \r \t".to_owned()
        )])
    );
}

#[test]
fn stray_digit_before_key_is_located() {
    let msg = parse("{ 1\"hello\": \"world\" }").unwrap_err();
    assert!(msg.contains("object"));
    assert!(msg.contains("string") || msg.contains("value"));
    // the innermost frame points at the stray digit: line 1, column 3
    assert!(msg.contains("line 1"));
    assert!(msg.contains("column 3"));
    assert!(msg.contains("{ 1\"hello\": \"world\" }"));
    assert!(msg.contains("\n  ^\n"));
}

#[test]
fn trailing_data_is_its_own_error() {
    let msg = parse("{} x").unwrap_err();
    assert_eq!(msg, "unexpected trailing data");
    let msg = parse("[1,2] []").unwrap_err();
    assert_eq!(msg, "unexpected trailing data");
}

#[test]
fn no_trailing_comma() {
    assert!(parse("[1,2,]").is_err());
    assert!(parse("{\"a\":1,}").is_err());
}

#[test]
fn numeral_forms() {
    let tree = parse("[0, -12.5e2, 1., +3E+4, 7e-2]").unwrap();
    assert_eq!(
        tree,
        JsonValue::Array(vec![
            JsonValue::Number("0".to_owned()),
            JsonValue::Number("-12.5e2".to_owned()),
            JsonValue::Number("1.".to_owned()),
            JsonValue::Number("+3E+4".to_owned()),
            JsonValue::Number("7e-2".to_owned()),
        ])
    );
    // each numeral parses as a 64-bit float
    assert_eq!("-12.5e2".parse::<f64>().unwrap(), -1250.0);
    assert_eq!("+3E+4".parse::<f64>().unwrap(), 30000.0);
}

#[test]
fn exponent_without_digits_is_fatal() {
    assert_eq!(parse("[1e]").unwrap_err(), "failure");
    assert_eq!(parse("[2E+]").unwrap_err(), "failure");
}

#[test]
fn bad_escapes_fail() {
    assert!(parse(r#"["\x"]"#).is_err());
    assert!(parse(r#"["\u12g4"]"#).is_err());
    // a lone UTF-16 surrogate names no character
    assert!(parse(r#"["\ud800"]"#).is_err());
    let v = chars(r#""\ud800""#);
    assert!(parse_string(&v, 0).is_err());
}

#[test]
fn unterminated_string_fails() {
    assert!(parse("[\"abc]").is_err());
    let v = chars("\"abc");
    assert!(parse_string(&v, 0).is_err());
}

#[test]
fn empty_or_blank_input_fails() {
    assert!(parse("").is_err());
    assert!(parse("   \n\t ").is_err());
}
