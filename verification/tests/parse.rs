use jtool::Json;

fn s(x: &str) -> Json {
    Json::Str(x.to_string())
}

fn n(x: &str) -> Json {
    Json::Num(x.to_string())
}

fn obj(pairs: Vec<(&str, Json)>) -> Json {
    Json::Obj(pairs.into_iter().map(|(k, v)| (k.to_string(), v)).collect())
}

fn arr(elems: Vec<Json>) -> Json {
    Json::Arr(elems)
}

#[test]
fn test_parse_simple_json_str() {
    let sample = String::from(r#"{"name": "John", "age": 30}"#);
    let actual = jtool::parse(sample);

    let expected = obj(vec![("name", s("John")), ("age", n("30"))]);

    assert!(actual.is_ok());
    assert_eq!(expected, actual.unwrap());
}

#[test]
fn test_parse_json_str_with_list() {
    let sample = String::from(r#"{"name": "John", "age": 30, "l": ["hi", "hello", 2]}"#);
    let actual = jtool::parse(sample);

    let expected = obj(vec![
        ("name", s("John")),
        ("age", n("30")),
        ("l", arr(vec![s("hi"), s("hello"), n("2")])),
    ]);

    assert!(actual.is_ok());
    assert_eq!(expected, actual.unwrap());
}

#[test]
fn test_parse_nested_json() {
    let sample = String::from(
        r#"{"name": "John", "age": 30, "l": ["hi", "hello", 2], "nested": {"a": 2, "b": "hi", "c": ["hi"]}}"#,
    );
    let actual = jtool::parse(sample);

    let expected = obj(vec![
        ("name", s("John")),
        ("age", n("30")),
        ("l", arr(vec![s("hi"), s("hello"), n("2")])),
        ("nested", obj(vec![("a", n("2")), ("b", s("hi")), ("c", arr(vec![s("hi")]))])),
    ]);

    assert!(actual.is_ok());
    assert_eq!(expected, actual.unwrap());
}

#[test]
fn test_parse_json_with_trailing_quotes() {
    let sample = String::from(r#""{"name": "John", "age": 30}""#);
    let actual = jtool::parse(sample);

    let expected = obj(vec![("name", s("John")), ("age", n("30"))]);

    assert!(actual.is_ok());
    assert_eq!(expected, actual.unwrap());
}

#[test]
fn test_parse_stringified_json() {
    let sample = String::from("{\"name\": \"John\", \"age\": 30}");
    let actual = jtool::parse(sample);

    let expected = obj(vec![("name", s("John")), ("age", n("30"))]);

    assert!(actual.is_ok());
    assert_eq!(expected, actual.unwrap());
}

#[test]
fn test_parse_nested_stringified_json() {
    let sample = String::from(
        r#"{\"name\": \"John\", \"age\": 30, \"l\": [\"hi\", \"hello\", 2], \"nested\": {\"a\": 2, \"b\": \"hi\", \"c\": [\"hi\"]}}"#,
    );
    let actual = jtool::parse(sample);

    let expected = obj(vec![
        ("name", s("John")),
        ("age", n("30")),
        ("l", arr(vec![s("hi"), s("hello"), n("2")])),
        ("nested", obj(vec![("a", n("2")), ("b", s("hi")), ("c", arr(vec![s("hi")]))])),
    ]);

    assert_eq!(expected, actual.unwrap());
}

#[test]
fn test_parse_nested_doubly_stringified_json() {
    let sample = String::from(
        r#""{\"name\": \"John\", \"age\": 30, \"l\": [\"hi\", \"hello\", 2], \"nested\": \"{\\\"a\\\": 2, \\\"b\\\": \\\"hi\\\", \\\"c\\\": [\\\"hi\\\"]}\"}""#,
    );
    let actual = jtool::parse(sample);

    let expected = obj(vec![
        ("name", s("John")),
        ("age", n("30")),
        ("l", arr(vec![s("hi"), s("hello"), n("2")])),
        ("nested", obj(vec![("a", n("2")), ("b", s("hi")), ("c", arr(vec![s("hi")]))])),
    ]);

    assert_eq!(expected, actual.unwrap());
}

#[test]
fn test_incorrect_json() {
    let sample = String::from(
        r#"{\"name\": \"John\", \"age\": 30, \"l\": [\"hi\", \"hello", 2], \"nested\": \"{\\\"a\\": 2, \\\"b\\": \\\"hi\\\", \\\"c\\\": [\\\"hi\\\"]}\"}"#,
    );
    let actual = jtool::parse(sample);

    println!("{:?}", actual);
    assert_eq!(true, actual.is_err());
}

#[test]
fn depth_first_unwrap() {
    // A document double-quoted and escaped one extra level comes back as the
    // object itself, not as the intermediate text.
    let sample = String::from(r#""{\"a\":1}""#);
    let actual = jtool::parse(sample);

    let expected = obj(vec![("a", n("1"))]);
    assert_eq!(expected, actual.unwrap());
}

#[test]
fn plain_string_preserved() {
    let actual = jtool::parse(String::from("hello"));
    assert_eq!(s("hello"), actual.unwrap());
}

#[test]
fn broken_json_is_an_error() {
    // Structurally broken JSON must fail, never pass as a plain string.
    let actual = jtool::parse(String::from(r#"{"a": }"#));
    assert!(actual.is_err());
    match actual.unwrap_err() {
        jtool::Error::JSONParsing(_) => {}
        other => panic!("wrong error: {:?}", other),
    }
}

#[test]
fn empty_input_is_an_error() {
    assert!(jtool::parse(String::new()).is_err());
}

#[test]
fn number_tokens_survive() {
    // Integer and float literals keep their exact spelling.
    let parsed = jtool::parse(String::from(r#"{"a": 1.50, "b": 100, "c": -0.5}"#)).unwrap();
    let expected = obj(vec![("a", n("1.50")), ("b", n("100")), ("c", n("-0.5"))]);
    assert_eq!(expected, parsed);
}

#[test]
fn error_message_text() {
    let err = jtool::parse(String::from(r#"{"a": }"#)).unwrap_err();
    let msg = err.message();
    assert!(msg.starts_with("Error while parsing JSON "));
}

#[test]
fn leading_whitespace_before_document() {
    let actual = jtool::parse(String::from("  {\"a\": 1}")).unwrap();
    assert_eq!(obj(vec![("a", n("1"))]), actual);
}

#[test]
fn plain_string_keeps_its_whitespace() {
    let actual = jtool::parse(String::from("  hello")).unwrap();
    assert_eq!(s("  hello"), actual);
}

#[test]
fn even_backslash_runs_stay_escaped() {
    // An even run of backslashes before a quote means the quote itself is
    // not escaped: the run and the quote stay as they are.
    let actual = jtool::parse(String::from(r#"x\\"y"#)).unwrap();
    assert_eq!(s(r#"x\\"y"#), actual);
}

#[test]
fn odd_backslash_run_collapses() {
    // A quote behind three backslashes was doubly escaped: one level comes
    // off, leaving one backslash and a bare quote inside a plain string.
    let actual = jtool::parse(String::from(r#"x\\\"y"#)).unwrap();
    assert_eq!(s(r#"x\"y"#), actual);
}

#[test]
fn trailing_comma_is_an_error() {
    // Text that opens like a document must parse as one.
    assert!(jtool::parse(String::from("[1, 2,]")).is_err());
    assert!(jtool::parse(String::from(r#"{"a": 1,}"#)).is_err());
}

#[test]
fn exponent_spelling_is_normalized() {
    // The parser stores exponents in its own spelling: a lowercase `e` with
    // an explicit sign. Only tokens already in that spelling survive
    // re-encoding unchanged.
    let parsed = jtool::parse(String::from(r#"{"a": 2E3, "b": 7e2, "c": 1e-9}"#)).unwrap();
    let expected = obj(vec![("a", n("2e+3")), ("b", n("7e+2")), ("c", n("1e-9"))]);
    assert_eq!(expected, parsed);
}
