use jtool::Json;

fn s(x: &str) -> Json {
    Json::Str(x.to_string())
}

fn n(x: &str) -> Json {
    Json::Num(x.to_string())
}

fn obj(pairs: Vec<(&str, Json)>) -> Json {
    Json::Obj(pairs.into_iter().map(|(k, v)| (k.to_string(), v)).collect())
}

#[test]
fn test_stringify_simple_json() {
    let json = obj(vec![("a", s("b"))]);
    let expected = "{\"a\":\"b\"}";

    let actual = jtool::stringify::stringify(json, None);
    assert!(actual.is_ok());
    assert_eq!(expected, actual.unwrap());
}

#[test]
fn test_stringify_simple_json_with_path() {
    let json = obj(vec![("a", s("b")), ("c", obj(vec![("d", s("e"))]))]);
    let path = vec!["c"];
    let expected = r#"{"a":"b","c":"{\"d\":\"e\"}"}"#;

    let actual = jtool::stringify::stringify(json, Some(path));
    assert!(actual.is_ok());
    assert_eq!(expected, actual.unwrap());
}

#[test]
fn test_sort_paths() {
    let expected = vec!["a.b.c.d", "b.c.d", "a.c", "a"];
    let data = vec!["a.c", "a.b.c.d", "a", "b.c.d"];
    let actual = jtool::sort_by_period_count(data.iter().map(|x| *x).collect());

    assert_eq!(expected, actual)
}

#[test]
fn deepest_paths_first() {
    // Encoding the shallow path first would bury the deep one; deepest-first
    // keeps every target reachable.
    let json = obj(vec![
        ("a", obj(vec![("b", obj(vec![("c", n("1"))]))])),
        ("x", n("2")),
    ]);
    let expected = r#"{"a":"{\"b\":\"{\\\"c\\\":1}\"}","x":2}"#;

    let actual = jtool::stringify::stringify(json, Some(vec!["a", "a.b"]));
    assert_eq!(expected, actual.unwrap());
}

#[test]
fn missing_path_is_an_error() {
    let json = obj(vec![("a", s("b"))]);
    let actual = jtool::stringify::stringify(json, Some(vec!["zzz"]));
    match actual.unwrap_err() {
        jtool::Error::JSONStringify(p) => assert_eq!(p, "zzz"),
        other => panic!("wrong error: {:?}", other),
    }
}

#[test]
fn path_through_non_object_is_an_error() {
    let json = obj(vec![("a", n("1"))]);
    let actual = jtool::stringify::stringify(json, Some(vec!["a.b"]));
    match actual.unwrap_err() {
        jtool::Error::JSONStringify(p) => assert_eq!(p, "a.b"),
        other => panic!("wrong error: {:?}", other),
    }
}

#[test]
fn number_spelling_kept_through_encode() {
    let json = jtool::parse(String::from(r#"{"x": 1.50, "y": 2}"#)).unwrap();
    let text = jtool::stringify::stringify(json, None).unwrap();
    assert_eq!(r#"{"x":1.50,"y":2}"#, text);
}

#[test]
fn pretty_output_is_indented() {
    let json = obj(vec![("a", n("1"))]);
    let text = jtool::stringify_pretty(&json).unwrap();
    assert_eq!("{\n  \"a\": 1\n}", text);
}

#[test]
fn stringify_error_message_text() {
    let json = obj(vec![("a", s("b"))]);
    let err = jtool::stringify::stringify(json, Some(vec!["nope"])).unwrap_err();
    assert_eq!("Error while stringifying JSON: nope", err.message());
}
