use jtool::Json;

fn s(x: &str) -> Json {
    Json::Str(x.to_string())
}

fn n(x: &str) -> Json {
    Json::Num(x.to_string())
}

fn obj(pairs: Vec<(&str, Json)>) -> Json {
    Json::Obj(pairs.into_iter().map(|(k, v)| (k.to_string(), v)).collect())
}

#[test]
fn test_remove_spaces_from_json() {}

#[test]
fn test_remove_spaces_from_string() {}

#[test]
fn spaces_and_newlines_trimmed() {
    let input = String::from("{ \"a\" : 1 ,\n  \"b\" : [ true , null ] }");
    let actual = jtool::remove_spaces_str(input).unwrap();
    assert_eq!(r#"{"a":1,"b":[true,null]}"#, actual);
}

#[test]
fn round_trip_value_unchanged() {
    // A normalized value with plain strings comes back from the
    // serialize-then-decode loop unchanged.
    let v = obj(vec![
        ("name", s("John")),
        ("age", n("30")),
        ("tags", Json::Arr(vec![s("x y"), Json::Bool(true), Json::Null])),
    ]);
    let back = jtool::remove_spaces_value(v.clone()).unwrap();
    assert_eq!(v, back);
}

#[test]
fn normalize_is_idempotent() {
    // Decoding the re-encoded output of a decode changes nothing more.
    let input = String::from(r#""{\"a\": 1, \"b\": [\"hi\", 2]}""#);
    let once = jtool::parse(input).unwrap();
    let text = jtool::stringify::stringify(once.clone(), None).unwrap();
    let twice = jtool::parse(text).unwrap();
    assert_eq!(once, twice);
}

#[test]
fn remove_spaces_value_errors_propagate() {
    // A number token the JSON grammar refuses cannot be re-encoded.
    let bad = Json::Num(String::from("not-a-number"));
    assert!(jtool::remove_spaces_value(bad).is_err());
}

#[test]
fn deep_nesting_hits_the_parser_limit() {
    // The serializer writes arbitrarily deep values, but the parser refuses
    // texts with containers nested 128 deep: the round trip fails there,
    // which is why the identity claim carries a depth bound.
    let mut v = Json::Null;
    let mut i = 0;
    while i < 128 {
        v = Json::Arr(vec![v]);
        i += 1;
    }
    assert!(jtool::remove_spaces_value(v).is_err());

    let mut w = Json::Null;
    let mut j = 0;
    while j < 127 {
        w = Json::Arr(vec![w]);
        j += 1;
    }
    let back = jtool::remove_spaces_value(w.clone()).unwrap();
    assert_eq!(w, back);
}

#[test]
fn reserved_number_key_does_not_round_trip() {
    // An object opening with the key serde_json reserves for number tokens
    // is read back as a number, not as the object: such values sit outside
    // the identity claim.
    let v = obj(vec![("$serde_json::private::Number", s("1"))]);
    let back = jtool::remove_spaces_value(v.clone()).unwrap();
    assert_eq!(n("1"), back);
}

#[test]
fn uppercase_exponent_does_not_round_trip() {
    // `1E5` spells a JSON number, but not in the parser's own spelling: the
    // round trip rewrites it, which is why well-formedness demands the
    // lowercase, signed exponent form.
    let back = jtool::remove_spaces_value(Json::Num(String::from("1E5"))).unwrap();
    assert_eq!(n("1e+5"), back);

    let canonical = n("1e+5");
    let same = jtool::remove_spaces_value(canonical.clone()).unwrap();
    assert_eq!(canonical, same);
}
