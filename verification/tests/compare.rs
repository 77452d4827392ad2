use jtool::compare::{compare, diff, DiffKind, PathSeg};
use jtool::Json;

fn s(x: &str) -> Json {
    Json::Str(x.to_string())
}

fn n(x: &str) -> Json {
    Json::Num(x.to_string())
}

fn obj(pairs: Vec<(&str, Json)>) -> Json {
    Json::Obj(pairs.into_iter().map(|(k, v)| (k.to_string(), v)).collect())
}

fn key_at(seg: &PathSeg) -> &str {
    match seg {
        PathSeg::Key(k) => k.as_str(),
        PathSeg::Index(_) => panic!("expected a key"),
    }
}

#[test]
fn diff_of_value_with_itself_is_empty() {
    let v = obj(vec![
        ("name", s("John")),
        ("l", Json::Arr(vec![n("1"), s("x")])),
        ("nested", obj(vec![("a", Json::Bool(true))])),
    ]);
    assert!(diff(&v, &v).is_empty());
}

#[test]
fn changed_primitive_reported_once() {
    let old = obj(vec![("a", n("1"))]);
    let new = obj(vec![("a", n("2"))]);
    let entries = diff(&old, &new);
    assert_eq!(1, entries.len());
    let e = &entries[0];
    assert!(matches!(e.kind, DiffKind::Changed));
    assert_eq!(1, e.path.len());
    assert_eq!("a", key_at(&e.path[0]));
    assert_eq!(Some(n("1")), e.old_value);
    assert_eq!(Some(n("2")), e.new_value);
}

#[test]
fn removed_then_added_keys() {
    let old = obj(vec![("a", n("1"))]);
    let new = obj(vec![("b", n("1"))]);
    let entries = diff(&old, &new);
    assert_eq!(2, entries.len());
    assert!(matches!(entries[0].kind, DiffKind::Removed));
    assert_eq!("a", key_at(&entries[0].path[0]));
    assert_eq!(Some(n("1")), entries[0].old_value);
    assert_eq!(None, entries[0].new_value);
    assert!(matches!(entries[1].kind, DiffKind::Added));
    assert_eq!("b", key_at(&entries[1].path[0]));
    assert_eq!(None, entries[1].old_value);
    assert_eq!(Some(n("1")), entries[1].new_value);
}

#[test]
fn type_change_reported_whole() {
    let old = obj(vec![("a", n("1"))]);
    let new = obj(vec![("a", s("1"))]);
    let entries = diff(&old, &new);
    assert_eq!(1, entries.len());
    assert!(matches!(entries[0].kind, DiffKind::TypeChanged));
    assert_eq!("a", key_at(&entries[0].path[0]));
    assert_eq!(Some(n("1")), entries[0].old_value);
    assert_eq!(Some(s("1")), entries[0].new_value);
}

#[test]
fn array_tail_reported_by_index() {
    let old = Json::Arr(vec![n("1"), n("2")]);
    let new = Json::Arr(vec![n("1"), n("3"), n("4")]);
    let entries = diff(&old, &new);
    assert_eq!(2, entries.len());
    assert!(matches!(entries[0].kind, DiffKind::Changed));
    assert!(matches!(entries[0].path[0], PathSeg::Index(1)));
    assert!(matches!(entries[1].kind, DiffKind::Added));
    assert!(matches!(entries[1].path[0], PathSeg::Index(2)));
    assert_eq!(Some(n("4")), entries[1].new_value);
}

#[test]
fn array_shrink_reports_removals() {
    let old = Json::Arr(vec![n("1"), n("2"), n("3")]);
    let new = Json::Arr(vec![n("1")]);
    let entries = diff(&old, &new);
    assert_eq!(2, entries.len());
    assert!(matches!(entries[0].kind, DiffKind::Removed));
    assert!(matches!(entries[0].path[0], PathSeg::Index(1)));
    assert!(matches!(entries[1].kind, DiffKind::Removed));
    assert!(matches!(entries[1].path[0], PathSeg::Index(2)));
}

#[test]
fn nested_difference_carries_full_path() {
    let old = obj(vec![("a", obj(vec![("b", Json::Arr(vec![n("5")]))]))]);
    let new = obj(vec![("a", obj(vec![("b", Json::Arr(vec![n("6")]))]))]);
    let entries = diff(&old, &new);
    assert_eq!(1, entries.len());
    let e = &entries[0];
    assert_eq!(3, e.path.len());
    assert_eq!("a", key_at(&e.path[0]));
    assert_eq!("b", key_at(&e.path[1]));
    assert!(matches!(e.path[2], PathSeg::Index(0)));
}

#[test]
fn compare_decodes_both_texts() {
    let entries = compare(r#"{"a": 1}"#, r#"{"a": 2}"#).unwrap();
    assert_eq!(1, entries.len());
    assert!(matches!(entries[0].kind, DiffKind::Changed));
}

#[test]
fn compare_reports_bad_old_text_first() {
    let r = compare(r#"{"a": }"#, r#"{"broken"#);
    match r.unwrap_err() {
        jtool::Error::JSONParsing(_) => {}
        other => panic!("wrong error: {:?}", other),
    }
}

#[test]
fn compare_reports_bad_new_text() {
    let r = compare(r#"{"a": 1}"#, r#"{"broken"#);
    assert!(r.is_err());
}

#[test]
fn compare_equal_texts_is_empty() {
    let entries = compare(r#"{"a": 1}"#, r#"{ "a" : 1 }"#).unwrap();
    assert!(entries.is_empty());
}
