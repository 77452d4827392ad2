use jtool::{Action, JsonAction, ParseOptions, StringifyOptions};

#[test]
fn action_kinds_map_through() {
    let a = Action::Parse(ParseOptions { is_prettify_checked: true });
    assert_eq!(JsonAction::Parse, a.to_json_action());
    let b = Action::Stringify(StringifyOptions::default());
    assert_eq!(JsonAction::Stringify, b.to_json_action());
}

#[test]
fn action_labels() {
    assert_eq!("Parse", JsonAction::Parse.label());
    assert_eq!("Stringify", JsonAction::Stringify.label());
    assert_eq!("Compare", JsonAction::Compare.label());
    assert_eq!("RemoveSpaces", JsonAction::RemoveSpaces.label());
}
