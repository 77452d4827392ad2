use vstd::prelude::*;
use vstd::string::StringExecFns;

verus! {

// ---------------------------------------------------------------------------
// The actions a front end can ask of the library, with their options. The
// front ends themselves are unverified shells; these plain types and the
// mapping to the bare action kinds are the part that carries meaning.
// ---------------------------------------------------------------------------

#[derive(Debug, Clone, Copy, PartialEq, Eq, Default)]
pub struct ParseOptions {
    pub is_prettify_checked: bool,
}

#[derive(Debug, Clone, Copy, PartialEq, Eq, Default)]
pub struct StringifyOptions {}

#[derive(Debug, Clone, Copy, PartialEq, Eq, Default)]
pub struct CompareOptions {}

#[derive(Debug, Clone, Copy, PartialEq, Eq, Default)]
pub struct RemoveSpacesOptions {}

/// An action together with its options.
#[derive(Debug, Clone, Copy, PartialEq, Eq)]
pub enum Action {
    Parse(ParseOptions),
    Stringify(StringifyOptions),
    Compare(CompareOptions),
    RemoveSpaces(RemoveSpacesOptions),
}

/// The bare kind of an action, options dropped.
#[derive(Debug, Clone, Copy, PartialEq, Eq, Structural)]
pub enum JsonAction {
    Parse,
    Stringify,
    Compare,
    RemoveSpaces,
}

impl Action {
    /// The kind of this action.
    pub fn to_json_action(&self) -> (r: JsonAction)
        ensures
            r == (match self {
                Action::Parse(_) => JsonAction::Parse,
                Action::Stringify(_) => JsonAction::Stringify,
                Action::Compare(_) => JsonAction::Compare,
                Action::RemoveSpaces(_) => JsonAction::RemoveSpaces,
            }),
    {
        match self {
            Action::Parse(_) => JsonAction::Parse,
            Action::Stringify(_) => JsonAction::Stringify,
            Action::Compare(_) => JsonAction::Compare,
            Action::RemoveSpaces(_) => JsonAction::RemoveSpaces,
        }
    }
}

impl JsonAction {
    /// The kind's name, as a front end shows it.
    pub fn label(&self) -> (r: String)
        ensures
            r@ == (match self {
                JsonAction::Parse => "Parse"@,
                JsonAction::Stringify => "Stringify"@,
                JsonAction::Compare => "Compare"@,
                JsonAction::RemoveSpaces => "RemoveSpaces"@,
            }),
    {
        match self {
            JsonAction::Parse => String::from_str("Parse"),
            JsonAction::Stringify => String::from_str("Stringify"),
            JsonAction::Compare => String::from_str("Compare"),
            JsonAction::RemoveSpaces => String::from_str("RemoveSpaces"),
        }
    }
}

/// The two panes of the side-by-side editor layout.
#[derive(Debug, Clone, Copy, PartialEq, Eq, Structural)]
pub enum Panes {
    LeftEditorPane,
    RightEditorPane,
}

} // verus!
