use vstd::prelude::*;

use crate::json::{Json, JsonV};
use crate::text::plain_text;

verus! {

// ---------------------------------------------------------------------------
// The boundary to serde_json. The library does not re-implement JSON parsing
// or serialization: both are called here, behind contracts that name their
// results. Everything else in the crate is proved against these contracts.
// ---------------------------------------------------------------------------

/// What handing a text to the JSON parser can come to.
pub enum ParseOutcomeV {
    /// The text is a JSON document denoting this value.
    Parsed(JsonV),
    /// The text is not valid JSON; the parser's diagnostic message.
    Failed(Seq<char>),
}

/// The result of `serde_json::from_str::<Value>` on a text: it depends on the
/// text alone.
pub uninterp spec fn json_parse(s: Seq<char>) -> ParseOutcomeV;

/// The compact serialization that `serde_json::to_string` yields for a value:
/// it depends on the value alone.
pub uninterp spec fn json_text(v: JsonV) -> Seq<char>;

/// The indented serialization that `serde_json::to_string_pretty` yields for
/// a value: it depends on the value alone.
pub uninterp spec fn json_text_pretty(v: JsonV) -> Seq<char>;

/// The key serde_json reserves, under `arbitrary_precision`, to carry a
/// number's token through its data model: an object whose first key is this
/// text is read back as a number, not as that object.
pub open spec fn reserved_number_key() -> Seq<char> {
    "$serde_json::private::Number"@
}

/// No object anywhere in the value uses the reserved number key. Only such
/// values are promised to survive a serialize-then-parse round trip.
pub open spec fn no_reserved_keys(v: JsonV) -> bool
    decreases v,
{
    match v {
        JsonV::Arr(elems) => forall|i: int|
            0 <= i < elems.len() ==> no_reserved_keys(#[trigger] elems[i]),
        JsonV::Obj(pairs) => forall|i: int|
            0 <= i < pairs.len() ==> ((#[trigger] pairs[i]).0 != reserved_number_key()
                && no_reserved_keys(pairs[i].1)),
        _ => true,
    }
}

/// Relies on `String::push`, which std documents as appending the given
/// character to the end of the string.
pub assume_specification[ String::push ](s: &mut String, ch: char)
    ensures
        final(s)@ == old(s)@.push(ch),
;

#[verifier::external_type_specification]
#[verifier::external_body]
pub struct ExValue(serde_json::Value);

/// Rebuilds a serde_json tree as the library's value type, one variant for
/// one variant; a number becomes its literal token (verbatim, since
/// serde_json runs with `arbitrary_precision`).
#[verifier::external_body]
fn json_of_value(v: serde_json::Value) -> Json {
    match v {
        serde_json::Value::Null => Json::Null,
        serde_json::Value::Bool(b) => Json::Bool(b),
        serde_json::Value::Number(n) => Json::Num(n.to_string()),
        serde_json::Value::String(s) => Json::Str(s),
        serde_json::Value::Array(a) => Json::Arr(a.into_iter().map(json_of_value).collect()),
        serde_json::Value::Object(o) => Json::Obj(
            o.into_iter().map(|(k, x)| (k, json_of_value(x))).collect(),
        ),
    }
}

/// Rebuilds a library value as a serde_json tree, one variant for one
/// variant. `None` when a number token is not one the JSON grammar admits,
/// which `serde_json::Number::from_str` rejects.
#[verifier::external_body]
fn value_of_json(j: &Json) -> Option<serde_json::Value> {
    Some(match j {
        Json::Null => serde_json::Value::Null,
        Json::Bool(b) => serde_json::Value::Bool(*b),
        Json::Num(t) => serde_json::Value::Number(t.parse().ok()?),
        Json::Str(s) => serde_json::Value::String(s.clone()),
        Json::Arr(e) => serde_json::Value::Array(
            e.iter().map(value_of_json).collect::<Option<Vec<_>>>()?,
        ),
        Json::Obj(p) => serde_json::Value::Object(
            p.iter().map(|(k, x)| Some((k.clone(), value_of_json(x)?))).collect::<Option<serde_json::Map<String, serde_json::Value>>>()?,
        ),
    })
}

/// Relies on `serde_json::from_str::<Value>`. Whether a text parses, and as
/// which value, is a function of the text; on failure the diagnostic message
/// is one too. A parsed value is well-formed: its objects come out of
/// serde_json's map type, which cannot hold a key twice, and its number
/// tokens leave the scanner in its own spelling — integers canonical (small
/// ones pass through `u64`/`i64`, so `-0` becomes `0`), exponents rewritten
/// to a lowercase `e` with an explicit sign — which is the spelling
/// well-formedness demands.
#[verifier::external_body]
pub(crate) fn parse_json_text(s: &str) -> (r: Result<Json, String>)
    ensures
        (match json_parse(s@) {
            ParseOutcomeV::Parsed(v) => r matches Ok(j) && j@ == v && v.wf(),
            ParseOutcomeV::Failed(m) => r matches Err(e) && e@ == m,
        }),
{
    match serde_json::from_str::<serde_json::Value>(s) {
        Ok(v) => Ok(json_of_value(v)),
        Err(e) => Err(e.to_string()),
    }
}

/// Relies on `serde_json::to_string`. The call fails only when a number
/// token is rejected (never on a well-formed value); the clauses below state
/// what its source shows of the compact text of a well-formed value `v`:
/// - parsing the text gives `v` back: tokens are written verbatim under
///   `arbitrary_precision` (and well-formed tokens are already in the
///   parser's own spelling, so re-scanning rewrites nothing), key order is
///   kept under `preserve_order`, and a parsed string literal undoes the
///   writer's escapes. Two families of values are left out, because the
///   parser does not take them back: its
///   recursion limit refuses any text with containers nested 128 deep
///   (the writer has no such limit), and an object opening with the
///   reserved number key is read back as a number, so no value that uses
///   that key anywhere is covered;
/// - the writer escapes only quotes, backslashes and control characters
///   inside string literals: when no string or key of `v` holds one of
///   those, the text holds no backslash at all;
/// - the text of a string value is its content between two quotes (its
///   content verbatim, when nothing in it needs an escape);
/// - the text of anything but a string opens with `{`, `[`, a digit, `-`,
///   `t`, `f` or `n` and closes with `}`, `]`, a digit or a letter — never
///   a quote at either end, no whitespace around, so it could begin a JSON
///   value; and no text it writes is empty.
#[verifier::external_body]
pub(crate) fn to_json_text(j: &Json) -> (r: Option<String>)
    ensures
        r matches Some(s) ==> s@ == json_text(j@),
        r matches Some(s) ==> s@.len() > 0,
        j@.wf() ==> r is Some,
        (match r {
            Some(s) => j@.wf() && j@.depth() < 128 && no_reserved_keys(j@) ==> json_parse(s@)
                == ParseOutcomeV::Parsed(j@),
            None => true,
        }),
        (match r {
            Some(s) => j@.wf() && j@.plain_strings() ==> forall|i: int|
                0 <= i < s@.len() ==> s@[i] != '\\',
            None => true,
        }),
        (match r {
            Some(s) => (match j@ {
                JsonV::Str(content) => j@.plain_strings() ==> s@ == seq!['"'] + content
                    + seq!['"'],
                _ => true,
            }),
            None => true,
        }),
        (match r {
            Some(s) => j@.wf() && !(j@ is Str) ==> s@[0] != '"' && s@[s@.len() - 1] != '"',
            None => true,
        }),
        (match r {
            Some(s) => j@.wf() && !(j@ is Str) ==> !plain_text(s@),
            None => true,
        }),
{
    value_of_json(j).and_then(|v| serde_json::to_string(&v).ok())
}

/// Relies on `serde_json::to_string_pretty`; as with the compact form, the
/// call fails only when a number token is rejected.
#[verifier::external_body]
pub(crate) fn to_json_text_pretty(j: &Json) -> (r: Option<String>)
    ensures
        r matches Some(s) ==> s@ == json_text_pretty(j@),
        j@.wf() ==> r is Some,
{
    value_of_json(j).and_then(|v| serde_json::to_string_pretty(&v).ok())
}

} // verus!
