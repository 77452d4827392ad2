use vstd::prelude::*;
use vstd::string::StringExecFns;

use crate::codec::{json_text, no_reserved_keys, to_json_text};
use crate::error::{Error, ErrorV};
use crate::json::{Json, JsonV};
use crate::parse::{lemma_norm_idempotent, parse, parse_spec};
use crate::stringify::{sort_paths_spec, stringify};

verus! {

// ---------------------------------------------------------------------------
// Whitespace trimming: a value or text pushed once around the decode/encode
// loop. On clean input this is a no-op beyond re-encoding, and that is
// proved: re-decoding the compact text of a normalized value with plain
// strings gives the value back unchanged, as long as the value stays within
// what the parser takes back (nesting under its recursion limit, no use of
// its reserved number key).
// ---------------------------------------------------------------------------

/// The value serialized compactly and decoded again.
///
/// The round trip changes nothing: for a well-formed value that is already
/// normalized, whose strings and keys hold nothing the serializer would
/// escape, whose containers nest fewer than 128 deep, and which avoids the
/// parser's reserved number key, the result is the value itself. (A string
/// leaf with a backslash breaks the condition, and the round trip indeed
/// alters it: the serializer doubles the backslash and only a quote after
/// an odd run of backslashes is collapsed back. The depth and key bounds
/// come from the parser, which refuses texts nested 128 deep and reads the
/// reserved key as a number.)
pub fn remove_spaces_value(json: Json) -> (r: Result<Json, Error>)
    ensures
        json@.wf() ==> (match parse_spec(json_text(json@)) {
            Ok(w) => r matches Ok(j) && j@ == w && j@.wf() && j@.normalized(),
            Err(m) => r matches Err(e) && e@ == ErrorV::Parsing(m),
        }),
        json@.wf() && json@.normalized() && json@.plain_strings() && json@.depth() < 128
            && no_reserved_keys(json@) ==> (r matches Ok(j) && j@ == json@),
{
    match to_json_text(&json) {
        Some(txt) => {
            proof {
                if json@.wf() && json@.normalized() && json@.plain_strings() && json@.depth()
                    < 128 && no_reserved_keys(json@) {
                    lemma_norm_idempotent(json@, (txt@.len() - 1) as nat);
                    match json@ {
                        JsonV::Str(content) => {
                            crate::text::lemma_strip_quotes_wrapped(content);
                            assert forall|i: int| 0 <= i < content.len() implies content[i]
                                != '\\' by {
                                assert(txt@[i + 1] == content[i]);
                            }
                            crate::text::lemma_unescape_plain(content);
                        },
                        _ => {
                            crate::text::lemma_strip_quotes_id(txt@);
                            crate::text::lemma_unescape_plain(txt@);
                        },
                    }
                    assert(parse_spec(txt@) == Ok::<JsonV, Seq<char>>(json@));
                }
            }
            parse(txt)
        },
        None => Err(Error::JSONStringify(String::from_str("unencodable number"))),
    }
}

/// The text decoded and serialized compactly again: the same text with its
/// insignificant whitespace (and any quoting layers) gone.
pub fn remove_spaces_str(str: String) -> (r: Result<String, Error>)
    ensures
        (match parse_spec(str@) {
            Ok(w) => r matches Ok(t) && t@ == json_text(w),
            Err(m) => r matches Err(e) && e@ == ErrorV::Parsing(m),
        }),
{
    match parse(str) {
        Ok(json) => {
            proof {
                assert(sort_paths_spec(Seq::<Seq<char>>::empty()) =~= Seq::<Seq<char>>::empty());
            }
            stringify(json, None)
        },
        Err(e) => Err(e),
    }
}

} // verus!
