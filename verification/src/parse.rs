use vstd::prelude::*;
use vstd::string::StringExecFns;

use crate::codec::{json_parse, parse_json_text, ParseOutcomeV};
use crate::error::{Error, ErrorV};
use crate::json::{elems_view, pairs_view, Json, JsonV};
use crate::text::{
    is_plain_text, plain_text, strip_quotes, strip_quotes_exec, unescape, unescape_exec,
};

verus! {

broadcast use crate::json::group_json_view;

// ---------------------------------------------------------------------------
// The decoder: a raw text is treated as a string value and decoded, depth
// first, until no string leaf can be decoded further.
// ---------------------------------------------------------------------------

/// The diagnostic given up with when a text asks for more layers of decoding
/// than it has characters; no real text can (each layer costs at least a
/// pair of quotes), so the limit is never the reason an input is refused.
pub open spec fn depth_msg() -> Seq<char> {
    "nesting too deep"@
}

/// What decoding a value comes to, with `fuel` layers of string decoding
/// left. A string is stripped of one layer of quotes and escapes; if the
/// result could not begin a JSON value it stays a plain string; otherwise it
/// must parse, and the parsed value is decoded in turn. Arrays and objects
/// are decoded element by element, first failure first.
pub open spec fn norm_val(v: JsonV, fuel: nat) -> Result<JsonV, Seq<char>>
    decreases fuel, v,
{
    match v {
        JsonV::Str(s0) => {
            let t = unescape(strip_quotes(s0));
            if plain_text(t) {
                Ok(JsonV::Str(t))
            } else {
                match json_parse(t) {
                    ParseOutcomeV::Parsed(w) => if fuel == 0 {
                        Err(depth_msg())
                    } else {
                        norm_val(w, (fuel - 1) as nat)
                    },
                    ParseOutcomeV::Failed(m) => Err(m),
                }
            }
        },
        JsonV::Arr(elems) => match norm_elems(elems, fuel) {
            Ok(es) => Ok(JsonV::Arr(es)),
            Err(m) => Err(m),
        },
        JsonV::Obj(pairs) => match norm_pairs(pairs, fuel) {
            Ok(ps) => Ok(JsonV::Obj(ps)),
            Err(m) => Err(m),
        },
        _ => Ok(v),
    }
}

pub open spec fn norm_elems(elems: Seq<JsonV>, fuel: nat) -> Result<Seq<JsonV>, Seq<char>>
    decreases fuel, elems,
{
    if elems.len() == 0 {
        Ok(Seq::empty())
    } else {
        match norm_val(elems[0], fuel) {
            Ok(w) => match norm_elems(elems.subrange(1, elems.len() as int), fuel) {
                Ok(ws) => Ok(seq![w] + ws),
                Err(m) => Err(m),
            },
            Err(m) => Err(m),
        }
    }
}

pub open spec fn norm_pairs(pairs: Seq<(Seq<char>, JsonV)>, fuel: nat) -> Result<
    Seq<(Seq<char>, JsonV)>,
    Seq<char>,
>
    decreases fuel, pairs,
{
    if pairs.len() == 0 {
        Ok(Seq::empty())
    } else {
        match norm_val(pairs[0].1, fuel) {
            Ok(w) => match norm_pairs(pairs.subrange(1, pairs.len() as int), fuel) {
                Ok(ws) => Ok(seq![(pairs[0].0, w)] + ws),
                Err(m) => Err(m),
            },
            Err(m) => Err(m),
        }
    }
}

/// What [`parse`] returns on a raw text: the text, taken as a string value,
/// decoded with one layer of fuel per character.
pub open spec fn parse_spec(s: Seq<char>) -> Result<JsonV, Seq<char>> {
    norm_val(JsonV::Str(s), s.len())
}

#[verifier::loop_isolation(false)]
fn parse_value(v: &Json, fuel: usize) -> (r: Result<Json, Error>)
    ensures
        (match norm_val(v@, fuel as nat) {
            Ok(w) => r matches Ok(j) && j@ == w,
            Err(m) => r matches Err(e) && e@ == ErrorV::Parsing(m),
        }),
        (match r {
            Ok(j) => v@.wf() ==> j@.wf(),
            Err(_) => true,
        }),
    decreases fuel, v,
{
    match v {
        Json::Str(s0) => {
            let stripped = strip_quotes_exec(s0.as_str());
            let t = unescape_exec(stripped.as_str());
            if is_plain_text(t.as_str()) {
                Ok(Json::Str(t))
            } else {
                match parse_json_text(t.as_str()) {
                    Ok(parsed) => {
                        if fuel == 0 {
                            Err(Error::JSONParsing(String::from_str("nesting too deep")))
                        } else {
                            parse_value(&parsed, fuel - 1)
                        }
                    },
                    Err(m) => Err(Error::JSONParsing(m)),
                }
            }
        },
        Json::Arr(elems) => {
            let ghost velems = elems_view(elems@);
            let mut out: Vec<Json> = Vec::new();
            let mut i: usize = 0;
            proof {
                assert(velems.subrange(0, velems.len() as int) =~= velems);
            }
            while i < elems.len()
                invariant
                    i <= elems.len(),
                    out@.len() == i,
                    (match norm_elems(velems.subrange(i as int, velems.len() as int), fuel as nat) {
                        Ok(ws) => norm_elems(velems, fuel as nat) == Ok::<_, Seq<char>>(
                            elems_view(out@) + ws,
                        ),
                        Err(m) => norm_elems(velems, fuel as nat) == Err::<Seq<JsonV>, _>(m),
                    }),
                    v@.wf() ==> forall|k: int| 0 <= k < out@.len() ==> (#[trigger] out@[k]@).wf(),
                decreases elems.len() - i,
            {
                let ghost rest = velems.subrange(i as int, velems.len() as int);
                proof {
                    assert(rest[0] == velems[i as int]);
                    assert(rest.subrange(1, rest.len() as int) =~= velems.subrange(
                        i + 1,
                        velems.len() as int,
                    ));
                    assert(decreases_to!(*v => v->Arr_0));
                    assert(decreases_to!(v->Arr_0 => v->Arr_0@));
                    assert(decreases_to!(v->Arr_0@ => v->Arr_0@[i as int]));
                    if v@.wf() {
                        assert(velems[i as int].wf());
                    }
                }
                match parse_value(&elems[i], fuel) {
                    Ok(w) => {
                        let ghost out0 = out@;
                        out.push(w);
                        proof {
                            assert(elems_view(out@) =~= elems_view(out0).push(w@));
                            match norm_elems(
                                velems.subrange(i + 1, velems.len() as int),
                                fuel as nat,
                            ) {
                                Ok(ws) => {
                                    assert(elems_view(out0).push(w@) + ws =~= elems_view(out0)
                                        + (seq![w@] + ws));
                                },
                                Err(_) => {},
                            }
                        }
                    },
                    Err(e) => {
                        return Err(e);
                    },
                }
                i += 1;
            }
            proof {
                assert(velems.subrange(velems.len() as int, velems.len() as int) =~= Seq::<
                    JsonV,
                >::empty());
                assert(elems_view(out@) + Seq::<JsonV>::empty() =~= elems_view(out@));
            }
            Ok(Json::Arr(out))
        },
        Json::Obj(pairs) => {
            let ghost vpairs = pairs_view(pairs@);
            let mut out: Vec<(String, Json)> = Vec::new();
            let mut i: usize = 0;
            proof {
                assert(vpairs.subrange(0, vpairs.len() as int) =~= vpairs);
            }
            while i < pairs.len()
                invariant
                    i <= pairs.len(),
                    out@.len() == i,
                    (match norm_pairs(vpairs.subrange(i as int, vpairs.len() as int), fuel as nat) {
                        Ok(ws) => norm_pairs(vpairs, fuel as nat) == Ok::<_, Seq<char>>(
                            pairs_view(out@) + ws,
                        ),
                        Err(m) => norm_pairs(vpairs, fuel as nat) == Err::<
                            Seq<(Seq<char>, JsonV)>,
                            _,
                        >(m),
                    }),
                    forall|k: int| 0 <= k < out@.len() ==> (#[trigger] out@[k].0)@ == vpairs[k].0,
                    v@.wf() ==> forall|k: int|
                        0 <= k < out@.len() ==> (#[trigger] out@[k].1)@.wf(),
                decreases pairs.len() - i,
            {
                let ghost rest = vpairs.subrange(i as int, vpairs.len() as int);
                proof {
                    assert(rest[0] == vpairs[i as int]);
                    assert(rest.subrange(1, rest.len() as int) =~= vpairs.subrange(
                        i + 1,
                        vpairs.len() as int,
                    ));
                    assert(decreases_to!(*v => v->Obj_0));
                    assert(decreases_to!(v->Obj_0 => v->Obj_0@));
                    assert(decreases_to!(v->Obj_0@ => v->Obj_0@[i as int]));
                    assert(decreases_to!(v->Obj_0@[i as int] => v->Obj_0@[i as int].1));
                    if v@.wf() {
                        assert(vpairs[i as int].1.wf());
                    }
                }
                let pair = &pairs[i];
                match parse_value(&pair.1, fuel) {
                    Ok(w) => {
                        let ghost out0 = out@;
                        out.push((pair.0.clone(), w));
                        proof {
                            assert(pairs_view(out@) =~= pairs_view(out0).push(
                                (vpairs[i as int].0, w@),
                            ));
                            match norm_pairs(
                                vpairs.subrange(i + 1, vpairs.len() as int),
                                fuel as nat,
                            ) {
                                Ok(ws) => {
                                    assert(pairs_view(out0).push((vpairs[i as int].0, w@)) + ws
                                        =~= pairs_view(out0) + (seq![(vpairs[i as int].0, w@)]
                                        + ws));
                                },
                                Err(_) => {},
                            }
                        }
                    },
                    Err(e) => {
                        return Err(e);
                    },
                }
                i += 1;
            }
            proof {
                assert(vpairs.subrange(vpairs.len() as int, vpairs.len() as int) =~= Seq::<
                    (Seq<char>, JsonV),
                >::empty());
                assert(pairs_view(out@) + Seq::<(Seq<char>, JsonV)>::empty() =~= pairs_view(out@));
                if v@.wf() {
                    match norm_pairs(vpairs, fuel as nat) {
                        Ok(_) => {
                            assert forall|a: int, b: int|
                                0 <= a < b < pairs_view(out@).len() implies pairs_view(out@)[a].0
                                != pairs_view(out@)[b].0 by {
                                assert(vpairs[a].0 != vpairs[b].0);
                            }
                        },
                        Err(_) => {},
                    }
                }
            }
            Ok(Json::Obj(out))
        },
        Json::Null => Ok(Json::Null),
        Json::Bool(b) => Ok(Json::Bool(*b)),
        Json::Num(t) => Ok(Json::Num(t.clone())),
    }
}

/// Decode a raw text into the value it spells, stripping any layers of
/// quoting and escaping it was wrapped in.
pub fn parse(input: String) -> (r: Result<Json, Error>)
    ensures
        (match parse_spec(input@) {
            Ok(w) => r matches Ok(j) && j@ == w,
            Err(m) => r matches Err(e) && e@ == ErrorV::Parsing(m),
        }),
        r matches Ok(j) ==> j@.wf() && j@.normalized(),
{
    let n = input.as_str().unicode_len();
    let wrapped = Json::Str(input);
    let r = parse_value(&wrapped, n);
    proof {
        lemma_norm_normalized(wrapped@, n as nat);
    }
    r
}

/// Whatever the decoder returns is normalized: no string leaf of a result
/// could begin a JSON value, so no further decoding is possible.
pub proof fn lemma_norm_normalized(v: JsonV, fuel: nat)
    ensures
        norm_val(v, fuel) matches Ok(w) ==> w.normalized(),
    decreases fuel, v,
{
    match v {
        JsonV::Str(s0) => {
            let t = unescape(strip_quotes(s0));
            if !plain_text(t) {
                match json_parse(t) {
                    ParseOutcomeV::Parsed(w) => {
                        if fuel != 0 {
                            lemma_norm_normalized(w, (fuel - 1) as nat);
                        }
                    },
                    ParseOutcomeV::Failed(_) => {},
                }
            }
        },
        JsonV::Arr(elems) => {
            lemma_norm_elems_normalized(elems, fuel);
        },
        JsonV::Obj(pairs) => {
            lemma_norm_pairs_normalized(pairs, fuel);
        },
        _ => {},
    }
}

proof fn lemma_norm_elems_normalized(elems: Seq<JsonV>, fuel: nat)
    ensures
        norm_elems(elems, fuel) matches Ok(ws) ==> forall|i: int|
            0 <= i < ws.len() ==> (#[trigger] ws[i]).normalized(),
    decreases fuel, elems,
{
    if elems.len() > 0 {
        lemma_norm_normalized(elems[0], fuel);
        lemma_norm_elems_normalized(elems.subrange(1, elems.len() as int), fuel);
    }
}

proof fn lemma_norm_pairs_normalized(pairs: Seq<(Seq<char>, JsonV)>, fuel: nat)
    ensures
        norm_pairs(pairs, fuel) matches Ok(ws) ==> forall|i: int|
            0 <= i < ws.len() ==> (#[trigger] ws[i].1).normalized(),
    decreases fuel, pairs,
{
    if pairs.len() > 0 {
        lemma_norm_normalized(pairs[0].1, fuel);
        lemma_norm_pairs_normalized(pairs.subrange(1, pairs.len() as int), fuel);
    }
}

/// Decoding is a no-op on a value that is already normalized and whose
/// strings and keys carry nothing the serializer would escape: the decoder
/// gives the value back unchanged, whatever fuel it is run with.
pub proof fn lemma_norm_idempotent(v: JsonV, fuel: nat)
    requires
        v.normalized(),
        v.plain_strings(),
    ensures
        norm_val(v, fuel) == Ok::<JsonV, Seq<char>>(v),
    decreases v,
{
    match v {
        JsonV::Str(s) => {
            assert forall|i: int| 0 <= i < s.len() implies s[i] != '\\' by {
                assert(crate::text::plain_char(s[i]));
            }
            if s.len() >= 1 {
                assert(crate::text::plain_char(s[0]));
                assert(crate::text::plain_char(s[s.len() - 1]));
            }
            assert(strip_quotes(s) == s);
            crate::text::lemma_unescape_plain(s);
        },
        JsonV::Arr(elems) => {
            lemma_norm_elems_idempotent(elems, fuel);
        },
        JsonV::Obj(pairs) => {
            assert(JsonV::Obj(pairs).normalized());
            assert(JsonV::Obj(pairs).plain_strings());
            assert forall|i: int| 0 <= i < pairs.len() implies (#[trigger] pairs[i].1).normalized()
                && pairs[i].1.plain_strings() by {
                assert(crate::text::plain_seq(pairs[i].0) && pairs[i].1.plain_strings());
            }
            lemma_norm_pairs_idempotent(pairs, fuel);
        },
        _ => {},
    }
}

proof fn lemma_norm_elems_idempotent(elems: Seq<JsonV>, fuel: nat)
    requires
        forall|i: int| 0 <= i < elems.len() ==> (#[trigger] elems[i]).normalized(),
        forall|i: int| 0 <= i < elems.len() ==> (#[trigger] elems[i]).plain_strings(),
    ensures
        norm_elems(elems, fuel) == Ok::<Seq<JsonV>, Seq<char>>(elems),
    decreases elems,
{
    if elems.len() == 0 {
        assert(elems =~= Seq::<JsonV>::empty());
    } else {
        let rest = elems.subrange(1, elems.len() as int);
        lemma_norm_idempotent(elems[0], fuel);
        assert forall|k: int| 0 <= k < rest.len() implies (#[trigger] rest[k]).normalized()
            && rest[k].plain_strings() by {
            assert(rest[k] == elems[k + 1]);
        }
        lemma_norm_elems_idempotent(rest, fuel);
        assert(norm_val(elems[0], fuel) == Ok::<JsonV, Seq<char>>(elems[0]));
        assert(norm_elems(rest, fuel) == Ok::<Seq<JsonV>, Seq<char>>(rest));
        assert(norm_elems(elems, fuel) == Ok::<Seq<JsonV>, Seq<char>>(seq![elems[0]] + rest));
        assert(seq![elems[0]] + rest =~= elems);
    }
}

proof fn lemma_norm_pairs_idempotent(pairs: Seq<(Seq<char>, JsonV)>, fuel: nat)
    requires
        forall|i: int| 0 <= i < pairs.len() ==> (#[trigger] pairs[i].1).normalized(),
        forall|i: int| 0 <= i < pairs.len() ==> (#[trigger] pairs[i].1).plain_strings(),
    ensures
        norm_pairs(pairs, fuel) == Ok::<Seq<(Seq<char>, JsonV)>, Seq<char>>(pairs),
    decreases pairs,
{
    if pairs.len() == 0 {
        assert(pairs =~= Seq::<(Seq<char>, JsonV)>::empty());
    } else {
        let rest = pairs.subrange(1, pairs.len() as int);
        lemma_norm_idempotent(pairs[0].1, fuel);
        assert forall|k: int| 0 <= k < rest.len() implies (#[trigger] rest[k].1).normalized()
            && rest[k].1.plain_strings() by {
            assert(rest[k] == pairs[k + 1]);
        }
        lemma_norm_pairs_idempotent(rest, fuel);
        assert(seq![(pairs[0].0, pairs[0].1)] + rest =~= pairs);
        assert((pairs[0].0, pairs[0].1) == pairs[0]);
    }
}

} // verus!
