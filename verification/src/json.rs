use vstd::prelude::*;

verus! {

/// An in-memory JSON value.
///
/// Numbers are carried as their literal token text (`"30"`, `"1.5"`), so that
/// integers and floats round-trip losslessly through re-encoding. Objects are
/// ordered sequences of key/value pairs; well-formed objects have unique keys.
#[derive(Debug)]
pub enum Json {
    Null,
    Bool(bool),
    Num(String),
    Str(String),
    Arr(Vec<Json>),
    Obj(Vec<(String, Json)>),
}

/// The mathematical model of a [`Json`] value.
pub enum JsonV {
    Null,
    Bool(bool),
    Num(Seq<char>),
    Str(Seq<char>),
    Arr(Seq<JsonV>),
    Obj(Seq<(Seq<char>, JsonV)>),
}

/// The number grammar in the parser's own output spelling:
/// `-? (0 | [1-9][0-9]*) (. [0-9]+)? (e [+-] [0-9]+)?`. JSON also admits an
/// uppercase `E` and an unsigned exponent, but the parser rewrites those to
/// a lowercase `e` with an explicit sign while it scans, so only tokens in
/// this spelling survive a re-encoding round trip.
pub open spec fn spec_digit(c: char) -> bool {
    '0' <= c && c <= '9'
}

pub open spec fn digits1(s: Seq<char>) -> bool {
    s.len() >= 1 && forall|i: int| 0 <= i < s.len() ==> spec_digit(#[trigger] s[i])
}

pub open spec fn int_part(s: Seq<char>) -> bool {
    digits1(s) && (s.len() >= 2 ==> s[0] != '0')
}

pub open spec fn frac_part(s: Seq<char>) -> bool {
    s.len() == 0 || (s.len() >= 2 && s[0] == '.' && digits1(s.subrange(1, s.len() as int)))
}

pub open spec fn exp_part(s: Seq<char>) -> bool {
    ||| s.len() == 0
    ||| (s.len() >= 3 && s[0] == 'e' && (s[1] == '+' || s[1] == '-') && digits1(
        s.subrange(2, s.len() as int),
    ))
}

/// Does `s` spell a number as the parser itself would store it, the whole
/// of `s` and nothing more? The lone token `-0` is left out for the same
/// reason as the exponent spellings above: the parser folds it to `0`.
pub open spec fn valid_num_token(s: Seq<char>) -> bool {
    let u = if s.len() >= 1 && s[0] == '-' {
        s.subrange(1, s.len() as int)
    } else {
        s
    };
    &&& !(s.len() == 2 && s[0] == '-' && s[1] == '0')
    &&& exists|a: int, b: int|
        0 <= a <= b <= u.len() && int_part(#[trigger] u.subrange(0, a)) && frac_part(
            #[trigger] u.subrange(a, b),
        ) && exp_part(u.subrange(b, u.len() as int))
}

impl JsonV {
    /// No string or key of the value holds a quote, a backslash or a control
    /// character, so the serializer writes each one verbatim.
    pub open spec fn plain_strings(self) -> bool
        decreases self,
    {
        match self {
            JsonV::Null => true,
            JsonV::Bool(_) => true,
            JsonV::Num(_) => true,
            JsonV::Str(s) => crate::text::plain_seq(s),
            JsonV::Arr(elems) => forall|i: int|
                0 <= i < elems.len() ==> (#[trigger] elems[i]).plain_strings(),
            JsonV::Obj(pairs) => forall|i: int|
                0 <= i < pairs.len() ==> crate::text::plain_seq(#[trigger] pairs[i].0)
                    && pairs[i].1.plain_strings(),
        }
    }

    /// Nothing in the value can be decoded further: every string leaf is a
    /// text that could not begin a JSON value. The decoder's results look
    /// like this, and on such values the decoder is a no-op.
    pub open spec fn normalized(self) -> bool
        decreases self,
    {
        match self {
            JsonV::Null => true,
            JsonV::Bool(_) => true,
            JsonV::Num(_) => true,
            JsonV::Str(s) => crate::text::plain_text(s),
            JsonV::Arr(elems) => forall|i: int|
                0 <= i < elems.len() ==> (#[trigger] elems[i]).normalized(),
            JsonV::Obj(pairs) => forall|i: int|
                0 <= i < pairs.len() ==> (#[trigger] pairs[i].1).normalized(),
        }
    }

    /// How deeply containers nest: a leaf is at depth zero, and each array
    /// or object around it adds one.
    pub open spec fn depth(self) -> nat
        decreases self,
    {
        match self {
            JsonV::Arr(elems) => 1 + depth_elems(elems),
            JsonV::Obj(pairs) => 1 + depth_pairs(pairs),
            _ => 0,
        }
    }

    /// Well-formed values: every object's keys are unique, and every number
    /// holds a token in the parser's own spelling of the JSON number
    /// grammar. Values built by the decoder always satisfy this; the
    /// encoder owes a result only on such values.
    pub open spec fn wf(self) -> bool
        decreases self,
    {
        match self {
            JsonV::Null => true,
            JsonV::Bool(_) => true,
            JsonV::Num(t) => valid_num_token(t),
            JsonV::Str(_) => true,
            JsonV::Arr(elems) => forall|i: int|
                0 <= i < elems.len() ==> (#[trigger] elems[i]).wf(),
            JsonV::Obj(pairs) => {
                &&& forall|i: int| 0 <= i < pairs.len() ==> (#[trigger] pairs[i].1).wf()
                &&& forall|i: int, j: int|
                    0 <= i < j < pairs.len() ==> pairs[i].0 != pairs[j].0
            },
        }
    }
}

/// The deepest nesting among the elements.
pub open spec fn depth_elems(elems: Seq<JsonV>) -> nat
    decreases elems,
{
    if elems.len() == 0 {
        0
    } else {
        let h = elems[0].depth();
        let r = depth_elems(elems.subrange(1, elems.len() as int));
        if h >= r {
            h
        } else {
            r
        }
    }
}

/// The deepest nesting among the values of the pairs.
pub open spec fn depth_pairs(pairs: Seq<(Seq<char>, JsonV)>) -> nat
    decreases pairs,
{
    if pairs.len() == 0 {
        0
    } else {
        let h = pairs[0].1.depth();
        let r = depth_pairs(pairs.subrange(1, pairs.len() as int));
        if h >= r {
            h
        } else {
            r
        }
    }
}

/// The models of an array's elements, in order.
pub open spec fn elems_view(elems: Seq<Json>) -> Seq<JsonV>
    decreases elems,
{
    Seq::new(
        elems.len(),
        |i: int|
            if 0 <= i < elems.len() {
                elems[i].view()
            } else {
                JsonV::Null
            },
    )
}

/// The models of an object's key/value pairs, in order.
pub open spec fn pairs_view(pairs: Seq<(String, Json)>) -> Seq<(Seq<char>, JsonV)>
    decreases pairs,
{
    Seq::new(
        pairs.len(),
        |i: int|
            if 0 <= i < pairs.len() {
                (pairs[i].0.view(), pairs[i].1.view())
            } else {
                (Seq::<char>::empty(), JsonV::Null)
            },
    )
}

impl View for Json {
    type V = JsonV;

    open spec fn view(&self) -> JsonV
        decreases self,
    {
        match self {
            Json::Null => JsonV::Null,
            Json::Bool(b) => JsonV::Bool(*b),
            Json::Num(s) => JsonV::Num(s@),
            Json::Str(s) => JsonV::Str(s@),
            Json::Arr(elems) => JsonV::Arr(elems_view(elems@)),
            Json::Obj(pairs) => JsonV::Obj(pairs_view(pairs@)),
        }
    }
}

impl Clone for Json {
    /// A deep copy; the copy models the same value.
    #[verifier::loop_isolation(false)]
    fn clone(&self) -> (res: Json)
        ensures
            res@ == self@,
        decreases self,
    {
        match self {
            Json::Null => Json::Null,
            Json::Bool(b) => Json::Bool(*b),
            Json::Num(t) => Json::Num(t.clone()),
            Json::Str(s) => Json::Str(s.clone()),
            Json::Arr(elems) => {
                let mut out: Vec<Json> = Vec::new();
                let mut i: usize = 0;
                while i < elems.len()
                    invariant
                        i <= elems@.len(),
                        out@.len() == i,
                        forall|k: int| 0 <= k < i ==> (#[trigger] out@[k])@ == elems@[k]@,
                    decreases elems@.len() - i,
                {
                    proof {
                        assert(decreases_to!(*self => self->Arr_0));
                        assert(decreases_to!(self->Arr_0 => self->Arr_0@));
                        assert(decreases_to!(self->Arr_0@ => self->Arr_0@[i as int]));
                    }
                    let c = elems[i].clone();
                    out.push(c);
                    i += 1;
                }
                proof {
                    broadcast use group_json_view;

                    assert(elems_view(out@) =~= elems_view(elems@));
                }
                Json::Arr(out)
            },
            Json::Obj(pairs) => {
                let mut out: Vec<(String, Json)> = Vec::new();
                let mut i: usize = 0;
                while i < pairs.len()
                    invariant
                        i <= pairs@.len(),
                        out@.len() == i,
                        forall|k: int|
                            0 <= k < i ==> (#[trigger] out@[k]).0@ == pairs@[k].0@ && out@[k].1@
                                == pairs@[k].1@,
                    decreases pairs@.len() - i,
                {
                    proof {
                        assert(decreases_to!(*self => self->Obj_0));
                        assert(decreases_to!(self->Obj_0 => self->Obj_0@));
                        assert(decreases_to!(self->Obj_0@ => self->Obj_0@[i as int]));
                        assert(decreases_to!(self->Obj_0@[i as int] => self->Obj_0@[i as int].1));
                    }
                    let pair = &pairs[i];
                    let k = pair.0.clone();
                    let v = pair.1.clone();
                    out.push((k, v));
                    i += 1;
                }
                proof {
                    broadcast use group_json_view;

                    assert(pairs_view(out@) =~= pairs_view(pairs@));
                }
                Json::Obj(out)
            },
        }
    }
}

impl PartialEq for Json {
    /// Deep structural equality: two values are equal when they model the
    /// same [`JsonV`].
    fn eq(&self, other: &Json) -> (r: bool) {
        deep_eq(self, other)
    }
}

/// Whether the two values model the same [`JsonV`].
#[verifier::loop_isolation(false)]
pub fn deep_eq(this: &Json, other: &Json) -> (r: bool)
    ensures
        r == (this@ == other@),
    decreases this, other,
{
    broadcast use group_json_view;

    let self_ = this;
    match (self_, other) {
            (Json::Null, Json::Null) => true,
            (Json::Bool(a), Json::Bool(b)) => *a == *b,
            (Json::Num(a), Json::Num(b)) => *a == *b,
            (Json::Str(a), Json::Str(b)) => *a == *b,
            (Json::Arr(e1), Json::Arr(e2)) => {
                if e1.len() != e2.len() {
                    proof {
                        assert(elems_view(e1@).len() != elems_view(e2@).len());
                    }
                    false
                } else {
                    let mut i: usize = 0;
                    let mut same = true;
                    while same && i < e1.len()
                        invariant
                            i <= e1@.len(),
                            e1@.len() == e2@.len(),
                            same ==> forall|k: int|
                                0 <= k < i ==> (#[trigger] e1@[k])@ == e2@[k]@,
                            !same ==> self_@ != other@,
                        decreases e1@.len() - i,
                    {
                        proof {
                            assert(decreases_to!(*self_ => self_->Arr_0));
                            assert(decreases_to!(self_->Arr_0 => self_->Arr_0@));
                            assert(decreases_to!(self_->Arr_0@ => self_->Arr_0@[i as int]));
                        }
                        if !deep_eq(&e1[i], &e2[i]) {
                            proof {
                                if self_@ == other@ {
                                    assert(elems_view(e1@) == elems_view(e2@));
                                    assert(elems_view(e1@)[i as int] == elems_view(e2@)[i as int]);
                                }
                            }
                            same = false;
                        }
                        i += 1;
                    }
                    proof {
                        if same {
                            assert(elems_view(e1@) =~= elems_view(e2@));
                        }
                    }
                    same
                }
            },
            (Json::Obj(p1), Json::Obj(p2)) => {
                if p1.len() != p2.len() {
                    proof {
                        assert(pairs_view(p1@).len() != pairs_view(p2@).len());
                    }
                    false
                } else {
                    let mut i: usize = 0;
                    let mut same = true;
                    while same && i < p1.len()
                        invariant
                            i <= p1@.len(),
                            p1@.len() == p2@.len(),
                            same ==> forall|k: int|
                                0 <= k < i ==> (#[trigger] p1@[k]).0@ == p2@[k].0@ && p1@[k].1@
                                    == p2@[k].1@,
                            !same ==> self_@ != other@,
                        decreases p1@.len() - i,
                    {
                        proof {
                            assert(decreases_to!(*self_ => self_->Obj_0));
                            assert(decreases_to!(self_->Obj_0 => self_->Obj_0@));
                            assert(decreases_to!(self_->Obj_0@ => self_->Obj_0@[i as int]));
                            assert(decreases_to!(self_->Obj_0@[i as int] => self_->Obj_0@[i as int].1));
                        }
                        let pa = &p1[i];
                        let pb = &p2[i];
                        if !(pa.0 == pb.0) || !deep_eq(&pa.1, &pb.1) {
                            proof {
                                if self_@ == other@ {
                                    assert(pairs_view(p1@) == pairs_view(p2@));
                                    assert(pairs_view(p1@)[i as int] == pairs_view(p2@)[i as int]);
                                }
                            }
                            same = false;
                        }
                        i += 1;
                    }
                    proof {
                        if same {
                            assert(pairs_view(p1@) =~= pairs_view(p2@));
                        }
                    }
                    same
                }
            },
            _ => {
                proof {
                    if self_@ == other@ {
                        match self_ {
                            Json::Null => assert(other@ is Null),
                            Json::Bool(_) => assert(other@ is Bool),
                            Json::Num(_) => assert(other@ is Num),
                            Json::Str(_) => assert(other@ is Str),
                            Json::Arr(_) => assert(other@ is Arr),
                            Json::Obj(_) => assert(other@ is Obj),
                        }
                        match other {
                            Json::Null => assert(other@ is Null),
                            Json::Bool(_) => assert(other@ is Bool),
                            Json::Num(_) => assert(other@ is Num),
                            Json::Str(_) => assert(other@ is Str),
                            Json::Arr(_) => assert(other@ is Arr),
                            Json::Obj(_) => assert(other@ is Obj),
                        }
                    }
                }
                false
            },
    }
}

impl vstd::std_specs::cmp::PartialEqSpecImpl for Json {
    open spec fn obeys_eq_spec() -> bool {
        true
    }

    open spec fn eq_spec(&self, other: &Json) -> bool {
        self@ == other@
    }
}

impl Eq for Json {

}

pub broadcast proof fn lemma_elems_view_len(elems: Seq<Json>)
    ensures
        (#[trigger] elems_view(elems)).len() == elems.len(),
{
}

pub broadcast proof fn lemma_elems_view_index(elems: Seq<Json>, i: int)
    requires
        0 <= i < elems.len(),
    ensures
        #[trigger] elems_view(elems)[i] == elems[i]@,
{
}

pub broadcast proof fn lemma_pairs_view_len(pairs: Seq<(String, Json)>)
    ensures
        (#[trigger] pairs_view(pairs)).len() == pairs.len(),
{
}

pub broadcast proof fn lemma_pairs_view_index(pairs: Seq<(String, Json)>, i: int)
    requires
        0 <= i < pairs.len(),
    ensures
        #[trigger] pairs_view(pairs)[i] == (pairs[i].0@, pairs[i].1@),
{
}

/// The character sequences of a sequence of owned strings.
pub open spec fn strs_view(s: Seq<String>) -> Seq<Seq<char>> {
    Seq::new(
        s.len(),
        |i: int|
            if 0 <= i < s.len() {
                s[i]@
            } else {
                Seq::empty()
            },
    )
}

/// The character sequences of a sequence of borrowed strings.
pub open spec fn str_refs_view(s: Seq<&str>) -> Seq<Seq<char>> {
    Seq::new(
        s.len(),
        |i: int|
            if 0 <= i < s.len() {
                s[i]@
            } else {
                Seq::empty()
            },
    )
}

pub broadcast proof fn lemma_strs_view_len(s: Seq<String>)
    ensures
        (#[trigger] strs_view(s)).len() == s.len(),
{
}

pub broadcast proof fn lemma_strs_view_index(s: Seq<String>, i: int)
    requires
        0 <= i < s.len(),
    ensures
        #[trigger] strs_view(s)[i] == s[i]@,
{
}

pub broadcast proof fn lemma_str_refs_view_len(s: Seq<&str>)
    ensures
        (#[trigger] str_refs_view(s)).len() == s.len(),
{
}

pub broadcast proof fn lemma_str_refs_view_index(s: Seq<&str>, i: int)
    requires
        0 <= i < s.len(),
    ensures
        #[trigger] str_refs_view(s)[i] == s[i]@,
{
}

pub broadcast group group_json_view {
    lemma_elems_view_len,
    lemma_elems_view_index,
    lemma_pairs_view_len,
    lemma_pairs_view_index,
    lemma_strs_view_len,
    lemma_strs_view_index,
    lemma_str_refs_view_len,
    lemma_str_refs_view_index,
}

} // verus!
