use vstd::prelude::*;
use vstd::multiset::Multiset;
use vstd::string::{StrSliceExecFns, StringExecFns};

use crate::codec::{json_parse, json_text, json_text_pretty, no_reserved_keys, reserved_number_key, to_json_text, to_json_text_pretty, ParseOutcomeV};
use crate::error::{Error, ErrorV};
use crate::json::{depth_pairs, pairs_view, str_refs_view, strs_view, Json, JsonV};
use crate::text::{dot_count, dot_count_exec, split_dots, split_dots_exec};

verus! {

broadcast use crate::json::group_json_view;

// ---------------------------------------------------------------------------
// The encoder: chosen subtrees are folded back into their compact text form,
// deepest paths first, and the whole value is then serialized.
// ---------------------------------------------------------------------------

/// `x` inserted into `s` behind every element with at least as many dots:
/// one step of a stable insertion sort by descending dot count.
pub open spec fn insert_sorted(x: Seq<char>, s: Seq<Seq<char>>) -> Seq<Seq<char>>
    decreases s.len(),
{
    if s.len() == 0 {
        seq![x]
    } else if dot_count(s[0]) >= dot_count(x) {
        seq![s[0]] + insert_sorted(x, s.subrange(1, s.len() as int))
    } else {
        seq![x] + s
    }
}

/// The paths ordered by descending dot count, paths of equal depth keeping
/// their relative order.
pub open spec fn sort_paths_spec(s: Seq<Seq<char>>) -> Seq<Seq<char>>
    decreases s.len(),
{
    if s.len() == 0 {
        s
    } else {
        insert_sorted(s.last(), sort_paths_spec(s.drop_last()))
    }
}

/// Index of the first pair holding `key`, or `-1`.
pub open spec fn key_index(pairs: Seq<(Seq<char>, JsonV)>, key: Seq<char>) -> int
    decreases pairs.len(),
{
    if pairs.len() == 0 {
        -1
    } else if pairs[0].0 == key {
        0
    } else {
        let r = key_index(pairs.subrange(1, pairs.len() as int), key);
        if r == -1 {
            -1
        } else {
            r + 1
        }
    }
}

pub proof fn lemma_key_index(pairs: Seq<(Seq<char>, JsonV)>, key: Seq<char>)
    ensures
        key_index(pairs, key) == -1 ==> forall|i: int|
            0 <= i < pairs.len() ==> (#[trigger] pairs[i]).0 != key,
        key_index(pairs, key) != -1 ==> {
            let j = key_index(pairs, key);
            &&& 0 <= j < pairs.len()
            &&& pairs[j].0 == key
            &&& forall|i: int| 0 <= i < j ==> (#[trigger] pairs[i]).0 != key
        },
    decreases pairs.len(),
{
    if pairs.len() > 0 && pairs[0].0 != key {
        let rest = pairs.subrange(1, pairs.len() as int);
        lemma_key_index(rest, key);
        if key_index(pairs, key) == -1 {
            assert forall|i: int| 0 <= i < pairs.len() implies (#[trigger] pairs[i]).0 != key by {
                if i > 0 {
                    assert(rest[i - 1] == pairs[i]);
                }
            }
        } else {
            let j = key_index(pairs, key);
            assert(pairs[j] == rest[j - 1]);
            assert forall|i: int| 0 <= i < j implies (#[trigger] pairs[i]).0 != key by {
                if i > 0 {
                    assert(rest[i - 1] == pairs[i]);
                }
            }
        }
    }
}

/// The value with the subtree at the path `segs` folded into its compact
/// text: every segment must resolve through an object, and at the last
/// segment the value held there is replaced by its serialization. `None`
/// when a segment is missing or a non-object stands in the way.
pub open spec fn edit_spec(v: JsonV, segs: Seq<Seq<char>>) -> Option<JsonV>
    decreases segs.len(),
{
    if segs.len() == 0 {
        Some(v)
    } else {
        match v {
            JsonV::Obj(pairs) => {
                let j = key_index(pairs, segs[0]);
                if j == -1 {
                    None
                } else if segs.len() == 1 {
                    Some(
                        JsonV::Obj(
                            pairs.update(j, (pairs[j].0, JsonV::Str(json_text(pairs[j].1)))),
                        ),
                    )
                } else {
                    match edit_spec(pairs[j].1, segs.subrange(1, segs.len() as int)) {
                        Some(w) => Some(JsonV::Obj(pairs.update(j, (pairs[j].0, w)))),
                        None => None,
                    }
                }
            },
            _ => None,
        }
    }
}

/// The paths applied in the given order, first failure first.
pub open spec fn apply_paths(v: JsonV, sorted: Seq<Seq<char>>) -> Result<JsonV, Seq<char>>
    decreases sorted.len(),
{
    if sorted.len() == 0 {
        Ok(v)
    } else {
        match edit_spec(v, split_dots(sorted[0])) {
            Some(w) => apply_paths(w, sorted.subrange(1, sorted.len() as int)),
            None => Err(sorted[0]),
        }
    }
}

/// What [`stringify`] returns on a well-formed value: the paths are applied
/// deepest first, and the result is the compact text of the edited value.
pub open spec fn stringify_spec(v: JsonV, paths: Seq<Seq<char>>) -> Result<Seq<char>, Seq<char>> {
    match apply_paths(v, sort_paths_spec(paths)) {
        Ok(w) => Ok(json_text(w)),
        Err(p) => Err(p),
    }
}

proof fn lemma_depth_pairs_update(pairs: Seq<(Seq<char>, JsonV)>, j: int, p: (Seq<char>, JsonV))
    requires
        0 <= j < pairs.len(),
        p.1.depth() <= pairs[j].1.depth(),
    ensures
        depth_pairs(pairs.update(j, p)) <= depth_pairs(pairs),
    decreases pairs.len(),
{
    let u = pairs.update(j, p);
    let rest = pairs.subrange(1, pairs.len() as int);
    if j == 0 {
        assert(u.subrange(1, u.len() as int) =~= rest);
    } else {
        assert(u[0] == pairs[0]);
        assert(u.subrange(1, u.len() as int) =~= rest.update(j - 1, p));
        assert(rest[j - 1] == pairs[j]);
        lemma_depth_pairs_update(rest, j - 1, p);
    }
}

/// Folding a subtree into its text never deepens the value and touches no
/// key, so the depth bound and the absence of the reserved number key both
/// survive an edit.
pub proof fn lemma_edit_bounds(v: JsonV, segs: Seq<Seq<char>>)
    ensures
        (match edit_spec(v, segs) {
            Some(w) => w.depth() <= v.depth() && (no_reserved_keys(v) ==> no_reserved_keys(w)),
            None => true,
        }),
    decreases segs.len(),
{
    if segs.len() > 0 {
        match v {
            JsonV::Obj(pairs) => {
                let j = key_index(pairs, segs[0]);
                if j != -1 {
                    lemma_key_index(pairs, segs[0]);
                    if segs.len() == 1 {
                        let p = (pairs[j].0, JsonV::Str(json_text(pairs[j].1)));
                        lemma_depth_pairs_update(pairs, j, p);
                        lemma_update_no_reserved(pairs, j, p);
                    } else {
                        let rest = segs.subrange(1, segs.len() as int);
                        lemma_edit_bounds(pairs[j].1, rest);
                        match edit_spec(pairs[j].1, rest) {
                            Some(w1) => {
                                let p = (pairs[j].0, w1);
                                lemma_depth_pairs_update(pairs, j, p);
                                if no_reserved_keys(v) {
                                    assert(no_reserved_keys(pairs[j].1));
                                    lemma_update_no_reserved(pairs, j, p);
                                }
                            },
                            None => {},
                        }
                    }
                }
            },
            _ => {},
        }
    }
}

proof fn lemma_update_no_reserved(pairs: Seq<(Seq<char>, JsonV)>, j: int, p: (Seq<char>, JsonV))
    requires
        0 <= j < pairs.len(),
        p.0 == pairs[j].0,
        no_reserved_keys(p.1),
    ensures
        no_reserved_keys(JsonV::Obj(pairs)) ==> no_reserved_keys(JsonV::Obj(pairs.update(j, p))),
{
    let u = pairs.update(j, p);
    let vold = JsonV::Obj(pairs);
    let vnew = JsonV::Obj(u);
    assert(vold->Obj_0 == pairs);
    assert(vnew->Obj_0 == u);
    if no_reserved_keys(vold) {
        assert forall|i: int|
            0 <= i < u.len() implies ((#[trigger] u[i]).0 != reserved_number_key()
            && no_reserved_keys(u[i].1)) by {
            if i != j {
                assert(u[i] == pairs[i]);
            }
            assert(pairs[i].0 != reserved_number_key() && no_reserved_keys(pairs[i].1));
        }
    }
}

proof fn lemma_insert_sorted_finds(x: Seq<char>, s: Seq<Seq<char>>, j: int)
    requires
        0 <= j <= s.len(),
        forall|k: int| 0 <= k < j ==> dot_count(#[trigger] s[k]) >= dot_count(x),
        j < s.len() ==> dot_count(s[j]) < dot_count(x),
    ensures
        insert_sorted(x, s) == s.subrange(0, j) + seq![x] + s.subrange(j, s.len() as int),
    decreases s.len(),
{
    if s.len() == 0 {
        assert(insert_sorted(x, s) =~= s.subrange(0, j) + seq![x] + s.subrange(
            j,
            s.len() as int,
        ));
    } else if j == 0 {
        assert(s.subrange(0, 0) + seq![x] + s.subrange(0, s.len() as int) =~= seq![x] + s);
    } else {
        let rest = s.subrange(1, s.len() as int);
        assert forall|k: int| 0 <= k < j - 1 implies dot_count(#[trigger] rest[k]) >= dot_count(
            x,
        ) by {
            assert(rest[k] == s[k + 1]);
        }
        lemma_insert_sorted_finds(x, rest, j - 1);
        assert(seq![s[0]] + (rest.subrange(0, j - 1) + seq![x] + rest.subrange(
            j - 1,
            rest.len() as int,
        )) =~= s.subrange(0, j) + seq![x] + s.subrange(j, s.len() as int));
    }
}

/// Sorting the paths keeps every path: the result is a permutation.
pub proof fn lemma_sort_paths_permutation(s: Seq<Seq<char>>)
    ensures
        sort_paths_spec(s).to_multiset() == s.to_multiset(),
    decreases s.len(),
{
    broadcast use vstd::seq_lib::group_to_multiset_ensures;

    if s.len() > 0 {
        lemma_sort_paths_permutation(s.drop_last());
        lemma_insert_multiset(s.last(), sort_paths_spec(s.drop_last()));
        assert(s =~= s.drop_last().push(s.last()));
        assert(s.drop_last().push(s.last()).to_multiset() == s.drop_last().to_multiset().insert(
            s.last(),
        ));
    }
}

proof fn lemma_insert_multiset(x: Seq<char>, s: Seq<Seq<char>>)
    ensures
        insert_sorted(x, s).to_multiset() == s.to_multiset().insert(x),
    decreases s.len(),
{
    broadcast use vstd::seq_lib::group_to_multiset_ensures;

    if s.len() == 0 {
        assert(insert_sorted(x, s) =~= Seq::<Seq<char>>::empty().push(x));
        assert(s.to_multiset() =~= Multiset::<Seq<char>>::empty());
    } else if dot_count(s[0]) >= dot_count(x) {
        let rest = s.subrange(1, s.len() as int);
        lemma_insert_multiset(x, rest);
        assert(insert_sorted(x, s) =~= seq![s[0]] + insert_sorted(x, rest));
        assert(seq![s[0]] + insert_sorted(x, rest) =~= insert_sorted(x, rest).insert(0, s[0]));
        assert(s =~= rest.insert(0, s[0]));
        assert(insert_sorted(x, s).to_multiset() =~= s.to_multiset().insert(x));
    } else {
        assert(seq![x] + s =~= s.insert(0, x));
        assert(insert_sorted(x, s).to_multiset() =~= s.to_multiset().insert(x));
    }
}

/// The sorted paths run from deepest to shallowest: dot counts never grow.
pub proof fn lemma_sort_paths_sorted(s: Seq<Seq<char>>)
    ensures
        forall|a: int, b: int|
            0 <= a <= b < sort_paths_spec(s).len() ==> dot_count(
                #[trigger] sort_paths_spec(s)[a],
            ) >= dot_count(#[trigger] sort_paths_spec(s)[b]),
    decreases s.len(),
{
    if s.len() > 0 {
        lemma_sort_paths_sorted(s.drop_last());
        lemma_insert_keeps_sorted(s.last(), sort_paths_spec(s.drop_last()));
    }
}

proof fn lemma_insert_keeps_sorted(x: Seq<char>, s: Seq<Seq<char>>)
    requires
        forall|a: int, b: int|
            0 <= a <= b < s.len() ==> dot_count(#[trigger] s[a]) >= dot_count(#[trigger] s[b]),
    ensures
        forall|a: int, b: int|
            0 <= a <= b < insert_sorted(x, s).len() ==> dot_count(
                #[trigger] insert_sorted(x, s)[a],
            ) >= dot_count(#[trigger] insert_sorted(x, s)[b]),
    decreases s.len(),
{
    if s.len() == 0 {
    } else if dot_count(s[0]) >= dot_count(x) {
        let rest = s.subrange(1, s.len() as int);
        assert forall|a: int, b: int| 0 <= a <= b < rest.len() implies dot_count(
            #[trigger] rest[a],
        ) >= dot_count(#[trigger] rest[b]) by {
            assert(rest[a] == s[a + 1] && rest[b] == s[b + 1]);
        }
        lemma_insert_keeps_sorted(x, rest);
        let r = seq![s[0]] + insert_sorted(x, rest);
        assert forall|a: int, b: int| 0 <= a <= b < r.len() implies dot_count(#[trigger] r[a])
            >= dot_count(#[trigger] r[b]) by {
            lemma_insert_members(x, rest);
            if a == 0 && b > 0 {
                assert(r[b] == insert_sorted(x, rest)[b - 1]);
            }
        }
    }
}

proof fn lemma_insert_members(x: Seq<char>, s: Seq<Seq<char>>)
    ensures
        forall|i: int|
            0 <= i < insert_sorted(x, s).len() ==> (#[trigger] insert_sorted(x, s)[i] == x
                || exists|k: int| 0 <= k < s.len() && s[k] == insert_sorted(x, s)[i]),
    decreases s.len(),
{
    if s.len() > 0 && dot_count(s[0]) >= dot_count(x) {
        let rest = s.subrange(1, s.len() as int);
        lemma_insert_members(x, rest);
        let r = seq![s[0]] + insert_sorted(x, rest);
        assert forall|i: int| 0 <= i < r.len() implies (#[trigger] r[i] == x || exists|k: int|
            0 <= k < s.len() && s[k] == r[i]) by {
            if i == 0 {
                assert(s[0] == r[0]);
            } else {
                assert(r[i] == insert_sorted(x, rest)[i - 1]);
                if r[i] != x {
                    let k = choose|k: int| 0 <= k < rest.len() && rest[k] == r[i];
                    assert(s[k + 1] == r[i]);
                }
            }
        }
    }
}

fn insertion_index(r: &Vec<&str>, x: &str) -> (j: usize)
    ensures
        j <= r@.len(),
        forall|k: int|
            0 <= k < j ==> dot_count(#[trigger] str_refs_view(r@)[k]) >= dot_count(x@),
        j < r@.len() ==> dot_count(str_refs_view(r@)[j as int]) < dot_count(x@),
{
    let c = dot_count_exec(x);
    let mut j: usize = 0;
    while j < r.len()
        invariant
            j <= r@.len(),
            c as nat == dot_count(x@),
            forall|k: int|
                0 <= k < j ==> dot_count(#[trigger] str_refs_view(r@)[k]) >= dot_count(x@),
        decreases r@.len() - j,
    {
        let d = dot_count_exec(r[j]);
        proof {
            assert(str_refs_view(r@)[j as int] == r@[j as int]@);
        }
        if d < c {
            return j;
        }
        j += 1;
    }
    j
}

/// The paths ordered by descending number of `.` separators, ties keeping
/// their given order, so that the deepest paths are encoded first.
pub fn sort_by_period_count<'a>(paths: Vec<&'a str>) -> (r: Vec<&'a str>)
    ensures
        str_refs_view(r@) == sort_paths_spec(str_refs_view(paths@)),
{
    let mut r: Vec<&'a str> = Vec::new();
    let mut i: usize = 0;
    proof {
        assert(str_refs_view(paths@.subrange(0, 0)) =~= Seq::<Seq<char>>::empty());
        assert(str_refs_view(r@) =~= Seq::<Seq<char>>::empty());
    }
    while i < paths.len()
        invariant
            i <= paths.len(),
            str_refs_view(r@) == sort_paths_spec(str_refs_view(paths@.subrange(0, i as int))),
        decreases paths.len() - i,
    {
        let x = paths[i];
        let j = insertion_index(&r, x);
        let ghost r0 = r@;
        r.insert(j, x);
        proof {
            lemma_insert_sorted_finds(x@, str_refs_view(r0), j as int);
            assert(str_refs_view(r@) =~= str_refs_view(r0).subrange(0, j as int) + seq![x@]
                + str_refs_view(r0).subrange(j as int, r0.len() as int));
            let prefix = str_refs_view(paths@.subrange(0, i as int));
            let prefix1 = str_refs_view(paths@.subrange(0, i + 1));
            assert(prefix1.drop_last() =~= prefix);
            assert(prefix1.last() == x@);
        }
        i += 1;
    }
    proof {
        assert(paths@.subrange(0, paths@.len() as int) =~= paths@);
    }
    r
}

#[verifier::loop_isolation(false)]
pub(crate) fn find_key(pairs: &Vec<(String, Json)>, key: &String) -> (r: Option<usize>)
    ensures
        (match r {
            Some(j) => key_index(pairs_view(pairs@), key@) == j as int,
            None => key_index(pairs_view(pairs@), key@) == -1,
        }),
{
    let ghost vpairs = pairs_view(pairs@);
    let mut j: usize = 0;
    while j < pairs.len()
        invariant
            j <= pairs@.len(),
            forall|k: int| 0 <= k < j ==> (#[trigger] vpairs[k]).0 != key@,
        decreases pairs@.len() - j,
    {
        if pairs[j].0 == *key {
            proof {
                lemma_key_index(vpairs, key@);
                assert(vpairs[j as int].0 == key@);
            }
            return Some(j);
        }
        proof {
            assert(vpairs[j as int] == (pairs@[j as int].0@, pairs@[j as int].1@));
        }
        j += 1;
    }
    proof {
        lemma_key_index(vpairs, key@);
    }
    None
}

#[verifier::loop_isolation(false)]
fn edit_val(v: Json, segs: &Vec<String>, si: usize) -> (r: Option<Json>)
    requires
        si <= segs@.len(),
    ensures
        (match r {
            Some(j) => edit_spec(v@, strs_view(segs@).subrange(si as int, segs@.len() as int))
                == Some(j@) && (v@.wf() ==> j@.wf()),
            None => true,
        }),
        v@.wf() ==> (r is Some <==> edit_spec(
            v@,
            strs_view(segs@).subrange(si as int, segs@.len() as int),
        ) is Some),
    decreases segs@.len() - si,
{
    let ghost suffix = strs_view(segs@).subrange(si as int, segs@.len() as int);
    if si == segs.len() {
        proof {
            assert(suffix =~= Seq::<Seq<char>>::empty());
        }
        return Some(v);
    }
    proof {
        assert(suffix[0] == segs@[si as int]@);
    }
    match v {
        Json::Obj(mut pairs) => {
            let ghost vpairs = pairs_view(pairs@);
            proof {
                assert(v@ == JsonV::Obj(vpairs));
            }
            let key = &segs[si];
            match find_key(&pairs, key) {
                None => None,
                Some(j) => {
                    proof {
                        lemma_key_index(vpairs, key@);
                        if v@.wf() {
                            assert(vpairs[j as int].1.wf());
                        }
                    }
                    if si + 1 == segs.len() {
                        let (k, x) = pairs.remove(j);
                        proof {
                            assert(x@ == vpairs[j as int].1);
                            assert(k@ == vpairs[j as int].0);
                        }
                        match to_json_text(&x) {
                            Some(txt) => {
                                let ghost mid = pairs@;
                                pairs.insert(j, (k, Json::Str(txt)));
                                proof {
                                    let target = vpairs.update(
                                        j as int,
                                        (vpairs[j as int].0, JsonV::Str(json_text(x@))),
                                    );
                                    assert forall|i: int|
                                        0 <= i < pairs@.len() implies #[trigger] pairs_view(
                                        pairs@,
                                    )[i] == target[i] by {
                                        if i < j {
                                            assert(pairs@[i] == mid[i]);
                                        } else if i > j {
                                            assert(pairs@[i] == mid[i - 1]);
                                        }
                                    }
                                    assert(pairs_view(pairs@) =~= target);
                                    assert(suffix.len() == 1);
                                    assert(key_index(vpairs, suffix[0]) == j as int);
                                    assert(edit_spec(v@, suffix) == Some(JsonV::Obj(target)));
                                    if v@.wf() {
                                        assert forall|a: int, b: int|
                                            0 <= a < b < target.len() implies target[a].0
                                            != target[b].0 by {
                                            assert(vpairs[a].0 != vpairs[b].0);
                                        }
                                        assert forall|a: int|
                                            0 <= a < target.len() implies (#[trigger] target[a]).1.wf() by {
                                            assert(vpairs[a].1.wf());
                                        }
                                        assert(JsonV::Obj(target).wf());
                                    }
                                }
                                Some(Json::Obj(pairs))
                            },
                            None => None,
                        }
                    } else {
                        let (k, x) = pairs.remove(j);
                        proof {
                            assert(x@ == vpairs[j as int].1);
                            assert(k@ == vpairs[j as int].0);
                            assert(suffix.subrange(1, suffix.len() as int) =~= strs_view(
                                segs@,
                            ).subrange(si + 1, segs@.len() as int));
                        }
                        match edit_val(x, segs, si + 1) {
                            Some(w) => {
                                let ghost mid = pairs@;
                                let ghost wv = w@;
                                pairs.insert(j, (k, w));
                                proof {
                                    let target = vpairs.update(
                                        j as int,
                                        (vpairs[j as int].0, wv),
                                    );
                                    assert forall|i: int|
                                        0 <= i < pairs@.len() implies #[trigger] pairs_view(
                                        pairs@,
                                    )[i] == target[i] by {
                                        if i < j {
                                            assert(pairs@[i] == mid[i]);
                                        } else if i > j {
                                            assert(pairs@[i] == mid[i - 1]);
                                        }
                                    }
                                    assert(pairs_view(pairs@) =~= target);
                                    assert(suffix.len() >= 2);
                                    assert(key_index(vpairs, suffix[0]) == j as int);
                                    assert(edit_spec(vpairs[j as int].1, suffix.subrange(1, suffix.len() as int)) == Some(wv));
                                    assert(edit_spec(v@, suffix) == Some(JsonV::Obj(target)));
                                    if v@.wf() {
                                        assert(vpairs[j as int].1.wf());
                                        assert forall|a: int, b: int|
                                            0 <= a < b < target.len() implies target[a].0
                                            != target[b].0 by {
                                            assert(vpairs[a].0 != vpairs[b].0);
                                        }
                                        assert forall|a: int|
                                            0 <= a < target.len() implies (#[trigger] target[a]).1.wf() by {
                                            assert(vpairs[a].1.wf());
                                        }
                                        assert(JsonV::Obj(target).wf());
                                    }
                                }
                                Some(Json::Obj(pairs))
                            },
                            None => None,
                        }
                    }
                },
            }
        },
        _ => None,
    }
}

/// Fold the subtrees at the given dotted key paths back into their compact
/// text form, deepest paths first, and return the compact text of the whole.
///
/// The text denotes the edited value: when the input is well-formed, nests
/// fewer than 128 containers deep and avoids the parser's reserved number
/// key, parsing the returned text gives the edited value back (edits only
/// flatten subtrees, so they keep all three bounds).
#[verifier::loop_isolation(false)]
pub fn stringify<'a>(val: Json, paths: Option<Vec<&'a str>>) -> (r: Result<String, Error>)
    ensures
        (match r {
            Ok(s) => (match apply_paths(
                val@,
                sort_paths_spec(
                    match paths {
                        Some(ps) => str_refs_view(ps@),
                        None => Seq::empty(),
                    },
                ),
            ) {
                Ok(w) => val@.wf() && val@.depth() < 128 && no_reserved_keys(val@)
                    ==> json_parse(s@) == ParseOutcomeV::Parsed(w),
                Err(_) => true,
            }),
            Err(_) => true,
        }),
        (match r {
            Ok(s) => (match apply_paths(
                val@,
                sort_paths_spec(
                    match paths {
                        Some(ps) => str_refs_view(ps@),
                        None => Seq::empty(),
                    },
                ),
            ) {
                Ok(w) => s@ == json_text(w),
                Err(_) => false,
            }),
            Err(e) => e@ is Stringify,
        }),
        val@.wf() ==> (match stringify_spec(
            val@,
            match paths {
                Some(ps) => str_refs_view(ps@),
                None => Seq::empty(),
            },
        ) {
            Ok(t) => r matches Ok(s) && s@ == t,
            Err(p) => r matches Err(e) && e@ == ErrorV::Stringify(p),
        }),
{
    let ps: Vec<&'a str> = match paths {
        Some(p) => p,
        None => Vec::new(),
    };
    proof {
        if (ps@.len() == 0) {
            assert(str_refs_view(ps@) =~= Seq::<Seq<char>>::empty());
        }
    }
    let sorted = sort_by_period_count(ps);
    let ghost sortedv = str_refs_view(sorted@);
    let mut buf = val;
    let mut i: usize = 0;
    proof {
        assert(sortedv.subrange(0, sortedv.len() as int) =~= sortedv);
    }
    while i < sorted.len()
        invariant
            i <= sorted@.len(),
            sortedv == str_refs_view(sorted@),
            apply_paths(val@, sortedv) == apply_paths(
                buf@,
                sortedv.subrange(i as int, sortedv.len() as int),
            ),
            val@.wf() ==> buf@.wf(),
            buf@.depth() <= val@.depth(),
            no_reserved_keys(val@) ==> no_reserved_keys(buf@),
        decreases sorted@.len() - i,
    {
        let ghost rest = sortedv.subrange(i as int, sortedv.len() as int);
        proof {
            assert(rest[0] == sortedv[i as int]);
            assert(rest.subrange(1, rest.len() as int) =~= sortedv.subrange(
                i + 1,
                sortedv.len() as int,
            ));
        }
        let segs = split_dots_exec(sorted[i]);
        proof {
            assert(strs_view(segs@).subrange(0, segs@.len() as int) =~= strs_view(segs@));
        }
        let ghost buf0 = buf@;
        match edit_val(buf, &segs, 0) {
            Some(w) => {
                proof {
                    lemma_edit_bounds(buf0, strs_view(segs@).subrange(0, segs@.len() as int));
                }
                buf = w;
            },
            None => {
                proof {
                    assert(sortedv[i as int] == sorted@[i as int]@);
                }
                return Err(Error::JSONStringify(sorted[i].to_owned()));
            },
        }
        i += 1;
    }
    proof {
        assert(sortedv.subrange(sortedv.len() as int, sortedv.len() as int) =~= Seq::<
            Seq<char>,
        >::empty());
    }
    match to_json_text(&buf) {
        Some(s) => Ok(s),
        None => Err(Error::JSONStringify(String::from_str("unencodable number"))),
    }
}

/// The whole value rendered with indentation, for a reader.
pub fn stringify_pretty(val: &Json) -> (r: Result<String, Error>)
    ensures
        (match r {
            Ok(s) => s@ == json_text_pretty(val@),
            Err(e) => e@ is Stringify,
        }),
        val@.wf() ==> r is Ok,
{
    match to_json_text_pretty(val) {
        Some(s) => Ok(s),
        None => Err(Error::JSONStringify(String::from_str("unencodable number"))),
    }
}

} // verus!
