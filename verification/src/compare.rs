use vstd::prelude::*;

use crate::error::{Error, ErrorV};
use crate::json::{elems_view, pairs_view, Json, JsonV};
use crate::parse::{parse, parse_spec};
use crate::stringify::{find_key, key_index, lemma_key_index};

verus! {

broadcast use crate::json::group_json_view;

// ---------------------------------------------------------------------------
// The structural diff: two values walked in parallel, depth first, keys in
// the order the objects hold them, indices ascending; every difference is
// reported at the path where it sits.
// ---------------------------------------------------------------------------

/// One step of a path into a value: an object key or an array index.
#[derive(Debug, Clone)]
pub enum PathSeg {
    Key(String),
    Index(usize),
}

/// The model of a [`PathSeg`].
pub enum PathSegV {
    Key(Seq<char>),
    Index(nat),
}

impl View for PathSeg {
    type V = PathSegV;

    open spec fn view(&self) -> PathSegV {
        match self {
            PathSeg::Key(k) => PathSegV::Key(k@),
            PathSeg::Index(i) => PathSegV::Index(*i as nat),
        }
    }
}

/// What one difference is.
#[derive(Debug, Clone, Copy, PartialEq, Eq, Structural)]
pub enum DiffKind {
    Added,
    Removed,
    Changed,
    TypeChanged,
}

/// One structural difference, at the path where it was found. `old_value`
/// is absent exactly for an addition, `new_value` exactly for a removal.
#[derive(Debug, Clone)]
pub struct DiffEntry {
    pub path: Vec<PathSeg>,
    pub kind: DiffKind,
    pub old_value: Option<Json>,
    pub new_value: Option<Json>,
}

/// The model of a [`DiffEntry`].
pub struct DiffEntryV {
    pub path: Seq<PathSegV>,
    pub kind: DiffKind,
    pub old_value: Option<JsonV>,
    pub new_value: Option<JsonV>,
}

pub open spec fn opt_view(v: Option<Json>) -> Option<JsonV> {
    match v {
        Some(j) => Some(j@),
        None => None,
    }
}

impl View for DiffEntry {
    type V = DiffEntryV;

    open spec fn view(&self) -> DiffEntryV {
        DiffEntryV {
            path: segs_view(self.path@),
            kind: self.kind,
            old_value: opt_view(self.old_value),
            new_value: opt_view(self.new_value),
        }
    }
}

/// The models of a sequence of path segments.
pub open spec fn segs_view(s: Seq<PathSeg>) -> Seq<PathSegV> {
    Seq::new(
        s.len(),
        |i: int|
            if 0 <= i < s.len() {
                s[i]@
            } else {
                PathSegV::Index(0)
            },
    )
}

/// The models of a sequence of diff entries.
pub open spec fn entries_view(s: Seq<DiffEntry>) -> Seq<DiffEntryV> {
    Seq::new(
        s.len(),
        |i: int|
            if 0 <= i < s.len() {
                s[i]@
            } else {
                DiffEntryV {
                    path: Seq::empty(),
                    kind: DiffKind::Changed,
                    old_value: None,
                    new_value: None,
                }
            },
    )
}

pub broadcast proof fn lemma_segs_view_len(s: Seq<PathSeg>)
    ensures
        (#[trigger] segs_view(s)).len() == s.len(),
{
}

pub broadcast proof fn lemma_segs_view_index(s: Seq<PathSeg>, i: int)
    requires
        0 <= i < s.len(),
    ensures
        #[trigger] segs_view(s)[i] == s[i]@,
{
}

pub broadcast proof fn lemma_entries_view_len(s: Seq<DiffEntry>)
    ensures
        (#[trigger] entries_view(s)).len() == s.len(),
{
}

pub broadcast proof fn lemma_entries_view_index(s: Seq<DiffEntry>, i: int)
    requires
        0 <= i < s.len(),
    ensures
        #[trigger] entries_view(s)[i] == s[i]@,
{
}

pub broadcast group group_diff_view {
    lemma_segs_view_len,
    lemma_segs_view_index,
    lemma_entries_view_len,
    lemma_entries_view_index,
}

pub open spec fn added_at(path: Seq<PathSegV>, v: JsonV) -> DiffEntryV {
    DiffEntryV { path, kind: DiffKind::Added, old_value: None, new_value: Some(v) }
}

pub open spec fn removed_at(path: Seq<PathSegV>, v: JsonV) -> DiffEntryV {
    DiffEntryV { path, kind: DiffKind::Removed, old_value: Some(v), new_value: None }
}

pub open spec fn changed_at(path: Seq<PathSegV>, o: JsonV, n: JsonV) -> DiffEntryV {
    DiffEntryV { path, kind: DiffKind::Changed, old_value: Some(o), new_value: Some(n) }
}

pub open spec fn type_changed_at(path: Seq<PathSegV>, o: JsonV, n: JsonV) -> DiffEntryV {
    DiffEntryV { path, kind: DiffKind::TypeChanged, old_value: Some(o), new_value: Some(n) }
}

/// `Added` entries for every trailing new element, indices ascending.
pub open spec fn added_elems(elems: Seq<JsonV>, path: Seq<PathSegV>, idx: nat) -> Seq<DiffEntryV>
    decreases elems.len(),
{
    if elems.len() == 0 {
        Seq::empty()
    } else {
        seq![added_at(path.push(PathSegV::Index(idx)), elems[0])] + added_elems(
            elems.subrange(1, elems.len() as int),
            path,
            idx + 1,
        )
    }
}

/// `Removed` entries for every trailing old element, indices ascending.
pub open spec fn removed_elems(elems: Seq<JsonV>, path: Seq<PathSegV>, idx: nat) -> Seq<
    DiffEntryV,
>
    decreases elems.len(),
{
    if elems.len() == 0 {
        Seq::empty()
    } else {
        seq![removed_at(path.push(PathSegV::Index(idx)), elems[0])] + removed_elems(
            elems.subrange(1, elems.len() as int),
            path,
            idx + 1,
        )
    }
}

/// `Added` entries for every new key absent from the old object, in the new
/// object's order.
pub open spec fn added_keys(
    po: Seq<(Seq<char>, JsonV)>,
    pn: Seq<(Seq<char>, JsonV)>,
    path: Seq<PathSegV>,
) -> Seq<DiffEntryV>
    decreases pn.len(),
{
    if pn.len() == 0 {
        Seq::empty()
    } else {
        let rest = added_keys(po, pn.subrange(1, pn.len() as int), path);
        if key_index(po, pn[0].0) == -1 {
            seq![added_at(path.push(PathSegV::Key(pn[0].0)), pn[0].1)] + rest
        } else {
            rest
        }
    }
}

/// The ordered differences between two values below a common path.
pub open spec fn diff_spec(o: JsonV, n: JsonV, path: Seq<PathSegV>) -> Seq<DiffEntryV>
    decreases o, n,
{
    match (o, n) {
        (JsonV::Null, JsonV::Null) => Seq::empty(),
        (JsonV::Bool(a), JsonV::Bool(b)) => if a == b {
            Seq::empty()
        } else {
            seq![changed_at(path, o, n)]
        },
        (JsonV::Num(a), JsonV::Num(b)) => if a == b {
            Seq::empty()
        } else {
            seq![changed_at(path, o, n)]
        },
        (JsonV::Str(a), JsonV::Str(b)) => if a == b {
            Seq::empty()
        } else {
            seq![changed_at(path, o, n)]
        },
        (JsonV::Arr(ao), JsonV::Arr(an)) => diff_arr(ao, an, path, 0),
        (JsonV::Obj(po), JsonV::Obj(pn)) => diff_obj_old(po, pn, path) + added_keys(
            po,
            pn,
            path,
        ),
        _ => seq![type_changed_at(path, o, n)],
    }
}

/// Element-wise differences up to the shorter array, then the longer one's
/// tail as additions or removals.
pub open spec fn diff_arr(ao: Seq<JsonV>, an: Seq<JsonV>, path: Seq<PathSegV>, idx: nat) -> Seq<
    DiffEntryV,
>
    decreases ao, an,
{
    if ao.len() == 0 {
        added_elems(an, path, idx)
    } else if an.len() == 0 {
        removed_elems(ao, path, idx)
    } else {
        diff_spec(ao[0], an[0], path.push(PathSegV::Index(idx))) + diff_arr(
            ao.subrange(1, ao.len() as int),
            an.subrange(1, an.len() as int),
            path,
            idx + 1,
        )
    }
}

/// The old object's keys in order: a key gone from the new object is a
/// removal; a key present in both is compared recursively.
pub open spec fn diff_obj_old(
    po: Seq<(Seq<char>, JsonV)>,
    pn: Seq<(Seq<char>, JsonV)>,
    path: Seq<PathSegV>,
) -> Seq<DiffEntryV>
    decreases po, pn,
{
    if po.len() == 0 {
        Seq::empty()
    } else {
        let here = {
            let j = key_index(pn, po[0].0);
            if j == -1 {
                seq![removed_at(path.push(PathSegV::Key(po[0].0)), po[0].1)]
            } else {
                diff_spec(po[0].1, pn[j].1, path.push(PathSegV::Key(po[0].0)))
            }
        };
        here + diff_obj_old(po.subrange(1, po.len() as int), pn, path)
    }
}

/// Comparing a well-formed value against itself reports no difference, at
/// any path. (Well-formedness matters: with a key held twice, both
/// occurrences would be compared against the first.)
pub proof fn lemma_diff_self_empty(v: JsonV, path: Seq<PathSegV>)
    requires
        v.wf(),
    ensures
        diff_spec(v, v, path) == Seq::<DiffEntryV>::empty(),
    decreases v, 0int,
{
    match v {
        JsonV::Arr(elems) => {
            lemma_diff_arr_self(elems, path, 0);
        },
        JsonV::Obj(pairs) => {
            lemma_diff_obj_old_self(pairs, 0, path);
            lemma_added_keys_self(pairs, 0, path);
            assert(pairs.subrange(0, pairs.len() as int) =~= pairs);
            assert(Seq::<DiffEntryV>::empty() + Seq::<DiffEntryV>::empty() =~= Seq::<
                DiffEntryV,
            >::empty());
        },
        _ => {},
    }
}

proof fn lemma_diff_arr_self(elems: Seq<JsonV>, path: Seq<PathSegV>, idx: nat)
    requires
        forall|i: int| 0 <= i < elems.len() ==> (#[trigger] elems[i]).wf(),
    ensures
        diff_arr(elems, elems, path, idx) == Seq::<DiffEntryV>::empty(),
    decreases elems, 0int,
{
    if elems.len() > 0 {
        let rest = elems.subrange(1, elems.len() as int);
        lemma_diff_self_empty(elems[0], path.push(PathSegV::Index(idx)));
        assert forall|i: int| 0 <= i < rest.len() implies (#[trigger] rest[i]).wf() by {
            assert(rest[i] == elems[i + 1]);
        }
        lemma_diff_arr_self(rest, path, idx + 1);
        assert(Seq::<DiffEntryV>::empty() + Seq::<DiffEntryV>::empty() =~= Seq::<
            DiffEntryV,
        >::empty());
    }
}

/// In an object with unique keys, each key's first occurrence is itself.
proof fn lemma_key_index_self(pairs: Seq<(Seq<char>, JsonV)>, k: int)
    requires
        0 <= k < pairs.len(),
        forall|i: int, j: int| 0 <= i < j < pairs.len() ==> pairs[i].0 != pairs[j].0,
    ensures
        key_index(pairs, pairs[k].0) == k,
{
    lemma_key_index(pairs, pairs[k].0);
}

proof fn lemma_diff_obj_old_self(pairs: Seq<(Seq<char>, JsonV)>, k: int, path: Seq<PathSegV>)
    requires
        0 <= k <= pairs.len(),
        forall|i: int| 0 <= i < pairs.len() ==> (#[trigger] pairs[i].1).wf(),
        forall|i: int, j: int| 0 <= i < j < pairs.len() ==> pairs[i].0 != pairs[j].0,
    ensures
        diff_obj_old(pairs.subrange(k, pairs.len() as int), pairs, path) == Seq::<
            DiffEntryV,
        >::empty(),
    decreases pairs, pairs.len() - k,
{
    let suffix = pairs.subrange(k, pairs.len() as int);
    if suffix.len() > 0 {
        assert(suffix[0] == pairs[k]);
        lemma_key_index_self(pairs, k);
        lemma_diff_self_empty(pairs[k].1, path.push(PathSegV::Key(pairs[k].0)));
        assert(suffix.subrange(1, suffix.len() as int) =~= pairs.subrange(
            k + 1,
            pairs.len() as int,
        ));
        lemma_diff_obj_old_self(pairs, k + 1, path);
        assert(Seq::<DiffEntryV>::empty() + Seq::<DiffEntryV>::empty() =~= Seq::<
            DiffEntryV,
        >::empty());
    }
}

proof fn lemma_added_keys_self(pairs: Seq<(Seq<char>, JsonV)>, k: int, path: Seq<PathSegV>)
    requires
        0 <= k <= pairs.len(),
    ensures
        added_keys(pairs, pairs.subrange(k, pairs.len() as int), path) == Seq::<
            DiffEntryV,
        >::empty(),
    decreases pairs.len() - k,
{
    let suffix = pairs.subrange(k, pairs.len() as int);
    if suffix.len() > 0 {
        assert(suffix[0] == pairs[k]);
        lemma_key_index(pairs, pairs[k].0);
        assert(suffix.subrange(1, suffix.len() as int) =~= pairs.subrange(
            k + 1,
            pairs.len() as int,
        ));
        lemma_added_keys_self(pairs, k + 1, path);
    }
}

fn clone_seg(seg: &PathSeg) -> (r: PathSeg)
    ensures
        r@ == seg@,
{
    match seg {
        PathSeg::Key(k) => PathSeg::Key(k.clone()),
        PathSeg::Index(i) => PathSeg::Index(*i),
    }
}

#[verifier::loop_isolation(false)]
fn clone_path(path: &Vec<PathSeg>) -> (r: Vec<PathSeg>)
    ensures
        segs_view(r@) == segs_view(path@),
{
    broadcast use group_diff_view;

    let mut r: Vec<PathSeg> = Vec::new();
    let mut i: usize = 0;
    while i < path.len()
        invariant
            i <= path@.len(),
            r@.len() == i,
            forall|k: int| 0 <= k < i ==> (#[trigger] r@[k])@ == path@[k]@,
        decreases path@.len() - i,
    {
        let s = clone_seg(&path[i]);
        r.push(s);
        i += 1;
    }
    proof {
        assert(segs_view(r@) =~= segs_view(path@));
    }
    r
}

#[verifier::loop_isolation(false)]
fn push_seg(path: &Vec<PathSeg>, seg: PathSeg) -> (r: Vec<PathSeg>)
    ensures
        segs_view(r@) == segs_view(path@).push(seg@),
{
    broadcast use group_diff_view;

    let ghost segv = seg@;
    let mut r = clone_path(path);
    let ghost r0 = r@;
    r.push(seg);
    proof {
        assert(segs_view(r@) =~= segs_view(r0).push(segv));
    }
    r
}

#[verifier::loop_isolation(false)]
#[verifier::rlimit(80)]
fn diff_values(o: &Json, n: &Json, path: &Vec<PathSeg>) -> (r: Vec<DiffEntry>)
    ensures
        entries_view(r@) == diff_spec(o@, n@, segs_view(path@)),
    decreases o, n,
{
    broadcast use group_diff_view;

    let ghost vpath = segs_view(path@);
    match (o, n) {
        (Json::Null, Json::Null) => {
            let r: Vec<DiffEntry> = Vec::new();
            proof {
                assert(entries_view(r@) =~= Seq::<DiffEntryV>::empty());
            }
            r
        },
        (Json::Bool(a), Json::Bool(b)) => {
            if *a == *b {
                let r: Vec<DiffEntry> = Vec::new();
                proof {
                    assert(entries_view(r@) =~= Seq::<DiffEntryV>::empty());
                }
                r
            } else {
                let mut r: Vec<DiffEntry> = Vec::new();
                let e = DiffEntry {
                    path: clone_path(path),
                    kind: DiffKind::Changed,
                    old_value: Some(o.clone()),
                    new_value: Some(n.clone()),
                };
                r.push(e);
                proof {
                    assert(entries_view(r@) =~= seq![changed_at(vpath, o@, n@)]);
                }
                r
            }
        },
        (Json::Num(a), Json::Num(b)) => {
            if *a == *b {
                let r: Vec<DiffEntry> = Vec::new();
                proof {
                    assert(entries_view(r@) =~= Seq::<DiffEntryV>::empty());
                }
                r
            } else {
                let mut r: Vec<DiffEntry> = Vec::new();
                let e = DiffEntry {
                    path: clone_path(path),
                    kind: DiffKind::Changed,
                    old_value: Some(o.clone()),
                    new_value: Some(n.clone()),
                };
                r.push(e);
                proof {
                    assert(entries_view(r@) =~= seq![changed_at(vpath, o@, n@)]);
                }
                r
            }
        },
        (Json::Str(a), Json::Str(b)) => {
            if *a == *b {
                let r: Vec<DiffEntry> = Vec::new();
                proof {
                    assert(entries_view(r@) =~= Seq::<DiffEntryV>::empty());
                }
                r
            } else {
                let mut r: Vec<DiffEntry> = Vec::new();
                let e = DiffEntry {
                    path: clone_path(path),
                    kind: DiffKind::Changed,
                    old_value: Some(o.clone()),
                    new_value: Some(n.clone()),
                };
                r.push(e);
                proof {
                    assert(entries_view(r@) =~= seq![changed_at(vpath, o@, n@)]);
                }
                r
            }
        },
        (Json::Arr(ao), Json::Arr(an)) => {
            let ghost vao = elems_view(ao@);
            let ghost van = elems_view(an@);
            let mut out: Vec<DiffEntry> = Vec::new();
            let mut i: usize = 0;
            proof {
                assert(vao.subrange(0, vao.len() as int) =~= vao);
                assert(van.subrange(0, van.len() as int) =~= van);
                assert(entries_view(out@) =~= Seq::<DiffEntryV>::empty());
            }
            while i < ao.len() && i < an.len()
                invariant
                    i <= ao@.len(),
                    i <= an@.len(),
                    diff_arr(vao, van, vpath, 0) == entries_view(out@) + diff_arr(
                        vao.subrange(i as int, vao.len() as int),
                        van.subrange(i as int, van.len() as int),
                        vpath,
                        i as nat,
                    ),
                decreases ao@.len() - i,
            {
                let ghost resto = vao.subrange(i as int, vao.len() as int);
                let ghost restn = van.subrange(i as int, van.len() as int);
                proof {
                    assert(resto[0] == vao[i as int]);
                    assert(restn[0] == van[i as int]);
                    assert(resto.subrange(1, resto.len() as int) =~= vao.subrange(
                        i + 1,
                        vao.len() as int,
                    ));
                    assert(restn.subrange(1, restn.len() as int) =~= van.subrange(
                        i + 1,
                        van.len() as int,
                    ));
                    assert(decreases_to!(*o => o->Arr_0));
                    assert(decreases_to!(o->Arr_0 => o->Arr_0@));
                    assert(decreases_to!(o->Arr_0@ => o->Arr_0@[i as int]));
                }
                let p2 = push_seg(path, PathSeg::Index(i));
                let mut sub = diff_values(&ao[i], &an[i], &p2);
                let ghost out0 = out@;
                let ghost subv = entries_view(sub@);
                out.append(&mut sub);
                proof {
                    assert(entries_view(out@) =~= entries_view(out0) + subv);
                    assert((entries_view(out0) + subv) + diff_arr(
                        vao.subrange(i + 1, vao.len() as int),
                        van.subrange(i + 1, van.len() as int),
                        vpath,
                        (i + 1) as nat,
                    ) =~= entries_view(out0) + (subv + diff_arr(
                        vao.subrange(i + 1, vao.len() as int),
                        van.subrange(i + 1, van.len() as int),
                        vpath,
                        (i + 1) as nat,
                    )));
                }
                i += 1;
            }
            if i < ao.len() {
                proof {
                    assert(van.subrange(i as int, van.len() as int) =~= Seq::<JsonV>::empty());
                }
                while i < ao.len()
                    invariant
                        an@.len() <= i <= ao@.len(),
                        diff_arr(vao, van, vpath, 0) == entries_view(out@) + removed_elems(
                            vao.subrange(i as int, vao.len() as int),
                            vpath,
                            i as nat,
                        ),
                    decreases ao@.len() - i,
                {
                    let ghost resto = vao.subrange(i as int, vao.len() as int);
                    proof {
                        assert(resto[0] == vao[i as int]);
                        assert(resto.subrange(1, resto.len() as int) =~= vao.subrange(
                            i + 1,
                            vao.len() as int,
                        ));
                    }
                    let e = DiffEntry {
                        path: push_seg(path, PathSeg::Index(i)),
                        kind: DiffKind::Removed,
                        old_value: Some(ao[i].clone()),
                        new_value: None,
                    };
                    let ghost out0 = out@;
                    out.push(e);
                    proof {
                        let here = removed_at(vpath.push(PathSegV::Index(i as nat)), vao[i as int]);
                        assert(entries_view(out@) =~= entries_view(out0).push(here));
                        assert(entries_view(out0).push(here) + removed_elems(
                            vao.subrange(i + 1, vao.len() as int),
                            vpath,
                            (i + 1) as nat,
                        ) =~= entries_view(out0) + (seq![here] + removed_elems(
                            vao.subrange(i + 1, vao.len() as int),
                            vpath,
                            (i + 1) as nat,
                        )));
                    }
                    i += 1;
                }
                proof {
                    assert(vao.subrange(vao.len() as int, vao.len() as int) =~= Seq::<
                        JsonV,
                    >::empty());
                    assert(entries_view(out@) + Seq::<DiffEntryV>::empty() =~= entries_view(out@));
                }
            } else {
                proof {
                    assert(vao.subrange(i as int, vao.len() as int) =~= Seq::<JsonV>::empty());
                }
                let mut j: usize = i;
                while j < an.len()
                    invariant
                        i <= j <= an@.len(),
                        diff_arr(vao, van, vpath, 0) == entries_view(out@) + added_elems(
                            van.subrange(j as int, van.len() as int),
                            vpath,
                            j as nat,
                        ),
                    decreases an@.len() - j,
                {
                    let ghost restn = van.subrange(j as int, van.len() as int);
                    proof {
                        assert(restn[0] == van[j as int]);
                        assert(restn.subrange(1, restn.len() as int) =~= van.subrange(
                            j + 1,
                            van.len() as int,
                        ));
                    }
                    let e = DiffEntry {
                        path: push_seg(path, PathSeg::Index(j)),
                        kind: DiffKind::Added,
                        old_value: None,
                        new_value: Some(an[j].clone()),
                    };
                    let ghost out0 = out@;
                    out.push(e);
                    proof {
                        let here = added_at(vpath.push(PathSegV::Index(j as nat)), van[j as int]);
                        assert(entries_view(out@) =~= entries_view(out0).push(here));
                        assert(entries_view(out0).push(here) + added_elems(
                            van.subrange(j + 1, van.len() as int),
                            vpath,
                            (j + 1) as nat,
                        ) =~= entries_view(out0) + (seq![here] + added_elems(
                            van.subrange(j + 1, van.len() as int),
                            vpath,
                            (j + 1) as nat,
                        )));
                    }
                    j += 1;
                }
                proof {
                    assert(van.subrange(van.len() as int, van.len() as int) =~= Seq::<
                        JsonV,
                    >::empty());
                    assert(entries_view(out@) + Seq::<DiffEntryV>::empty() =~= entries_view(out@));
                }
            }
            out
        },
        (Json::Obj(po), Json::Obj(pn)) => {
            let ghost vpo = pairs_view(po@);
            let ghost vpn = pairs_view(pn@);
            let mut out: Vec<DiffEntry> = Vec::new();
            let mut i: usize = 0;
            proof {
                assert(vpo.subrange(0, vpo.len() as int) =~= vpo);
                assert(vpn.subrange(0, vpn.len() as int) =~= vpn);
                assert(entries_view(out@) =~= Seq::<DiffEntryV>::empty());
            }
            while i < po.len()
                invariant
                    i <= po@.len(),
                    diff_obj_old(vpo, vpn, vpath) == entries_view(out@) + diff_obj_old(
                        vpo.subrange(i as int, vpo.len() as int),
                        vpn,
                        vpath,
                    ),
                decreases po@.len() - i,
            {
                let ghost resto = vpo.subrange(i as int, vpo.len() as int);
                proof {
                    assert(resto[0] == vpo[i as int]);
                    assert(resto.subrange(1, resto.len() as int) =~= vpo.subrange(
                        i + 1,
                        vpo.len() as int,
                    ));
                    assert(decreases_to!(*o => o->Obj_0));
                    assert(decreases_to!(o->Obj_0 => o->Obj_0@));
                    assert(decreases_to!(o->Obj_0@ => o->Obj_0@[i as int]));
                    assert(decreases_to!(o->Obj_0@[i as int] => o->Obj_0@[i as int].1));
                }
                let pair = &po[i];
                let ghost out0 = out@;
                match find_key(pn, &pair.0) {
                    None => {
                        let e = DiffEntry {
                            path: push_seg(path, PathSeg::Key(pair.0.clone())),
                            kind: DiffKind::Removed,
                            old_value: Some(pair.1.clone()),
                            new_value: None,
                        };
                        out.push(e);
                        proof {
                            let here = removed_at(
                                vpath.push(PathSegV::Key(vpo[i as int].0)),
                                vpo[i as int].1,
                            );
                            assert(entries_view(out@) =~= entries_view(out0).push(here));
                            assert(entries_view(out0).push(here) + diff_obj_old(
                                vpo.subrange(i + 1, vpo.len() as int),
                                vpn,
                                vpath,
                            ) =~= entries_view(out0) + (seq![here] + diff_obj_old(
                                vpo.subrange(i + 1, vpo.len() as int),
                                vpn,
                                vpath,
                            )));
                        }
                    },
                    Some(j) => {
                        proof {
                            lemma_key_index(vpn, vpo[i as int].0);
                        }
                        let p2 = push_seg(path, PathSeg::Key(pair.0.clone()));
                        let mut sub = diff_values(&pair.1, &pn[j].1, &p2);
                        let ghost subv = entries_view(sub@);
                        out.append(&mut sub);
                        proof {
                            assert(entries_view(out@) =~= entries_view(out0) + subv);
                            assert((entries_view(out0) + subv) + diff_obj_old(
                                vpo.subrange(i + 1, vpo.len() as int),
                                vpn,
                                vpath,
                            ) =~= entries_view(out0) + (subv + diff_obj_old(
                                vpo.subrange(i + 1, vpo.len() as int),
                                vpn,
                                vpath,
                            )));
                        }
                    },
                }
                i += 1;
            }
            proof {
                assert(vpo.subrange(vpo.len() as int, vpo.len() as int) =~= Seq::<
                    (Seq<char>, JsonV),
                >::empty());
            }
            let mut j: usize = 0;
            while j < pn.len()
                invariant
                    j <= pn@.len(),
                    diff_spec(o@, n@, vpath) == entries_view(out@) + added_keys(
                        vpo,
                        vpn.subrange(j as int, vpn.len() as int),
                        vpath,
                    ),
                decreases pn@.len() - j,
            {
                let ghost restn = vpn.subrange(j as int, vpn.len() as int);
                proof {
                    assert(restn[0] == vpn[j as int]);
                    assert(restn.subrange(1, restn.len() as int) =~= vpn.subrange(
                        j + 1,
                        vpn.len() as int,
                    ));
                }
                let pair = &pn[j];
                let ghost out0 = out@;
                match find_key(po, &pair.0) {
                    None => {
                        let e = DiffEntry {
                            path: push_seg(path, PathSeg::Key(pair.0.clone())),
                            kind: DiffKind::Added,
                            old_value: None,
                            new_value: Some(pair.1.clone()),
                        };
                        out.push(e);
                        proof {
                            let here = added_at(
                                vpath.push(PathSegV::Key(vpn[j as int].0)),
                                vpn[j as int].1,
                            );
                            assert(entries_view(out@) =~= entries_view(out0).push(here));
                            assert(entries_view(out0).push(here) + added_keys(
                                vpo,
                                vpn.subrange(j + 1, vpn.len() as int),
                                vpath,
                            ) =~= entries_view(out0) + (seq![here] + added_keys(
                                vpo,
                                vpn.subrange(j + 1, vpn.len() as int),
                                vpath,
                            )));
                        }
                    },
                    Some(_) => {},
                }
                j += 1;
            }
            proof {
                assert(vpn.subrange(vpn.len() as int, vpn.len() as int) =~= Seq::<
                    (Seq<char>, JsonV),
                >::empty());
                assert(entries_view(out@) + Seq::<DiffEntryV>::empty() =~= entries_view(out@));
            }
            out
        },
        _ => {
            let mut r: Vec<DiffEntry> = Vec::new();
            let e = DiffEntry {
                path: clone_path(path),
                kind: DiffKind::TypeChanged,
                old_value: Some(o.clone()),
                new_value: Some(n.clone()),
            };
            r.push(e);
            proof {
                assert(entries_view(r@) =~= seq![type_changed_at(vpath, o@, n@)]);
            }
            r
        },
    }
}

/// The ordered structural differences between two values, found by a
/// depth-first walk of both in parallel, keys in the objects' order, array
/// indices ascending.
pub fn diff(old: &Json, new: &Json) -> (r: Vec<DiffEntry>)
    ensures
        entries_view(r@) == diff_spec(old@, new@, Seq::empty()),
{
    broadcast use group_diff_view;

    let path: Vec<PathSeg> = Vec::new();
    let r = diff_values(old, new, &path);
    proof {
        assert(segs_view(path@) =~= Seq::<PathSegV>::empty());
    }
    r
}

/// Decode two raw texts and report the differences between the values they
/// spell; a text that does not decode is the first error, old before new.
pub fn compare(old_text: &str, new_text: &str) -> (r: Result<Vec<DiffEntry>, Error>)
    ensures
        (match parse_spec(old_text@) {
            Err(m) => r matches Err(e) && e@ == ErrorV::Parsing(m),
            Ok(ov) => (match parse_spec(new_text@) {
                Err(m) => r matches Err(e) && e@ == ErrorV::Parsing(m),
                Ok(nv) => r matches Ok(entries) && entries_view(entries@) == diff_spec(
                    ov,
                    nv,
                    Seq::empty(),
                ),
            }),
        }),
{
    let o = match parse(old_text.to_owned()) {
        Ok(v) => v,
        Err(e) => {
            return Err(e);
        },
    };
    let n = match parse(new_text.to_owned()) {
        Ok(v) => v,
        Err(e) => {
            return Err(e);
        },
    };
    Ok(diff(&o, &n))
}

} // verus!
