//! Properties of the parse that hold over all inputs.
use vstd::prelude::*;

use crate::obj::{
    accepts, corner, corners, kw_f, kw_usemtl, kw_v, kw_vt, parse, parsed_as, position_field, run,
    start, step, ObjData, ParseError, Scan,
};
use crate::text::{lines, parse_index, tokens};

verus! {

/// The 0-based vertex a face corner names.
pub open spec fn position_of(c: Seq<char>) -> int {
    match parse_index(position_field(c)) {
        Some(n) => n - 1,
        None => -1,
    }
}

/// The indices a face with corners `cs` emits.
pub open spec fn face_indices(cs: Seq<Seq<char>>) -> Seq<int> {
    cs.map_values(|c: Seq<char>| position_of(c))
}

/// The active group after a line with tokens `toks`, from the group `g`.
pub open spec fn next_group(g: Seq<char>, toks: Seq<Seq<char>>) -> Seq<char> {
    if toks.len() == 2 && toks[0] == kw_usemtl() {
        toks[1]
    } else {
        g
    }
}

/// Whether the line with tokens `toks` is a face emitted under `filter`
/// while `g` is active.
pub open spec fn emits(toks: Seq<Seq<char>>, g: Seq<char>, filter: Option<Seq<char>>) -> bool {
    toks.len() > 0 && toks[0] == kw_f() && accepts(filter, g)
}

/// The indices of the faces among `ls` emitted under `filter`, in document
/// order, starting with `g` active.
pub open spec fn selected(ls: Seq<Seq<char>>, g: Seq<char>, filter: Option<Seq<char>>) -> Seq<int>
    decreases ls.len(),
{
    if ls.len() == 0 {
        seq![]
    } else {
        let t = tokens(ls[0]);
        let here = if emits(t, g, filter) {
            face_indices(t.drop_first())
        } else {
            seq![]
        };
        here + selected(ls.drop_first(), next_group(g, t), filter)
    }
}

/// The number of corners of the faces among `ls` emitted under `filter`,
/// starting with `g` active.
pub open spec fn accepted_corners(ls: Seq<Seq<char>>, g: Seq<char>, filter: Option<Seq<char>>) -> nat
    decreases ls.len(),
{
    if ls.len() == 0 {
        0
    } else {
        let t = tokens(ls[0]);
        let here: nat = if emits(t, g, filter) {
            (t.len() - 1) as nat
        } else {
            0
        };
        here + accepted_corners(ls.drop_first(), next_group(g, t), filter)
    }
}

pub open spec fn in_range(st: Scan) -> bool {
    forall|i: int| 0 <= i < st.indices.len() ==> 0 <= #[trigger] st.indices[i] < st.vertices.len()
}

proof fn lemma_keywords_differ()
    ensures
        kw_usemtl() != kw_v(),
        kw_usemtl() != kw_vt(),
        kw_f() != kw_usemtl(),
        kw_f() != kw_v(),
        kw_f() != kw_vt(),
{
    assert(kw_f()[0] != kw_v()[0]);
}

proof fn lemma_corners(st: Scan, cs: Seq<Seq<char>>)
    requires
        corners(st, cs) is Ok,
    ensures
        corners(st, cs)->Ok_0.indices == st.indices + face_indices(cs),
        corners(st, cs)->Ok_0.vertices.len() == st.vertices.len(),
        corners(st, cs)->Ok_0.group == st.group,
        in_range(st) ==> in_range(corners(st, cs)->Ok_0),
    decreases cs.len(),
{
    if cs.len() == 0 {
        assert(st.indices + face_indices(cs) =~= st.indices);
    } else {
        let m = corner(st, cs[0])->Ok_0;
        lemma_corners(m, cs.drop_first());
        assert(face_indices(cs) =~= seq![position_of(cs[0])] + face_indices(cs.drop_first()));
        assert(st.indices + face_indices(cs) =~= m.indices + face_indices(cs.drop_first()));
        if in_range(st) {
            assert forall|i: int| 0 <= i < m.indices.len() implies 0 <= #[trigger] m.indices[i]
                < m.vertices.len() by {
                if i < st.indices.len() {
                    assert(m.indices[i] == st.indices[i]);
                }
            }
        }
    }
}

proof fn lemma_step(st: Scan, toks: Seq<Seq<char>>, filter: Option<Seq<char>>)
    requires
        step(st, toks, filter) is Ok,
    ensures
        step(st, toks, filter)->Ok_0.indices == st.indices + (if emits(toks, st.group, filter) {
            face_indices(toks.drop_first())
        } else {
            seq![]
        }),
        step(st, toks, filter)->Ok_0.group == next_group(st.group, toks),
        step(st, toks, filter)->Ok_0.vertices.len() >= st.vertices.len(),
        in_range(st) ==> in_range(step(st, toks, filter)->Ok_0),
{
    lemma_keywords_differ();
    let n = step(st, toks, filter)->Ok_0;
    if emits(toks, st.group, filter) {
        lemma_corners(st, toks.drop_first());
    } else {
        assert(st.indices + seq![] =~= st.indices);
        if toks.len() > 0 && toks[0] == kw_v() && in_range(st) {
            assert forall|i: int| 0 <= i < n.indices.len() implies 0 <= #[trigger] n.indices[i]
                < n.vertices.len() by {
                assert(n.indices[i] == st.indices[i]);
            }
        }
    }
}

proof fn lemma_run(ls: Seq<Seq<char>>, st: Scan, filter: Option<Seq<char>>)
    requires
        run(ls, st, filter) is Ok,
    ensures
        run(ls, st, filter)->Ok_0.indices == st.indices + selected(ls, st.group, filter),
        selected(ls, st.group, filter).len() == accepted_corners(ls, st.group, filter),
        in_range(st) ==> in_range(run(ls, st, filter)->Ok_0),
    decreases ls.len(),
{
    if ls.len() == 0 {
        assert(st.indices + selected(ls, st.group, filter) =~= st.indices);
    } else {
        let t = tokens(ls[0]);
        let n = step(st, t, filter)->Ok_0;
        lemma_step(st, t, filter);
        lemma_run(ls.drop_first(), n, filter);
        assert(st.indices + selected(ls, st.group, filter) =~= n.indices + selected(
            ls.drop_first(),
            n.group,
            filter,
        ));
    }
}

/// The lines `ls.take(k)` parse whenever `ls` does, and emit a prefix of
/// what `ls` emits.
proof fn lemma_run_prefix(ls: Seq<Seq<char>>, st: Scan, filter: Option<Seq<char>>, k: int)
    requires
        run(ls, st, filter) is Ok,
        0 <= k <= ls.len(),
    ensures
        run(ls.take(k), st, filter) is Ok,
        run(ls.take(k), st, filter)->Ok_0.indices.len() <= run(ls, st, filter)->Ok_0.indices.len(),
        run(ls, st, filter)->Ok_0.indices.take(
            run(ls.take(k), st, filter)->Ok_0.indices.len() as int,
        ) == run(ls.take(k), st, filter)->Ok_0.indices,
    decreases k,
{
    lemma_run(ls, st, filter);
    if k == 0 {
        assert(ls.take(0).len() == 0);
        assert((st.indices + selected(ls, st.group, filter)).take(st.indices.len() as int)
            =~= st.indices);
    } else {
        let n = step(st, tokens(ls[0]), filter)->Ok_0;
        lemma_run_prefix(ls.drop_first(), n, filter, k - 1);
        assert(ls.take(k)[0] == ls[0]);
        assert(ls.take(k).drop_first() =~= ls.drop_first().take(k - 1));
    }
}

/// Every index names a vertex declared before it was emitted: after the
/// first `k` lines of a text that parses, the indices emitted so far are the
/// start of the output's indices, and each is below the number of vertices
/// declared so far. With `k` the number of lines, this is the whole output.
pub proof fn lemma_indices_in_range(s: Seq<char>, filter: Option<Seq<char>>, k: int)
    requires
        parse(s, filter) is Ok,
        0 <= k <= lines(s).len(),
    ensures
        run(lines(s).take(k), start(), filter) is Ok,
        in_range(run(lines(s).take(k), start(), filter)->Ok_0),
        parse(s, filter)->Ok_0.indices.take(
            run(lines(s).take(k), start(), filter)->Ok_0.indices.len() as int,
        ) == run(lines(s).take(k), start(), filter)->Ok_0.indices,
        forall|i: int|
            0 <= i < parse(s, filter)->Ok_0.indices.len() ==> 0 <= #[trigger] parse(
                s,
                filter,
            )->Ok_0.indices[i] < parse(s, filter)->Ok_0.vertices.len(),
{
    lemma_run_prefix(lines(s), start(), filter, k);
    lemma_run(lines(s).take(k), start(), filter);
    lemma_run(lines(s), start(), filter);
}

/// The number of indices is the number of corners of the faces the filter
/// accepts.
pub proof fn lemma_index_count(s: Seq<char>, filter: Option<Seq<char>>)
    requires
        parse(s, filter) is Ok,
    ensures
        parse(s, filter)->Ok_0.indices.len() == accepted_corners(lines(s), seq![], filter),
{
    lemma_run(lines(s), start(), filter);
}

proof fn lemma_corners_ok(st: Scan, other: Scan, cs: Seq<Seq<char>>)
    requires
        corners(st, cs) is Ok,
        other.vertices.len() == st.vertices.len(),
    ensures
        corners(other, cs) is Ok,
        corners(other, cs)->Ok_0.vertices.len() == other.vertices.len(),
    decreases cs.len(),
{
    if cs.len() > 0 {
        let m = corner(st, cs[0])->Ok_0;
        let o = corner(other, cs[0])->Ok_0;
        lemma_corners_ok(m, o, cs.drop_first());
    }
}

proof fn lemma_run_filtered(ls: Seq<Seq<char>>, st: Scan, other: Scan, g: Seq<char>)
    requires
        run(ls, st, None) is Ok,
        other.vertices.len() == st.vertices.len(),
        other.group == st.group,
    ensures
        run(ls, other, Some(g)) is Ok,
    decreases ls.len(),
{
    if ls.len() > 0 {
        let t = tokens(ls[0]);
        let n = step(st, t, None)->Ok_0;
        lemma_keywords_differ();
        if t.len() > 0 && t[0] == kw_f() {
            lemma_corners_ok(st, other, t.drop_first());
            lemma_corners(st, t.drop_first());
            if accepts(Some(g), other.group) {
                lemma_corners(other, t.drop_first());
            }
        }
        let o = step(other, t, Some(g))->Ok_0;
        lemma_run_filtered(ls.drop_first(), n, o, g);
    }
}

/// Parsing with no filter emits the faces of every group, in document
/// order; parsing with a group name then succeeds too, and emits exactly
/// the faces declared while that group was active, in the same order.
pub proof fn lemma_filter_partition(s: Seq<char>, g: Seq<char>)
    requires
        parse(s, None) is Ok,
    ensures
        parse(s, None)->Ok_0.indices == selected(lines(s), seq![], None),
        parse(s, Some(g)) is Ok,
        parse(s, Some(g))->Ok_0.indices == selected(lines(s), seq![], Some(g)),
{
    lemma_run(lines(s), start(), None);
    assert(start().indices + selected(lines(s), seq![], None) =~= selected(lines(s), seq![], None));
    lemma_run_filtered(lines(s), start(), start(), g);
    lemma_run(lines(s), start(), Some(g));
    assert(start().indices + selected(lines(s), seq![], Some(g)) =~= selected(
        lines(s),
        seq![],
        Some(g),
    ));
}

/// Two parses of the same text with the same filter give the same result.
pub proof fn lemma_parse_deterministic(
    s: Seq<char>,
    filter: Option<Seq<char>>,
    a: Result<ObjData, ParseError>,
    b: Result<ObjData, ParseError>,
)
    requires
        parsed_as(a, s, filter),
        parsed_as(b, s, filter),
    ensures
        match (a, b) {
            (Ok(x), Ok(y)) => x@ == y@,
            (Err(x), Err(y)) => x == y,
            _ => false,
        },
{
}

} // verus!
