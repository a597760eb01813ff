//! The mesh model and the line-by-line parser that builds it.
use vstd::prelude::*;

use crate::text::{
    chars_of, text_of, float_at, is_float, lines, parse_index, read_index, run_len, scan, span_is,
    token_spans, tokens, Class,
};

verus! {

/// One vertex of the output. Coordinates are kept as the numeric tokens of
/// the source, each one accepted by `str::parse` as a binary floating-point
/// number. `tex_coords` is `None` while the vertex has the default texture
/// coordinates `(0, 0)`.
pub struct Vertex {
    pub position: [String; 3],
    pub tex_coords: Option<[String; 2]>,
}

/// The vertex list and the triangle-list index buffer of one parse.
pub struct ObjData {
    pub vertices: Vec<Vertex>,
    pub indices: Vec<u32>,
}

/// Why a parse was abandoned.
#[derive(Clone, Copy, PartialEq, Eq, Debug, Structural)]
pub enum ParseError {
    /// A `v` or `vt` line with the wrong number of values or a value that is
    /// not a number, or a face corner whose position is not a positive
    /// integer.
    MalformedDirective,
    /// A face corner that names a vertex not declared before it.
    DanglingReference,
}

/// A vertex as the contracts see it: the texts of its coordinates.
pub struct VertexModel {
    pub position: Seq<Seq<char>>,
    pub tex_coords: Option<Seq<Seq<char>>>,
}

/// The texts of a sequence of strings.
pub open spec fn texts(a: Seq<String>) -> Seq<Seq<char>> {
    a.map_values(|x: String| x@)
}

impl View for Vertex {
    type V = VertexModel;

    open spec fn view(&self) -> VertexModel {
        VertexModel {
            position: texts(self.position@),
            tex_coords: match self.tex_coords {
                Some(t) => Some(texts(t@)),
                None => None,
            },
        }
    }
}

/// The output of a parse: vertices in declaration order, and 0-based
/// indices into them.
pub struct Mesh {
    pub vertices: Seq<VertexModel>,
    pub indices: Seq<int>,
}

impl View for ObjData {
    type V = Mesh;

    open spec fn view(&self) -> Mesh {
        Mesh {
            vertices: self.vertices@.map_values(|v: Vertex| v@),
            indices: self.indices@.map_values(|i: u32| i as int),
        }
    }
}

/// What a parse has gathered after some lines: the vertices, the texture
/// coordinates, the emitted indices and the active material group.
pub struct Scan {
    pub vertices: Seq<VertexModel>,
    pub texs: Seq<Seq<Seq<char>>>,
    pub indices: Seq<int>,
    pub group: Seq<char>,
}

pub open spec fn start() -> Scan {
    Scan { vertices: seq![], texs: seq![], indices: seq![], group: seq![] }
}

/// Faces are emitted when no group is asked for, or when the active group
/// is the one asked for.
pub open spec fn accepts(filter: Option<Seq<char>>, group: Seq<char>) -> bool {
    match filter {
        None => true,
        Some(g) => g == group,
    }
}

/// The position sub-field of a face corner: everything before the first `/`.
pub open spec fn position_field(c: Seq<char>) -> Seq<char> {
    c.take(run_len(c, Class::Field) as int)
}

/// The texture sub-field of a face corner: between the first and the second
/// `/`, if there is a first.
pub open spec fn texture_field(c: Seq<char>) -> Option<Seq<char>> {
    let n = run_len(c, Class::Field);
    if n < c.len() {
        let r = c.skip(n + 1 as int);
        Some(r.take(run_len(r, Class::Field) as int))
    } else {
        None
    }
}

/// The 0-based texture coordinate a corner names, when its texture
/// sub-field is a positive integer within the `n` coordinates declared.
pub open spec fn texture_ref(c: Seq<char>, n: nat) -> Option<nat> {
    match texture_field(c) {
        Some(t) => match parse_index(t) {
            Some(m) => if 1 <= m && m <= n {
                Some((m - 1) as nat)
            } else {
                None
            },
            None => None,
        },
        None => None,
    }
}

/// One face corner: emit its vertex and, when it names a declared texture
/// coordinate, give that vertex those coordinates.
pub open spec fn corner(st: Scan, c: Seq<char>) -> Result<Scan, ParseError> {
    match parse_index(position_field(c)) {
        None => Err(ParseError::MalformedDirective),
        Some(n) => if n == 0 {
            Err(ParseError::MalformedDirective)
        } else if n > st.vertices.len() {
            Err(ParseError::DanglingReference)
        } else {
            let i = n - 1;
            let vs = match texture_ref(c, st.texs.len()) {
                Some(t) => st.vertices.update(
                    i,
                    VertexModel { position: st.vertices[i].position, tex_coords: Some(st.texs[t as int]) },
                ),
                None => st.vertices,
            };
            Ok(Scan { vertices: vs, texs: st.texs, indices: st.indices.push(i), group: st.group })
        },
    }
}

/// The corners of one face, in order; the first failure ends the parse.
pub open spec fn corners(st: Scan, cs: Seq<Seq<char>>) -> Result<Scan, ParseError>
    decreases cs.len(),
{
    if cs.len() == 0 {
        Ok(st)
    } else {
        match corner(st, cs[0]) {
            Ok(next) => corners(next, cs.drop_first()),
            Err(e) => Err(e),
        }
    }
}

pub open spec fn kw_v() -> Seq<char> {
    seq!['v']
}

pub open spec fn kw_vt() -> Seq<char> {
    seq!['v', 't']
}

pub open spec fn kw_usemtl() -> Seq<char> {
    seq!['u', 's', 'e', 'm', 't', 'l']
}

pub open spec fn kw_f() -> Seq<char> {
    seq!['f']
}

/// The effect of one line, given its tokens.
pub open spec fn step(st: Scan, toks: Seq<Seq<char>>, filter: Option<Seq<char>>) -> Result<
    Scan,
    ParseError,
> {
    if toks.len() == 0 {
        Ok(st)
    } else if toks[0] == kw_v() {
        if toks.len() == 4 && is_float(toks[1]) && is_float(toks[2]) && is_float(toks[3]) {
            let v = VertexModel { position: toks.subrange(1, 4), tex_coords: None };
            Ok(Scan { vertices: st.vertices.push(v), ..st })
        } else {
            Err(ParseError::MalformedDirective)
        }
    } else if toks[0] == kw_vt() {
        if toks.len() == 3 && is_float(toks[1]) && is_float(toks[2]) {
            Ok(Scan { texs: st.texs.push(toks.subrange(1, 3)), ..st })
        } else {
            Err(ParseError::MalformedDirective)
        }
    } else if toks[0] == kw_usemtl() {
        if toks.len() == 2 {
            Ok(Scan { group: toks[1], ..st })
        } else {
            Ok(st)
        }
    } else if toks[0] == kw_f() {
        if accepts(filter, st.group) {
            corners(st, toks.drop_first())
        } else {
            Ok(st)
        }
    } else {
        Ok(st)
    }
}

/// The lines `ls`, in order, from the state `st`.
pub open spec fn run(ls: Seq<Seq<char>>, st: Scan, filter: Option<Seq<char>>) -> Result<
    Scan,
    ParseError,
>
    decreases ls.len(),
{
    if ls.len() == 0 {
        Ok(st)
    } else {
        match step(st, tokens(ls[0]), filter) {
            Ok(next) => run(ls.drop_first(), next, filter),
            Err(e) => Err(e),
        }
    }
}

/// What parsing the text `s` gives.
pub open spec fn parse(s: Seq<char>, filter: Option<Seq<char>>) -> Result<Mesh, ParseError> {
    match run(lines(s), start(), filter) {
        Ok(st) => Ok(Mesh { vertices: st.vertices, indices: st.indices }),
        Err(e) => Err(e),
    }
}

pub open spec fn filter_of(material_name: Option<&str>) -> Option<Seq<char>> {
    match material_name {
        Some(m) => Some(m@),
        None => None,
    }
}

/// `r` is what parsing `s` with `filter` gives.
pub open spec fn parsed_as(r: Result<ObjData, ParseError>, s: Seq<char>, filter: Option<Seq<char>>) -> bool {
    match r {
        Ok(o) => parse(s, filter) == Ok::<Mesh, ParseError>(o@),
        Err(e) => parse(s, filter) == Err::<Mesh, ParseError>(e),
    }
}

/// The state of a parse in progress: the active group is a span of the
/// source characters.
struct Scanner {
    vertices: Vec<Vertex>,
    texs: Vec<[String; 2]>,
    indices: Vec<u32>,
    group: (usize, usize),
}

impl Scanner {
    spec fn wf(&self, cs: Seq<char>) -> bool {
        self.group.0 <= self.group.1 <= cs.len()
    }

    spec fn model(&self, cs: Seq<char>) -> Scan {
        Scan {
            vertices: self.vertices@.map_values(|v: Vertex| v@),
            texs: self.texs@.map_values(|t: [String; 2]| texts(t@)),
            indices: self.indices@.map_values(|i: u32| i as int),
            group: cs.subrange(self.group.0 as int, self.group.1 as int),
        }
    }
}

/// Applies the face corner `cs[a..b]`.
fn apply_corner(st: &mut Scanner, cs: &Vec<char>, a: usize, b: usize) -> (r: Result<
    (),
    ParseError,
>)
    requires
        old(st).wf(cs@),
        a <= b <= cs@.len(),
        old(st).vertices@.len() <= u32::MAX,
    ensures
        match r {
            Ok(()) => {
                &&& final(st).wf(cs@)
                &&& final(st).vertices@.len() == old(st).vertices@.len()
                &&& corner(old(st).model(cs@), cs@.subrange(a as int, b as int)) == Ok::<
                    Scan,
                    ParseError,
                >(final(st).model(cs@))
            },
            Err(e) => corner(old(st).model(cs@), cs@.subrange(a as int, b as int)) == Err::<
                Scan,
                ParseError,
            >(e),
        },
{
    let ghost c = cs@.subrange(a as int, b as int);
    let ghost m0 = st.model(cs@);
    let f = scan(cs, a, b, Class::Field);
    assert(c.take(f - a) =~= cs@.subrange(a as int, f as int));
    let n = match read_index(cs, a, f) {
        Some(n) => n,
        None => {
            return Err(ParseError::MalformedDirective);
        },
    };
    if n == 0 {
        return Err(ParseError::MalformedDirective);
    }
    if n > st.vertices.len() {
        return Err(ParseError::DanglingReference);
    }
    let i = n - 1;
    let mut tex: Option<usize> = None;
    if f < b {
        let g = scan(cs, f + 1, b, Class::Field);
        proof {
            let rest = c.skip(f - a + 1);
            assert(rest =~= cs@.subrange(f + 1, b as int));
            assert(rest.take(g - (f + 1)) =~= cs@.subrange(f + 1, g as int));
        }
        match read_index(cs, f + 1, g) {
            Some(m) => {
                if 1 <= m && m <= st.texs.len() {
                    tex = Some(m - 1);
                }
            },
            None => {},
        }
    }
    assert(match tex {
        Some(t) => texture_ref(c, m0.texs.len()) == Some(t as nat),
        None => texture_ref(c, m0.texs.len()) is None,
    });
    match tex {
        Some(t) => {
            let p = &st.vertices[i].position;
            let position = [p[0].clone(), p[1].clone(), p[2].clone()];
            let q = &st.texs[t];
            let coords = [q[0].clone(), q[1].clone()];
            let v = Vertex { position, tex_coords: Some(coords) };
            proof {
                assert(texts(position@) =~= m0.vertices[i as int].position);
                assert(texts(coords@) =~= m0.texs[t as int]);
            }
            let ghost vs0 = st.vertices@;
            st.vertices.set(i, v);
            proof {
                assert(st.vertices@.map_values(|v: Vertex| v@) =~= vs0.map_values(|v: Vertex| v@).update(
                    i as int,
                    VertexModel {
                        position: m0.vertices[i as int].position,
                        tex_coords: Some(m0.texs[t as int]),
                    },
                ));
            }
        },
        None => {},
    }
    let ghost ix0 = st.indices@;
    st.indices.push(i as u32);
    assert(st.indices@.map_values(|k: u32| k as int) =~= ix0.map_values(|k: u32| k as int).push(
        i as int,
    ));
    Ok(())
}

spec fn filter_chars(want: Option<Vec<char>>) -> Option<Seq<char>> {
    match want {
        Some(w) => Some(w@),
        None => None,
    }
}

/// Applies the line `cs[from..to]`.
fn apply_line(
    st: &mut Scanner,
    data: &str,
    cs: &Vec<char>,
    from: usize,
    to: usize,
    want: &Option<Vec<char>>,
) -> (r: Result<(), ParseError>)
    requires
        old(st).wf(cs@),
        cs@ == data@,
        from <= to <= cs@.len(),
        cs@.len() <= u32::MAX,
        old(st).vertices@.len() <= from,
    ensures
        match r {
            Ok(()) => {
                &&& final(st).wf(cs@)
                &&& final(st).vertices@.len() <= to
                &&& step(
                    old(st).model(cs@),
                    tokens(cs@.subrange(from as int, to as int)),
                    filter_chars(*want),
                ) == Ok::<Scan, ParseError>(final(st).model(cs@))
            },
            Err(e) => step(
                old(st).model(cs@),
                tokens(cs@.subrange(from as int, to as int)),
                filter_chars(*want),
            ) == Err::<Scan, ParseError>(e),
        },
{
    let ghost toks = tokens(cs@.subrange(from as int, to as int));
    let ghost m0 = st.model(cs@);
    let spans = token_spans(cs, from, to);
    if spans.len() == 0 {
        return Ok(());
    }
    let (k0, k1) = spans[0];
    let kv = vec!['v'];
    let kvt = vec!['v', 't'];
    let kusemtl = vec!['u', 's', 'e', 'm', 't', 'l'];
    let kf = vec!['f'];
    assert(kv@ == kw_v());
    assert(kvt@ == kw_vt());
    assert(kusemtl@ == kw_usemtl());
    assert(kf@ == kw_f());
    if span_is(cs, k0, k1, &kv) {
        if spans.len() != 4 || !float_at(cs, spans[1].0, spans[1].1) || !float_at(
            cs,
            spans[2].0,
            spans[2].1,
        ) || !float_at(cs, spans[3].0, spans[3].1) {
            return Err(ParseError::MalformedDirective);
        }
        let x = text_of(data, spans[1].0, spans[1].1);
        let y = text_of(data, spans[2].0, spans[2].1);
        let z = text_of(data, spans[3].0, spans[3].1);
        let position = [x, y, z];
        assert(texts(position@) =~= toks.subrange(1, 4));
        let ghost vs0 = st.vertices@;
        st.vertices.push(Vertex { position, tex_coords: None });
        assert(st.vertices@.map_values(|v: Vertex| v@) =~= vs0.map_values(|v: Vertex| v@).push(
            VertexModel { position: toks.subrange(1, 4), tex_coords: None },
        ));
        Ok(())
    } else if span_is(cs, k0, k1, &kvt) {
        if spans.len() != 3 || !float_at(cs, spans[1].0, spans[1].1) || !float_at(
            cs,
            spans[2].0,
            spans[2].1,
        ) {
            return Err(ParseError::MalformedDirective);
        }
        let u = text_of(data, spans[1].0, spans[1].1);
        let v = text_of(data, spans[2].0, spans[2].1);
        let coords = [u, v];
        assert(texts(coords@) =~= toks.subrange(1, 3));
        let ghost ts0 = st.texs@;
        st.texs.push(coords);
        assert(st.texs@.map_values(|t: [String; 2]| texts(t@)) =~= ts0.map_values(
            |t: [String; 2]| texts(t@),
        ).push(toks.subrange(1, 3)));
        Ok(())
    } else if span_is(cs, k0, k1, &kusemtl) {
        if spans.len() == 2 {
            st.group = spans[1];
        }
        Ok(())
    } else if span_is(cs, k0, k1, &kf) {
        let accepted = match want {
            Some(w) => span_is(cs, st.group.0, st.group.1, w),
            None => true,
        };
        if !accepted {
            return Ok(());
        }
        let ghost faces = toks.drop_first();
        let ghost f = filter_chars(*want);
        let mut t: usize = 1;
        assert(toks.skip(1) =~= faces);
        assert(step(m0, toks, f) == corners(m0, faces));
        while t < spans.len()
            invariant
                1 <= t <= spans@.len(),
                spans@.len() == toks.len(),
                toks == tokens(cs@.subrange(from as int, to as int)),
                forall|j: int|
                    0 <= j < spans@.len() ==> from <= (#[trigger] spans@[j]).0 < spans@[j].1 <= to
                        && cs@.subrange(spans@[j].0 as int, spans@[j].1 as int) == toks[j],
                from <= to <= cs@.len(),
                cs@.len() <= u32::MAX,
                st.wf(cs@),
                st.vertices@.len() == old(st).vertices@.len(),
                old(st).vertices@.len() <= from,
                corners(st.model(cs@), toks.skip(t as int)) == corners(m0, faces),
                step(m0, toks, f) == corners(m0, faces),
                m0 == old(st).model(cs@),
                f == filter_chars(*want),
            decreases spans@.len() - t,
        {
            let (a, b) = spans[t];
            let ghost m = st.model(cs@);
            let ghost here = toks.skip(t as int);
            assert(here[0] == toks[t as int]);
            assert(here.drop_first() =~= toks.skip(t + 1));
            match apply_corner(st, cs, a, b) {
                Ok(()) => {},
                Err(e) => {
                    return Err(e);
                },
            }
            t = t + 1;
        }
        assert(toks.skip(t as int).len() == 0);
        Ok(())
    } else {
        Ok(())
    }
}

/// Parses a model description. With a material name, only the faces
/// declared while that material is active are emitted; vertices and
/// texture coordinates are gathered whatever the material.
pub fn parse_obj(data: &str, material_name: Option<&str>) -> (r: Result<ObjData, ParseError>)
    requires
        data@.len() <= u32::MAX,
    ensures
        parsed_as(r, data@, filter_of(material_name)),
{
    let cs = chars_of(data);
    let want = match material_name {
        Some(m) => Some(chars_of(m)),
        None => None,
    };
    let ghost f = filter_of(material_name);
    assert(filter_chars(want) == f);
    let mut st = Scanner {
        vertices: Vec::new(),
        texs: Vec::new(),
        indices: Vec::new(),
        group: (0, 0),
    };
    let ghost total = run(lines(cs@), start(), f);
    assert(st.model(cs@).vertices =~= start().vertices);
    assert(st.model(cs@).texs =~= start().texs);
    assert(st.model(cs@).indices =~= start().indices);
    assert(st.model(cs@).group =~= start().group);
    assert(cs@.skip(0) =~= cs@);
    let mut p: usize = 0;
    loop
        invariant
            p <= cs@.len(),
            cs@ == data@,
            cs@.len() <= u32::MAX,
            st.wf(cs@),
            st.vertices@.len() <= p,
            filter_chars(want) == f,
            f == filter_of(material_name),
            total == run(lines(cs@), start(), f),
            run(lines(cs@.skip(p as int)), st.model(cs@), f) == total,
        decreases cs@.len() - p,
    {
        let e = scan(&cs, p, cs.len(), Class::Line);
        let ghost rest = cs@.skip(p as int);
        let ghost m = st.model(cs@);
        proof {
            assert(rest =~= cs@.subrange(p as int, cs@.len() as int));
            if e < cs@.len() {
                assert(rest.take(e - p) =~= cs@.subrange(p as int, e as int));
                assert(rest.skip(e - p + 1) =~= cs@.skip(e + 1));
                let ls = lines(rest);
                assert(ls.len() > 0);
                assert(ls[0] == cs@.subrange(p as int, e as int));
                assert(ls.drop_first() == lines(cs@.skip(e + 1)));
            } else {
                assert(rest =~= cs@.subrange(p as int, e as int));
                assert(lines(rest) == seq![rest]);
                assert(lines(rest).drop_first().len() == 0);
            }
        }
        match apply_line(&mut st, data, &cs, p, e, &want) {
            Ok(()) => {},
            Err(err) => {
                assert(run(lines(rest), m, f) == Err::<Scan, ParseError>(err));
                return Err(err);
            },
        }
        if e == cs.len() {
            proof {
                let n = st.model(cs@);
                assert(run(lines(rest).drop_first(), n, f) == Ok::<Scan, ParseError>(n));
                assert(run(lines(rest), m, f) == Ok::<Scan, ParseError>(n));
            }
            let out = ObjData { vertices: st.vertices, indices: st.indices };
            assert(out@.vertices == st.model(cs@).vertices);
            assert(out@.indices == st.model(cs@).indices);
            return Ok(out);
        }
        p = e + 1;
    }
}

} // verus!
