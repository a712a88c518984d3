//! The line-directive parser.
//!
//! [`parse_lines_spec`] is the mathematical description of the whole parse: a
//! fold of [`step_line`] over the input lines, followed by a final flush of
//! the in-progress object and one validation pass over the vertex table.
//! [`Obj::from_lines`] is proven to return exactly that result.

use vstd::prelude::*;

use crate::error::Error;
use crate::numbers::is_float;
use crate::numbers::is_float_token;
use crate::numbers::parse_int;
use crate::numbers::parse_signed;
use crate::text::fields_of;
use crate::text::split_fields;
use crate::text::str_eq;
use crate::text::tokenize;
use crate::text::tokens_of;
use crate::text::valid_name;
use crate::types::BufV;
use crate::types::Buffers;
use crate::types::GroupEntry;
use crate::types::GroupEntryV;
use crate::types::Obj;
use crate::types::ObjV;
use crate::types::ObjectEntry;
use crate::types::ObjectEntryV;
use crate::types::Triple;
use crate::types::VertexIndices;
use crate::types::VertexRange;
use crate::types::add_poly;
use crate::types::ensure_group;
use crate::types::group_index;
use crate::types::groups_wf;
use crate::types::lemma_group_index;
use crate::types::lemma_object_index;
use crate::types::object_index;
use crate::types::objects_wf;
use crate::types::put_group;
use crate::types::put_object;
use crate::types::range_wf;
use crate::types::ranges_wf;
use crate::types::rec_wf;
use crate::util::name_is_valid;

verus! {

/// The accumulator state threaded through the parse: the buffers built so
/// far, the finished objects, and the object/group context being built.
#[verifier::ext_equal]
pub ghost struct StateV {
    pub bufs: BufV,
    pub objects: Seq<ObjectEntryV>,
    pub cur_name: Option<Seq<char>>,
    pub groups: Seq<GroupEntryV>,
    pub default_group: Seq<VertexRange>,
    pub selected: Seq<Seq<char>>,
}

pub open spec fn init_state() -> StateV {
    StateV {
        bufs: BufV {
            positions: Seq::empty(),
            uvs: Seq::empty(),
            normals: Seq::empty(),
            vertices: Seq::empty(),
        },
        objects: Seq::empty(),
        cur_name: None,
        groups: Seq::empty(),
        default_group: Seq::empty(),
        selected: Seq::empty(),
    }
}

/// Value `i` of a `v`-style line is present when tokens `1..=1+i` all parse
/// as floats: value parsing stops at the first non-numeric token.
pub open spec fn fpresent(toks: Seq<Seq<char>>, i: int) -> bool
    decreases i + 1,
{
    if i < 0 {
        true
    } else {
        fpresent(toks, i - 1) && 1 + i < toks.len() && is_float_token(toks[1 + i])
    }
}

/// The `i`-th value of a `v`-style line, defaulting to `0`.
pub open spec fn fval(toks: Seq<Seq<char>>, i: int) -> Seq<char> {
    if fpresent(toks, i) {
        toks[1 + i]
    } else {
        seq!['0']
    }
}

/// The attribute triple appended by a `v`, `vt` or `vn` line.
pub open spec fn triple_of(toks: Seq<Seq<char>>) -> crate::types::TripleV {
    crate::types::TripleV { x: fval(toks, 0), y: fval(toks, 1), z: fval(toks, 2) }
}

/// Resolves one `/`-separated sub-field of a face-vertex token against the
/// current length of its attribute buffer.
pub open spec fn resolve_field(f: Seq<char>, len: nat, ln: usize) -> Result<Option<usize>, Error> {
    if f.len() == 0 {
        Ok(None)
    } else {
        match parse_int(f) {
            None => Err(Error::ExpectedIdx(ln)),
            Some(v) => if v == 0 {
                Err(Error::InvalidIndex(0))
            } else if v > 0 {
                Ok(Some(v as usize))
            } else if len + v >= 0 {
                Ok(Some((len + v + 1) as usize))
            } else {
                Err(Error::InvalidIndex(v as isize))
            },
        }
    }
}

/// Resolves one face-vertex token into a vertex record. The position
/// sub-field is mandatory; sub-fields past the third are ignored.
pub open spec fn resolve_vertex(
    tok: Seq<char>,
    plen: nat,
    ulen: nat,
    nlen: nat,
    ln: usize,
) -> Result<VertexIndices, Error> {
    let fs = fields_of(tok);
    match resolve_field(fs[0], plen, ln) {
        Err(e) => Err(e),
        Ok(p) => match (if fs.len() >= 2 {
            resolve_field(fs[1], ulen, ln)
        } else {
            Ok(None)
        }) {
            Err(e) => Err(e),
            Ok(u) => match (if fs.len() >= 3 {
                resolve_field(fs[2], nlen, ln)
            } else {
                Ok(None)
            }) {
                Err(e) => Err(e),
                Ok(m) => match p {
                    None => Err(Error::ExpectedIdx(ln)),
                    Some(pi) => Ok(VertexIndices { pos: pi, uv: u, normal: m }),
                },
            },
        },
    }
}

/// Resolves the face-vertex tokens `toks[i..]` in order, stopping at the
/// first failure.
pub open spec fn resolve_terms(
    toks: Seq<Seq<char>>,
    i: int,
    plen: nat,
    ulen: nat,
    nlen: nat,
    ln: usize,
) -> Result<Seq<VertexIndices>, Error>
    decreases toks.len() - i,
{
    if i < 0 || i >= toks.len() {
        Ok(Seq::empty())
    } else {
        match resolve_vertex(toks[i], plen, ulen, nlen, ln) {
            Err(e) => Err(e),
            Ok(r) => match resolve_terms(toks, i + 1, plen, ulen, nlen, ln) {
                Err(e) => Err(e),
                Ok(rest) => Ok(seq![r] + rest),
            },
        }
    }
}

/// Appends `rng` to every selected group, in selection order.
pub open spec fn add_poly_all(
    gs: Seq<GroupEntryV>,
    names: Seq<Seq<char>>,
    rng: VertexRange,
) -> Seq<GroupEntryV>
    decreases names.len(),
{
    if names.len() == 0 {
        gs
    } else {
        add_poly(add_poly_all(gs, names.drop_last(), rng), names.last(), rng)
    }
}

/// What an `f` line does: resolve every vertex token against the current
/// buffer lengths, append the records to the vertex table, and assign the
/// new polygon range to the selected groups (or the default group).
pub open spec fn step_f(st: StateV, toks: Seq<Seq<char>>, ln: usize) -> Result<StateV, Error> {
    match resolve_terms(
        toks,
        1,
        st.bufs.positions.len(),
        st.bufs.uvs.len(),
        st.bufs.normals.len(),
        ln,
    ) {
        Err(e) => Err(e),
        Ok(recs) => {
            let vs = st.bufs.vertices + recs;
            let rng = VertexRange {
                start: st.bufs.vertices.len() as usize,
                end: vs.len() as usize,
            };
            if st.selected.len() == 0 {
                Ok(
                    StateV {
                        bufs: BufV { vertices: vs, ..st.bufs },
                        default_group: st.default_group.push(rng),
                        ..st
                    },
                )
            } else {
                Ok(
                    StateV {
                        bufs: BufV { vertices: vs, ..st.bufs },
                        groups: add_poly_all(st.groups, st.selected, rng),
                        ..st
                    },
                )
            }
        },
    }
}

/// The names a `g` line selects: its arguments, invalid names dropped.
pub open spec fn filter_valid(names: Seq<Seq<char>>) -> Seq<Seq<char>>
    decreases names.len(),
{
    if names.len() == 0 {
        Seq::empty()
    } else if valid_name(names.last()) {
        filter_valid(names.drop_last()).push(names.last())
    } else {
        filter_valid(names.drop_last())
    }
}

/// Creates entries for the given names, in order, where missing.
pub open spec fn ensure_groups(gs: Seq<GroupEntryV>, names: Seq<Seq<char>>) -> Seq<GroupEntryV>
    decreases names.len(),
{
    if names.len() == 0 {
        gs
    } else {
        ensure_group(ensure_groups(gs, names.drop_last()), names.last())
    }
}

/// What a `g` line does: select the valid names and pre-create their entries.
pub open spec fn step_g(st: StateV, toks: Seq<Seq<char>>) -> StateV {
    let names = filter_valid(toks.drop_first());
    StateV { groups: ensure_groups(st.groups, names), selected: names, ..st }
}

/// Flushes the in-progress object: the default group is stored under the
/// empty name, and a non-empty group map is stored under the current object
/// name (the empty name when no `o` directive was seen).
pub open spec fn flush(st: StateV) -> StateV {
    let gs = if st.default_group.len() > 0 {
        put_group(st.groups, Seq::empty(), st.default_group)
    } else {
        st.groups
    };
    let os = if gs.len() > 0 {
        put_object(
            st.objects,
            match st.cur_name {
                Some(n) => n,
                None => Seq::empty(),
            },
            gs,
        )
    } else {
        st.objects
    };
    StateV {
        objects: os,
        groups: Seq::empty(),
        default_group: Seq::empty(),
        selected: Seq::empty(),
        ..st
    }
}

/// What an `o` line does: flush, then start an object under the new name,
/// which must be present and valid.
pub open spec fn step_o(st: StateV, toks: Seq<Seq<char>>, ln: usize) -> Result<StateV, Error> {
    let st2 = flush(st);
    if toks.len() >= 2 && valid_name(toks[1]) {
        Ok(StateV { cur_name: Some(toks[1]), ..st2 })
    } else {
        Err(Error::ExpectedName(ln))
    }
}

/// What one input line does to the parse state.
pub open spec fn step_line(st: StateV, line: Seq<char>, ln: usize) -> Result<StateV, Error> {
    let toks = tokens_of(line);
    if toks.len() == 0 {
        Ok(st)
    } else if toks[0] == seq!['v'] {
        Ok(StateV { bufs: BufV { positions: st.bufs.positions.push(triple_of(toks)), ..st.bufs }, ..st })
    } else if toks[0] == seq!['v', 't'] {
        Ok(StateV { bufs: BufV { uvs: st.bufs.uvs.push(triple_of(toks)), ..st.bufs }, ..st })
    } else if toks[0] == seq!['v', 'n'] {
        Ok(StateV { bufs: BufV { normals: st.bufs.normals.push(triple_of(toks)), ..st.bufs }, ..st })
    } else if toks[0] == seq!['f'] {
        step_f(st, toks, ln)
    } else if toks[0] == seq!['g'] {
        Ok(step_g(st, toks))
    } else if toks[0] == seq!['o'] {
        step_o(st, toks, ln)
    } else {
        Ok(st)
    }
}

/// Folds [`step_line`] over the lines, numbering them from `next`.
pub open spec fn parse_from(st: StateV, lines: Seq<Seq<char>>, next: int) -> Result<StateV, Error>
    decreases lines.len(),
{
    if lines.len() == 0 {
        Ok(st)
    } else {
        match step_line(st, lines[0], next as usize) {
            Err(e) => Err(e),
            Ok(s2) => parse_from(s2, lines.drop_first(), next + 1),
        }
    }
}

pub open spec fn bad_opt(o: Option<usize>, len: nat) -> bool {
    match o {
        Some(u) => u < 1 || u > len,
        None => false,
    }
}

pub open spec fn opt_val(o: Option<usize>) -> usize {
    match o {
        Some(u) => u,
        None => 0,
    }
}

/// The offending value of one vertex record, checked position, then texture
/// coordinate, then normal — or `None` when the record is in bounds.
pub open spec fn rec_bad(r: VertexIndices, b: BufV) -> Option<isize> {
    if r.pos < 1 || r.pos > b.positions.len() {
        Some(r.pos as isize)
    } else if bad_opt(r.uv, b.uvs.len()) {
        Some(opt_val(r.uv) as isize)
    } else if bad_opt(r.normal, b.normals.len()) {
        Some(opt_val(r.normal) as isize)
    } else {
        None
    }
}

/// The first out-of-bounds reference of the vertex table, in table order.
pub open spec fn first_bad(recs: Seq<VertexIndices>, b: BufV) -> Option<isize>
    decreases recs.len(),
{
    if recs.len() == 0 {
        None
    } else {
        match rec_bad(recs[0], b) {
            Some(v) => Some(v),
            None => first_bad(recs.drop_first(), b),
        }
    }
}

/// The end-of-input step: flush once more, then validate every record
/// against the final buffer sizes.
pub open spec fn finish(st: StateV) -> Result<ObjV, Error> {
    let st2 = flush(st);
    match first_bad(st2.bufs.vertices, st2.bufs) {
        Some(v) => Err(Error::InvalidIndex(v)),
        None => Ok(ObjV { bufs: st2.bufs, objects: st2.objects }),
    }
}

/// The mathematical result of parsing the given lines.
pub open spec fn parse_lines_spec(lines: Seq<Seq<char>>) -> Result<ObjV, Error> {
    match parse_from(init_state(), lines, 1) {
        Err(e) => Err(e),
        Ok(st) => finish(st),
    }
}

impl StateV {
    /// Every recorded range lies within the vertex table built so far, and
    /// group/object names are unique.
    pub open spec fn inv(self) -> bool {
        &&& ranges_wf(self.default_group, self.bufs.vertices.len())
        &&& groups_wf(self.groups, self.bufs.vertices.len())
        &&& objects_wf(self.objects, self.bufs.vertices.len())
    }
}

proof fn lemma_ensure_group_wf(gs: Seq<GroupEntryV>, name: Seq<char>, vlen: nat)
    requires
        groups_wf(gs, vlen),
    ensures
        groups_wf(ensure_group(gs, name), vlen),
{
    lemma_group_index(gs, name);
}

proof fn lemma_ensure_groups_wf(gs: Seq<GroupEntryV>, names: Seq<Seq<char>>, vlen: nat)
    requires
        groups_wf(gs, vlen),
    ensures
        groups_wf(ensure_groups(gs, names), vlen),
    decreases names.len(),
{
    if names.len() > 0 {
        lemma_ensure_groups_wf(gs, names.drop_last(), vlen);
        lemma_ensure_group_wf(ensure_groups(gs, names.drop_last()), names.last(), vlen);
    }
}

proof fn lemma_add_poly_wf(gs: Seq<GroupEntryV>, name: Seq<char>, rng: VertexRange, vlen: nat)
    requires
        groups_wf(gs, vlen),
        range_wf(rng, vlen),
    ensures
        groups_wf(add_poly(gs, name, rng), vlen),
{
    lemma_group_index(gs, name);
}

proof fn lemma_add_poly_all_wf(
    gs: Seq<GroupEntryV>,
    names: Seq<Seq<char>>,
    rng: VertexRange,
    vlen: nat,
)
    requires
        groups_wf(gs, vlen),
        range_wf(rng, vlen),
    ensures
        groups_wf(add_poly_all(gs, names, rng), vlen),
    decreases names.len(),
{
    if names.len() > 0 {
        lemma_add_poly_all_wf(gs, names.drop_last(), rng, vlen);
        lemma_add_poly_wf(add_poly_all(gs, names.drop_last(), rng), names.last(), rng, vlen);
    }
}

proof fn lemma_put_group_wf(
    gs: Seq<GroupEntryV>,
    name: Seq<char>,
    polys: Seq<VertexRange>,
    vlen: nat,
)
    requires
        groups_wf(gs, vlen),
        ranges_wf(polys, vlen),
    ensures
        groups_wf(put_group(gs, name, polys), vlen),
{
    lemma_group_index(gs, name);
}

proof fn lemma_put_object_wf(
    os: Seq<ObjectEntryV>,
    name: Seq<char>,
    groups: Seq<GroupEntryV>,
    vlen: nat,
)
    requires
        objects_wf(os, vlen),
        groups_wf(groups, vlen),
    ensures
        objects_wf(put_object(os, name, groups), vlen),
{
    lemma_object_index(os, name);
}

proof fn lemma_wf_mono(st: StateV, vlen: nat)
    requires
        st.inv(),
        st.bufs.vertices.len() <= vlen,
    ensures
        ranges_wf(st.default_group, vlen),
        groups_wf(st.groups, vlen),
        objects_wf(st.objects, vlen),
{
}

pub proof fn lemma_flush_inv(st: StateV)
    requires
        st.inv(),
    ensures
        flush(st).inv(),
{
    let vlen = st.bufs.vertices.len();
    if st.default_group.len() > 0 {
        lemma_put_group_wf(st.groups, Seq::empty(), st.default_group, vlen);
    }
    let gs = if st.default_group.len() > 0 {
        put_group(st.groups, Seq::empty(), st.default_group)
    } else {
        st.groups
    };
    if gs.len() > 0 {
        lemma_put_object_wf(
            st.objects,
            match st.cur_name {
                Some(n) => n,
                None => Seq::empty(),
            },
            gs,
            vlen,
        );
    }
}

/// One line never removes vertex records.
proof fn lemma_step_line_mono(st: StateV, line: Seq<char>, ln: usize)
    ensures
        step_line(st, line, ln) matches Ok(s2) ==> s2.bufs.vertices.len()
            >= st.bufs.vertices.len(),
{
}

/// The parse never removes vertex records.
proof fn lemma_parse_from_mono(st: StateV, lines: Seq<Seq<char>>, next: int)
    ensures
        parse_from(st, lines, next) matches Ok(s2) ==> s2.bufs.vertices.len()
            >= st.bufs.vertices.len(),
    decreases lines.len(),
{
    if lines.len() > 0 {
        lemma_step_line_mono(st, lines[0], next as usize);
        match step_line(st, lines[0], next as usize) {
            Err(_) => {},
            Ok(s2) => {
                lemma_parse_from_mono(s2, lines.drop_first(), next + 1);
            },
        }
    }
}

pub proof fn lemma_step_line_inv(st: StateV, line: Seq<char>, ln: usize)
    requires
        st.inv(),
    ensures
        step_line(st, line, ln) matches Ok(s2) ==> (s2.bufs.vertices.len() <= usize::MAX
            ==> s2.inv()),
{
    let toks = tokens_of(line);
    if toks.len() == 0 {
    } else if toks[0] == seq!['f'] {
        match resolve_terms(
            toks,
            1,
            st.bufs.positions.len(),
            st.bufs.uvs.len(),
            st.bufs.normals.len(),
            ln,
        ) {
            Err(_) => {},
            Ok(recs) => {
                let vs = st.bufs.vertices + recs;
                if vs.len() <= usize::MAX {
                    let rng = VertexRange {
                        start: st.bufs.vertices.len() as usize,
                        end: vs.len() as usize,
                    };
                    lemma_wf_mono(st, vs.len());
                    if st.selected.len() == 0 {
                    } else {
                        lemma_add_poly_all_wf(st.groups, st.selected, rng, vs.len());
                    }
                }
            },
        }
    } else if toks[0] == seq!['g'] {
        lemma_ensure_groups_wf(st.groups, filter_valid(toks.drop_first()), st.bufs.vertices.len());
    } else if toks[0] == seq!['o'] {
        lemma_flush_inv(st);
    }
}

pub proof fn lemma_parse_from_inv(st: StateV, lines: Seq<Seq<char>>, next: int)
    requires
        st.inv(),
    ensures
        parse_from(st, lines, next) matches Ok(s2) ==> (s2.bufs.vertices.len() <= usize::MAX
            ==> s2.inv()),
    decreases lines.len(),
{
    if lines.len() > 0 {
        lemma_step_line_inv(st, lines[0], next as usize);
        match step_line(st, lines[0], next as usize) {
            Err(_) => {},
            Ok(s2) => {
                lemma_parse_from_mono(s2, lines.drop_first(), next + 1);
                match parse_from(s2, lines.drop_first(), next + 1) {
                    Err(_) => {},
                    Ok(s3) => {
                        if s3.bufs.vertices.len() <= usize::MAX {
                            lemma_parse_from_inv(s2, lines.drop_first(), next + 1);
                        }
                    },
                }
            },
        }
    }
}

proof fn lemma_first_bad_none(recs: Seq<VertexIndices>, b: BufV)
    requires
        first_bad(recs, b) is None,
    ensures
        forall|i: int| 0 <= i < recs.len() ==> rec_wf(#[trigger] recs[i], b),
    decreases recs.len(),
{
    if recs.len() > 0 {
        lemma_first_bad_none(recs.drop_first(), b);
        assert(forall|i: int| 1 <= i < recs.len() ==> recs[i] == recs.drop_first()[i - 1]);
    }
}

/// A successfully parsed model is well-formed: every record and every
/// recorded polygon range is within bounds, and names are unique.
pub proof fn lemma_parse_wf(lines: Seq<Seq<char>>)
    ensures
        parse_lines_spec(lines) matches Ok(m) ==> (m.bufs.vertices.len() <= usize::MAX
            ==> m.wf()),
{
    lemma_parse_from_inv(init_state(), lines, 1);
    match parse_from(init_state(), lines, 1) {
        Err(_) => {},
        Ok(st) => {
            if st.bufs.vertices.len() <= usize::MAX {
                lemma_flush_inv(st);
            }
            let st2 = flush(st);
            match first_bad(st2.bufs.vertices, st2.bufs) {
                Some(_) => {},
                None => {
                    lemma_first_bad_none(st2.bufs.vertices, st2.bufs);
                },
            }
        },
    }
}

/// The mutable accumulator the executable parser threads through the lines.
pub struct ParseState {
    pub buffers: Buffers,
    pub objects: Vec<ObjectEntry>,
    pub cur_name: Option<String>,
    pub groups: Vec<GroupEntry>,
    pub default_group: Vec<VertexRange>,
    pub selected: Vec<String>,
}

impl View for ParseState {
    type V = StateV;

    open spec fn view(&self) -> StateV {
        StateV {
            bufs: self.buffers@,
            objects: self.objects@.map_values(|o: ObjectEntry| o@),
            cur_name: match self.cur_name {
                Some(n) => Some(n@),
                None => None,
            },
            groups: self.groups@.map_values(|g: GroupEntry| g@),
            default_group: self.default_group@,
            selected: self.selected@.map_values(|s: String| s@),
        }
    }
}

/// The index of the first group entry named `name`, if any.
pub(crate) fn find_group(gs: &Vec<GroupEntry>, name: &str) -> (r: Option<usize>)
    ensures
        ({
            let k = group_index(gs@.map_values(|g: GroupEntry| g@), name@);
            match r {
                Some(i) => k == i && i < gs@.len(),
                None => k == -1,
            }
        }),
{
    let ghost gv = gs@.map_values(|g: GroupEntry| g@);
    proof {
        lemma_group_index(gv, name@);
    }
    let mut i: usize = 0;
    while i < gs.len()
        invariant
            i <= gs@.len(),
            forall|j: int| 0 <= j < i ==> gv[j].name != name@,
        decreases gs@.len() - i,
    {
        if str_eq(gs[i].name.as_str(), name) {
            proof {
                assert(gv[i as int].name == name@);
                let k = group_index(gv, name@);
                if k == -1 {
                    assert(false);
                } else if k < i {
                    assert(gv[k].name != name@);
                } else if k > i {
                    assert(gv[i as int].name != name@);
                }
            }
            return Some(i);
        }
        i += 1;
    }
    proof {
        let k = group_index(gv, name@);
        if k != -1 {
            assert(gv[k].name != name@);
        }
    }
    None
}

/// The index of the first object entry named `name`, if any.
pub(crate) fn find_object(os: &Vec<ObjectEntry>, name: &str) -> (r: Option<usize>)
    ensures
        ({
            let k = object_index(os@.map_values(|o: ObjectEntry| o@), name@);
            match r {
                Some(i) => k == i && i < os@.len(),
                None => k == -1,
            }
        }),
{
    let ghost ov = os@.map_values(|o: ObjectEntry| o@);
    proof {
        lemma_object_index(ov, name@);
    }
    let mut i: usize = 0;
    while i < os.len()
        invariant
            i <= os@.len(),
            forall|j: int| 0 <= j < i ==> ov[j].name != name@,
        decreases os@.len() - i,
    {
        if str_eq(os[i].name.as_str(), name) {
            proof {
                assert(ov[i as int].name == name@);
                let k = object_index(ov, name@);
                if k == -1 {
                    assert(false);
                } else if k < i {
                    assert(ov[k].name != name@);
                } else if k > i {
                    assert(ov[i as int].name != name@);
                }
            }
            return Some(i);
        }
        i += 1;
    }
    proof {
        let k = object_index(ov, name@);
        if k != -1 {
            assert(ov[k].name != name@);
        }
    }
    None
}

fn ensure_group_exec(gs: &mut Vec<GroupEntry>, name: &String)
    ensures
        final(gs)@.map_values(|g: GroupEntry| g@) == ensure_group(
            old(gs)@.map_values(|g: GroupEntry| g@),
            name@,
        ),
{
    let ghost gv = gs@.map_values(|g: GroupEntry| g@);
    match find_group(gs, name.as_str()) {
        None => {
            gs.push(GroupEntry { name: name.clone(), polys: Vec::new() });
            proof {
                assert(gs@.map_values(|g: GroupEntry| g@) =~~= ensure_group(gv, name@));
            }
        },
        Some(_) => {},
    }
}

fn add_poly_exec(gs: &mut Vec<GroupEntry>, name: &String, rng: VertexRange)
    ensures
        final(gs)@.map_values(|g: GroupEntry| g@) == add_poly(
            old(gs)@.map_values(|g: GroupEntry| g@),
            name@,
            rng,
        ),
{
    let ghost gv = gs@.map_values(|g: GroupEntry| g@);
    match find_group(gs, name.as_str()) {
        None => {
            let mut polys: Vec<VertexRange> = Vec::new();
            polys.push(rng);
            gs.push(GroupEntry { name: name.clone(), polys });
            proof {
                assert(gs@.map_values(|g: GroupEntry| g@) =~~= add_poly(gv, name@, rng));
            }
        },
        Some(i) => {
            let mut e = gs.remove(i);
            e.polys.push(rng);
            proof {
                lemma_group_index(gv, name@);
            }
            gs.insert(i, e);
            proof {
                assert(gs@.map_values(|g: GroupEntry| g@) =~~= add_poly(gv, name@, rng));
            }
        },
    }
}

fn put_group_exec(gs: &mut Vec<GroupEntry>, name: String, polys: Vec<VertexRange>)
    ensures
        final(gs)@.map_values(|g: GroupEntry| g@) == put_group(
            old(gs)@.map_values(|g: GroupEntry| g@),
            name@,
            polys@,
        ),
{
    let ghost gv = gs@.map_values(|g: GroupEntry| g@);
    match find_group(gs, name.as_str()) {
        None => {
            gs.push(GroupEntry { name, polys });
            proof {
                assert(gs@.map_values(|g: GroupEntry| g@) =~~= put_group(gv, name@, polys@));
            }
        },
        Some(i) => {
            let _ = gs.remove(i);
            proof {
                lemma_group_index(gv, name@);
            }
            gs.insert(i, GroupEntry { name, polys });
            proof {
                assert(gs@.map_values(|g: GroupEntry| g@) =~~= put_group(gv, name@, polys@));
            }
        },
    }
}

fn put_object_exec(os: &mut Vec<ObjectEntry>, name: String, groups: Vec<GroupEntry>)
    ensures
        final(os)@.map_values(|o: ObjectEntry| o@) == put_object(
            old(os)@.map_values(|o: ObjectEntry| o@),
            name@,
            groups@.map_values(|g: GroupEntry| g@),
        ),
{
    let ghost ov = os@.map_values(|o: ObjectEntry| o@);
    let ghost gv = groups@.map_values(|g: GroupEntry| g@);
    match find_object(os, name.as_str()) {
        None => {
            os.push(ObjectEntry { name, groups });
            proof {
                assert(os@.map_values(|o: ObjectEntry| o@) =~~= put_object(ov, name@, gv));
            }
        },
        Some(i) => {
            let _ = os.remove(i);
            proof {
                lemma_object_index(ov, name@);
            }
            os.insert(i, ObjectEntry { name, groups });
            proof {
                assert(os@.map_values(|o: ObjectEntry| o@) =~~= put_object(ov, name@, gv));
            }
        },
    }
}

fn zero_str() -> (s: String)
    ensures
        s@ == seq!['0'],
{
    let s = String::from_str("0");
    proof {
        reveal_strlit("0");
        assert(s@ =~= seq!['0']);
    }
    s
}

/// Reads the up-to-three numeric values of a `v`, `vt` or `vn` line.
fn parse_triple(toks: &Vec<String>) -> (t: Triple)
    ensures
        t@ == triple_of(toks@.map_values(|s: String| s@)),
{
    let ghost tv = toks@.map_values(|s: String| s@);
    proof {
        assert(forall|j: int| 0 <= j < toks@.len() ==> #[trigger] tv[j] == toks@[j]@);
    }
    let c0 = toks.len() > 1 && is_float(toks[1].as_str());
    let c1 = c0 && toks.len() > 2 && is_float(toks[2].as_str());
    let c2 = c1 && toks.len() > 3 && is_float(toks[3].as_str());
    proof {
        assert(fpresent(tv, -1));
        assert(c0 == fpresent(tv, 0));
        assert(c1 == fpresent(tv, 1));
        assert(c2 == fpresent(tv, 2));
    }
    let x = if c0 {
        toks[1].clone()
    } else {
        zero_str()
    };
    let y = if c1 {
        toks[2].clone()
    } else {
        zero_str()
    };
    let z = if c2 {
        toks[3].clone()
    } else {
        zero_str()
    };
    Triple { x, y, z }
}

/// Resolves one `/`-separated sub-field against its buffer's current length.
fn resolve_field_exec(f: &str, len: usize, ln: usize) -> (r: Result<Option<usize>, Error>)
    ensures
        r == resolve_field(f@, len as nat, ln),
{
    if f.unicode_len() == 0 {
        return Ok(None);
    }
    match parse_signed(f) {
        None => Err(Error::ExpectedIdx(ln)),
        Some(v) => {
            if v == 0 {
                Err(Error::InvalidIndex(0))
            } else if v > 0 {
                Ok(Some(v as usize))
            } else {
                let a: i128 = -(v as i128);
                if (len as i128) >= a {
                    Ok(Some(((len as i128) - a + 1) as usize))
                } else {
                    Err(Error::InvalidIndex(v))
                }
            }
        },
    }
}

/// Resolves one face-vertex token into a vertex record.
fn resolve_one(tok: &String, plen: usize, ulen: usize, nlen: usize, ln: usize) -> (r: Result<
    VertexIndices,
    Error,
>)
    ensures
        r == resolve_vertex(tok@, plen as nat, ulen as nat, nlen as nat, ln),
{
    let fields = split_fields(tok.as_str());
    let ghost fv = fields@.map_values(|t: String| t@);
    proof {
        assert(forall|j: int| 0 <= j < fields@.len() ==> #[trigger] fv[j] == fields@[j]@);
    }
    let p = match resolve_field_exec(fields[0].as_str(), plen, ln) {
        Err(e) => {
            return Err(e);
        },
        Ok(p) => p,
    };
    let u = if fields.len() >= 2 {
        match resolve_field_exec(fields[1].as_str(), ulen, ln) {
            Err(e) => {
                return Err(e);
            },
            Ok(u) => u,
        }
    } else {
        None
    };
    let m = if fields.len() >= 3 {
        match resolve_field_exec(fields[2].as_str(), nlen, ln) {
            Err(e) => {
                return Err(e);
            },
            Ok(m) => m,
        }
    } else {
        None
    };
    match p {
        None => Err(Error::ExpectedIdx(ln)),
        Some(pi) => Ok(VertexIndices { pos: pi, uv: u, normal: m }),
    }
}

/// Flushes the in-progress object into the object list.
fn flush_exec(st: &mut ParseState)
    ensures
        final(st)@ == flush(old(st)@),
{
    if st.default_group.len() > 0 {
        let mut dg: Vec<VertexRange> = Vec::new();
        core::mem::swap(&mut dg, &mut st.default_group);
        put_group_exec(&mut st.groups, String::new(), dg);
    }
    let mut gs: Vec<GroupEntry> = Vec::new();
    core::mem::swap(&mut gs, &mut st.groups);
    if gs.len() > 0 {
        let name = match &st.cur_name {
            Some(n) => n.clone(),
            None => String::new(),
        };
        put_object_exec(&mut st.objects, name, gs);
    }
    st.selected = Vec::new();
    proof {
        assert(st@ =~~= flush(old(st)@));
    }
}

/// Applies an `f` line to the state, exactly as [`step_f`] describes.
fn handle_f(st: &mut ParseState, toks: &Vec<String>, ln: usize) -> (r: Result<(), Error>)
    requires
        toks@.len() >= 1,
    ensures
        match step_f(old(st)@, toks@.map_values(|t: String| t@), ln) {
            Ok(s2) => r is Ok && final(st)@ == s2,
            Err(e) => r is Err && r->Err_0 == e,
        },
{
    let ghost tv = toks@.map_values(|t: String| t@);
    proof {
        assert(forall|j: int| 0 <= j < toks@.len() ==> #[trigger] tv[j] == toks@[j]@);
    }
    {
        let plen = st.buffers.positions.len();
        let ulen = st.buffers.uvs.len();
        let nlen = st.buffers.normals.len();
        let mut recs: Vec<VertexIndices> = Vec::new();
        let mut i: usize = 1;
        proof {
            match resolve_terms(tv, 1, plen as nat, ulen as nat, nlen as nat, ln) {
                Ok(rest) => {
                    assert(recs@ + rest =~= rest);
                },
                Err(_) => {},
            }
        }
        while i < toks.len()
            invariant
                1 <= i <= toks@.len(),
                plen as nat == old(st)@.bufs.positions.len(),
                ulen as nat == old(st)@.bufs.uvs.len(),
                nlen as nat == old(st)@.bufs.normals.len(),
                st == old(st),
                tv == toks@.map_values(|t: String| t@),
                resolve_terms(tv, 1, plen as nat, ulen as nat, nlen as nat, ln) == (match
                    resolve_terms(tv, i as int, plen as nat, ulen as nat, nlen as nat, ln) {
                    Ok(rest) => Ok::<Seq<VertexIndices>, Error>(recs@ + rest),
                    Err(e) => Err::<Seq<VertexIndices>, Error>(e),
                }),
            decreases toks@.len() - i,
        {
            match resolve_one(&toks[i], plen, ulen, nlen, ln) {
                Err(e) => {
                    return Err(e);
                },
                Ok(rec) => {
                    let ghost recs_old = recs@;
                    recs.push(rec);
                    proof {
                        assert(tv[i as int] == toks@[i as int]@);
                        assert(resolve_terms(tv, i as int, plen as nat, ulen as nat, nlen as nat, ln)
                            == (match resolve_terms(tv, i + 1, plen as nat, ulen as nat, nlen as nat, ln) {
                            Ok(rest) => Ok::<Seq<VertexIndices>, Error>(seq![rec] + rest),
                            Err(e) => Err::<Seq<VertexIndices>, Error>(e),
                        }));
                        match resolve_terms(
                            tv,
                            i + 1,
                            plen as nat,
                            ulen as nat,
                            nlen as nat,
                            ln,
                        ) {
                            Ok(rest) => {
                                assert(recs@ + rest =~= recs_old + (seq![rec] + rest));
                            },
                            Err(_) => {},
                        }
                    }
                    i += 1;
                },
            }
        }
        proof {
            assert(resolve_terms(tv, 1, plen as nat, ulen as nat, nlen as nat, ln) == Ok::<
                Seq<VertexIndices>,
                Error,
            >(recs@)) by {
                assert(recs@ + Seq::<VertexIndices>::empty() =~= recs@);
            }
        }
        let start = st.buffers.vertices.len();
        st.buffers.vertices.append(&mut recs);
        let rng = VertexRange { start, end: st.buffers.vertices.len() };
        if st.selected.len() == 0 {
            st.default_group.push(rng);
            proof {
                assert(st@ =~~= step_f(old(st)@, tv, ln)->Ok_0);
            }
        } else {
            let ghost g0 = st@.groups;
            let ghost sel = st@.selected;
            let ghost mid = st@;
            let mut j: usize = 0;
            proof {
                assert(sel.take(0) =~= Seq::<Seq<char>>::empty());
                assert(st@ =~~= StateV { groups: add_poly_all(g0, sel.take(0), rng), ..mid });
            }
            while j < st.selected.len()
                invariant
                    j <= sel.len(),
                    rng.start <= rng.end,
                    st@ == (StateV { groups: add_poly_all(g0, sel.take(j as int), rng), ..mid }),
                decreases sel.len() - j,
            {
                let name = st.selected[j].clone();
                proof {
                    assert(name@ == sel[j as int]);
                }
                add_poly_exec(&mut st.groups, &name, rng);
                proof {
                    assert(sel.take(j + 1).drop_last() =~= sel.take(j as int));
                    assert(sel.take(j + 1).last() == sel[j as int]);
                    assert(st@ =~~= (StateV {
                        groups: add_poly_all(g0, sel.take(j + 1), rng),
                        ..mid
                    }));
                }
                j += 1;
            }
            proof {
                assert(sel.take(sel.len() as int) =~= sel);
                assert(st@ =~~= step_f(old(st)@, tv, ln)->Ok_0);
            }
        }
        Ok(())
    }
}

/// Applies a `g` line to the state, exactly as [`step_g`] describes.
fn handle_g(st: &mut ParseState, toks: &Vec<String>)
    requires
        toks@.len() >= 1,
    ensures
        final(st)@ == step_g(old(st)@, toks@.map_values(|t: String| t@)),
{
    let ghost tv = toks@.map_values(|t: String| t@);
    proof {
        assert(forall|j: int| 0 <= j < toks@.len() ==> #[trigger] tv[j] == toks@[j]@);
    }
    {
        let ghost g0 = st@.groups;
        let mut names: Vec<String> = Vec::new();
        let mut j: usize = 1;
        proof {
            assert(tv.drop_first().take(0) =~= Seq::<Seq<char>>::empty());
            assert(names@.map_values(|s: String| s@) =~= Seq::<Seq<char>>::empty());
            assert(st@ =~~= (StateV { groups: st@.groups, ..old(st)@ }));
        }
        while j < toks.len()
            invariant
                1 <= j <= toks@.len(),
                tv == toks@.map_values(|t: String| t@),
                names@.map_values(|s: String| s@) == filter_valid(
                    tv.drop_first().take(j - 1),
                ),
                st@.groups == ensure_groups(g0, filter_valid(tv.drop_first().take(j - 1))),
                st@ == (StateV { groups: st@.groups, ..old(st)@ }),
            decreases toks@.len() - j,
        {
            proof {
                assert(tv.drop_first().take(j as int).drop_last() =~= tv.drop_first().take(
                    j - 1,
                ));
                assert(tv.drop_first().take(j as int).last() == tv[j as int]);
            }
            if name_is_valid(toks[j].as_str()) {
                proof {
                    assert(tv[j as int] == toks@[j as int]@);
                }
                ensure_group_exec(&mut st.groups, &toks[j]);
                names.push(toks[j].clone());
                proof {
                    assert(names@.map_values(|s: String| s@) =~= names@.drop_last().map_values(
                        |s: String| s@,
                    ).push(tv[j as int]));
                    let fnew = filter_valid(tv.drop_first().take(j as int));
                    assert(fnew == filter_valid(tv.drop_first().take(j - 1)).push(tv[j as int]));
                    assert(fnew.drop_last() =~= filter_valid(tv.drop_first().take(j - 1)));
                    assert(fnew.last() == tv[j as int]);
                    assert(ensure_groups(g0, fnew) == ensure_group(
                        ensure_groups(g0, fnew.drop_last()),
                        fnew.last(),
                    ));
                }
            }
            proof {
                assert(st@ =~~= (StateV { groups: st@.groups, ..old(st)@ }));
            }
            j += 1;
        }
        proof {
            assert(tv.drop_first().take(tv.drop_first().len() as int) =~= tv.drop_first());
        }
        st.selected = names;
        proof {
            assert(st@ =~~= step_g(old(st)@, tv));
        }
    }
}

/// Applies one input line to the parse state.
fn step_line_exec(st: &mut ParseState, line: &str, ln: usize) -> (r: Result<(), Error>)
    ensures
        match step_line(old(st)@, line@, ln) {
            Ok(s2) => r is Ok && final(st)@ == s2,
            Err(e) => r is Err && r->Err_0 == e,
        },
{
    let toks = tokenize(line);
    let ghost tv = toks@.map_values(|t: String| t@);
    proof {
        assert(forall|j: int| 0 <= j < toks@.len() ==> #[trigger] tv[j] == toks@[j]@);
    }
    if toks.len() == 0 {
        return Ok(());
    }
    proof {
        reveal_strlit("v");
        reveal_strlit("vt");
        reveal_strlit("vn");
        reveal_strlit("f");
        reveal_strlit("g");
        reveal_strlit("o");
        assert("v"@ =~= seq!['v']);
        assert("vt"@ =~= seq!['v', 't']);
        assert("vn"@ =~= seq!['v', 'n']);
        assert("f"@ =~= seq!['f']);
        assert("g"@ =~= seq!['g']);
        assert("o"@ =~= seq!['o']);
    }
    if str_eq(toks[0].as_str(), "v") {
        let t = parse_triple(&toks);
        st.buffers.positions.push(t);
        proof {
            assert(st@ =~~= step_line(old(st)@, line@, ln)->Ok_0);
        }
        Ok(())
    } else if str_eq(toks[0].as_str(), "vt") {
        let t = parse_triple(&toks);
        st.buffers.uvs.push(t);
        proof {
            assert(st@ =~~= step_line(old(st)@, line@, ln)->Ok_0);
        }
        Ok(())
    } else if str_eq(toks[0].as_str(), "vn") {
        let t = parse_triple(&toks);
        st.buffers.normals.push(t);
        proof {
            assert(st@ =~~= step_line(old(st)@, line@, ln)->Ok_0);
        }
        Ok(())
    } else if str_eq(toks[0].as_str(), "f") {
        let r = handle_f(st, &toks, ln);
        proof {
            if r is Ok {
                assert(st@ == step_f(old(st)@, tv, ln)->Ok_0);
            }
        }
        r
    } else if str_eq(toks[0].as_str(), "g") {
        handle_g(st, &toks);
        Ok(())
    } else if str_eq(toks[0].as_str(), "o") {
        flush_exec(st);
        if toks.len() >= 2 && name_is_valid(toks[1].as_str()) {
            st.cur_name = Some(toks[1].clone());
            proof {
                assert(st@ =~~= step_line(old(st)@, line@, ln)->Ok_0);
            }
            Ok(())
        } else {
            Err(Error::ExpectedName(ln))
        }
    } else {
        Ok(())
    }
}

impl Obj {
    /// Read an OBJ from a sequence of its lines.
    ///
    /// Returns exactly what [`parse_lines_spec`] describes: the model built
    /// by folding every line through [`step_line`], flushed and validated —
    /// or the first error encountered. A returned model is well-formed.
    pub fn from_lines(lines: &Vec<String>) -> (r: Result<Obj, Error>)
        ensures
            match r {
                Ok(m) => parse_lines_spec(lines@.map_values(|l: String| l@)) == Ok::<ObjV, Error>(
                    m@,
                ) && m@.wf(),
                Err(e) => parse_lines_spec(lines@.map_values(|l: String| l@)) == Err::<
                    ObjV,
                    Error,
                >(e),
            },
    {
        let ghost lv = lines@.map_values(|l: String| l@);
        proof {
            assert(forall|j: int| 0 <= j < lines@.len() ==> #[trigger] lv[j] == lines@[j]@);
        }
        let mut st = ParseState {
            buffers: Buffers {
                positions: Vec::new(),
                uvs: Vec::new(),
                normals: Vec::new(),
                vertices: Vec::new(),
            },
            objects: Vec::new(),
            cur_name: None,
            groups: Vec::new(),
            default_group: Vec::new(),
            selected: Vec::new(),
        };
        proof {
            assert(st@ =~~= init_state());
            assert(lv.skip(0) =~= lv);
        }
        let mut i: usize = 0;
        while i < lines.len()
            invariant
                i <= lines@.len(),
                lv == lines@.map_values(|l: String| l@),
                parse_from(init_state(), lv, 1) == parse_from(st@, lv.skip(i as int), i + 1),
            decreases lines@.len() - i,
        {
            let ghost pre = st@;
            match step_line_exec(&mut st, lines[i].as_str(), i + 1) {
                Ok(()) => {
                    proof {
                        assert(lv.skip(i as int)[0] == lv[i as int]);
                        assert(lv.skip(i as int).drop_first() =~= lv.skip(i + 1));
                    }
                },
                Err(e) => {
                    proof {
                        assert(lv.skip(i as int)[0] == lv[i as int]);
                        assert(parse_from(pre, lv.skip(i as int), i + 1) == Err::<StateV, Error>(
                            e,
                        ));
                    }
                    return Err(e);
                },
            }
            i += 1;
        }
        proof {
            assert(lv.skip(i as int) =~= Seq::<Seq<char>>::empty());
            assert(parse_from(init_state(), lv, 1) == Ok::<StateV, Error>(st@));
        }
        let ghost parsed = st@;
        flush_exec(&mut st);
        let ghost st2 = st@;
        let mut k: usize = 0;
        proof {
            assert(st2.bufs.vertices.skip(0) =~= st2.bufs.vertices);
        }
        while k < st.buffers.vertices.len()
            invariant
                k <= st.buffers.vertices@.len(),
                st@ == st2,
                first_bad(st2.bufs.vertices, st2.bufs) == first_bad(
                    st2.bufs.vertices.skip(k as int),
                    st2.bufs,
                ),
                forall|j: int|
                    0 <= j < k ==> rec_bad(#[trigger] st2.bufs.vertices[j], st2.bufs) is None,
            decreases st.buffers.vertices@.len() - k,
        {
            let rec = st.buffers.vertices[k];
            proof {
                assert(st2.bufs.vertices.skip(k as int)[0] == st2.bufs.vertices[k as int]);
                assert(st2.bufs.vertices.skip(k as int).drop_first() =~= st2.bufs.vertices.skip(
                    k + 1,
                ));
            }
            if rec.pos < 1 || rec.pos > st.buffers.positions.len() {
                return Err(Error::InvalidIndex(#[verifier::truncate] (rec.pos as isize)));
            }
            match rec.uv {
                Some(u) => {
                    if u < 1 || u > st.buffers.uvs.len() {
                        return Err(Error::InvalidIndex(#[verifier::truncate] (u as isize)));
                    }
                },
                None => {},
            }
            match rec.normal {
                Some(m) => {
                    if m < 1 || m > st.buffers.normals.len() {
                        return Err(Error::InvalidIndex(#[verifier::truncate] (m as isize)));
                    }
                },
                None => {},
            }
            k += 1;
        }
        proof {
            assert(st2.bufs.vertices.skip(k as int) =~= Seq::<VertexIndices>::empty());
            assert(first_bad(st2.bufs.vertices, st2.bufs) is None);
            lemma_parse_wf(lv);
        }
        let obj = Obj { buffers: st.buffers, objects: st.objects };
        proof {
            assert(obj@ =~~= finish(parsed)->Ok_0);
        }
        Ok(obj)
    }
}

} // verus!
