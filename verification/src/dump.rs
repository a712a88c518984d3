//! A textual dump of a parsed model.
//!
//! [`Obj::dump`] reconstructs a format-like description of the model for
//! inspection: the attribute lines, then each object's groups and face
//! lines. It is not guaranteed to match the original input byte for byte.

use vstd::prelude::*;
use vstd::string::StringExecFns;

use crate::types::BufV;
use crate::types::GroupEntryV;
use crate::types::Obj;
use crate::types::ObjectEntryV;
use crate::types::Triple;
use crate::types::TripleV;
use crate::types::VertexIndices;
use crate::types::VertexRange;

verus! {

/// The decimal digits of `n`.
pub open spec fn dec_str(n: int) -> Seq<char>
    decreases n,
{
    if n < 0 {
        Seq::empty()
    } else if n < 10 {
        seq![((48 + n) as u8) as char]
    } else {
        dec_str(n / 10) + seq![((48 + n % 10) as u8) as char]
    }
}

/// One attribute line: the tag, the three value tokens, a newline.
pub open spec fn triple_line(tag: Seq<char>, t: TripleV) -> Seq<char> {
    tag + seq![' '] + t.x + seq![' '] + t.y + seq![' '] + t.z + seq!['\n']
}

/// The attribute lines of one buffer, in order.
pub open spec fn triples_text(tag: Seq<char>, ts: Seq<TripleV>) -> Seq<char>
    decreases ts.len(),
{
    if ts.len() == 0 {
        Seq::empty()
    } else {
        triples_text(tag, ts.drop_last()) + triple_line(tag, ts.last())
    }
}

/// One face vertex: ` pos/uv?/normal?`, absent references left empty.
pub open spec fn vertex_text(r: VertexIndices) -> Seq<char> {
    seq![' '] + dec_str(r.pos as int) + seq!['/'] + (match r.uv {
        Some(u) => dec_str(u as int),
        None => Seq::empty(),
    }) + seq!['/'] + (match r.normal {
        Some(m) => dec_str(m as int),
        None => Seq::empty(),
    })
}

/// The vertices of one face line with indices in `start..upto`, in order.
pub open spec fn range_text_upto(vs: Seq<VertexIndices>, start: int, upto: int) -> Seq<char>
    decreases upto - start,
{
    if upto <= start {
        Seq::empty()
    } else {
        range_text_upto(vs, start, upto - 1) + vertex_text(vs[upto - 1])
    }
}

/// One face line: `f`, its vertices, a newline.
pub open spec fn range_line(vs: Seq<VertexIndices>, rng: VertexRange) -> Seq<char> {
    seq!['f'] + range_text_upto(vs, rng.start as int, rng.end as int) + seq!['\n']
}

/// The face lines of one group, after its `g` line (absent for the
/// empty-named group).
pub open spec fn ranges_text(vs: Seq<VertexIndices>, polys: Seq<VertexRange>) -> Seq<char>
    decreases polys.len(),
{
    if polys.len() == 0 {
        Seq::empty()
    } else {
        ranges_text(vs, polys.drop_last()) + range_line(vs, polys.last())
    }
}

pub open spec fn group_text(vs: Seq<VertexIndices>, g: GroupEntryV) -> Seq<char> {
    (if g.name.len() > 0 {
        seq!['g', ' '] + g.name + seq!['\n']
    } else {
        Seq::empty()
    }) + ranges_text(vs, g.polys)
}

pub open spec fn groups_text(vs: Seq<VertexIndices>, gs: Seq<GroupEntryV>) -> Seq<char>
    decreases gs.len(),
{
    if gs.len() == 0 {
        Seq::empty()
    } else {
        groups_text(vs, gs.drop_last()) + group_text(vs, gs.last())
    }
}

pub open spec fn object_text(vs: Seq<VertexIndices>, o: ObjectEntryV) -> Seq<char> {
    (if o.name.len() > 0 {
        seq!['o', ' '] + o.name + seq!['\n']
    } else {
        Seq::empty()
    }) + groups_text(vs, o.groups)
}

pub open spec fn objects_text(vs: Seq<VertexIndices>, os: Seq<ObjectEntryV>) -> Seq<char>
    decreases os.len(),
{
    if os.len() == 0 {
        Seq::empty()
    } else {
        objects_text(vs, os.drop_last()) + object_text(vs, os.last())
    }
}

/// The whole dump: the three attribute buffers, then every object.
pub open spec fn dump_text(m: crate::types::ObjV) -> Seq<char> {
    triples_text(seq!['v'], m.bufs.positions) + triples_text(seq!['v', 't'], m.bufs.uvs)
        + triples_text(seq!['v', 'n'], m.bufs.normals) + objects_text(
        m.bufs.vertices,
        m.objects,
    )
}

/// Appends the decimal digits of `n` to `out`.
fn push_dec(out: &mut String, n: usize)
    ensures
        final(out)@ == old(out)@ + dec_str(n as int),
    decreases n,
{
    if n >= 10 {
        push_dec(out, n / 10);
    }
    let d = n % 10;
    match d {
        0 => out.append("0"),
        1 => out.append("1"),
        2 => out.append("2"),
        3 => out.append("3"),
        4 => out.append("4"),
        5 => out.append("5"),
        6 => out.append("6"),
        7 => out.append("7"),
        8 => out.append("8"),
        _ => out.append("9"),
    }
    proof {
        reveal_strlit("0");
        reveal_strlit("1");
        reveal_strlit("2");
        reveal_strlit("3");
        reveal_strlit("4");
        reveal_strlit("5");
        reveal_strlit("6");
        reveal_strlit("7");
        reveal_strlit("8");
        reveal_strlit("9");
        assert(out@ =~= old(out)@ + dec_str(n as int));
    }
}

fn push_triples(out: &mut String, tag: &str, ts: &Vec<Triple>)
    ensures
        final(out)@ == old(out)@ + triples_text(tag@, ts@.map_values(|t: Triple| t@)),
{
    let ghost tv = ts@.map_values(|t: Triple| t@);
    let mut i: usize = 0;
    proof {
        assert(out@ =~= out@ + triples_text(tag@, tv.take(0)));
    }
    while i < ts.len()
        invariant
            i <= ts@.len(),
            tv == ts@.map_values(|t: Triple| t@),
            out@ == old(out)@ + triples_text(tag@, tv.take(i as int)),
        decreases ts@.len() - i,
    {
        let t = &ts[i];
        out.append(tag);
        out.append(" ");
        out.append(t.x.as_str());
        out.append(" ");
        out.append(t.y.as_str());
        out.append(" ");
        out.append(t.z.as_str());
        out.append("\n");
        proof {
            reveal_strlit(" ");
            reveal_strlit("\n");
            assert(tv.take(i + 1).drop_last() =~= tv.take(i as int));
            assert(tv[i as int] == ts@[i as int]@);
            assert(out@ =~= old(out)@ + triples_text(tag@, tv.take(i + 1)));
        }
        i += 1;
    }
    proof {
        assert(tv.take(tv.len() as int) =~= tv);
    }
}

fn push_range(out: &mut String, vs: &Vec<VertexIndices>, rng: VertexRange)
    requires
        rng.start <= rng.end <= vs@.len(),
    ensures
        final(out)@ == old(out)@ + range_line(vs@, rng),
{
    out.append("f");
    proof {
        reveal_strlit("f");
        assert(out@ =~= old(out)@ + seq!['f'] + range_text_upto(
            vs@,
            rng.start as int,
            rng.start as int,
        ));
    }
    let mut i = rng.start;
    while i < rng.end
        invariant
            rng.start <= i <= rng.end <= vs@.len(),
            out@ == old(out)@ + seq!['f'] + range_text_upto(vs@, rng.start as int, i as int),
        decreases rng.end - i,
    {
        let r = vs[i];
        out.append(" ");
        push_dec(out, r.pos);
        out.append("/");
        match r.uv {
            Some(u) => push_dec(out, u),
            None => {},
        }
        out.append("/");
        match r.normal {
            Some(m) => push_dec(out, m),
            None => {},
        }
        proof {
            reveal_strlit(" ");
            reveal_strlit("/");
            assert(out@ =~= old(out)@ + seq!['f'] + range_text_upto(
                vs@,
                rng.start as int,
                i + 1,
            ));
        }
        i += 1;
    }
    out.append("\n");
    proof {
        reveal_strlit("\n");
        assert(out@ =~= old(out)@ + range_line(vs@, rng));
    }
}

fn push_ranges(out: &mut String, vs: &Vec<VertexIndices>, polys: &Vec<VertexRange>)
    requires
        forall|i: int|
            0 <= i < polys@.len() ==> (#[trigger] polys@[i]).start <= polys@[i].end <= vs@.len(),
    ensures
        final(out)@ == old(out)@ + ranges_text(vs@, polys@),
{
    let mut i: usize = 0;
    proof {
        assert(out@ =~= out@ + ranges_text(vs@, polys@.take(0)));
    }
    while i < polys.len()
        invariant
            i <= polys@.len(),
            forall|j: int|
                0 <= j < polys@.len() ==> (#[trigger] polys@[j]).start <= polys@[j].end
                    <= vs@.len(),
            out@ == old(out)@ + ranges_text(vs@, polys@.take(i as int)),
        decreases polys@.len() - i,
    {
        push_range(out, vs, polys[i]);
        proof {
            assert(polys@.take(i + 1).drop_last() =~= polys@.take(i as int));
            assert(out@ =~= old(out)@ + ranges_text(vs@, polys@.take(i + 1)));
        }
        i += 1;
    }
    proof {
        assert(polys@.take(polys@.len() as int) =~= polys@);
    }
}

impl Obj {
    /// Reconstructs a format-like textual description of this model: the
    /// attribute lines, then each object's groups and face lines. It is not
    /// guaranteed to match the original input byte for byte.
    #[verifier::rlimit(60)]
    pub fn dump(&self) -> (r: String)
        requires
            self@.wf(),
        ensures
            r@ == dump_text(self@),
    {
        let mut out = String::new();
        push_triples(&mut out, "v", &self.buffers.positions);
        push_triples(&mut out, "vt", &self.buffers.uvs);
        push_triples(&mut out, "vn", &self.buffers.normals);
        let ghost ov = self@.objects;
        let ghost base = out@;
        proof {
            reveal_strlit("v");
            reveal_strlit("vt");
            reveal_strlit("vn");
            assert("v"@ =~= seq!['v']);
            assert("vt"@ =~= seq!['v', 't']);
            assert("vn"@ =~= seq!['v', 'n']);
            assert(out@ =~= base + objects_text(self@.bufs.vertices, ov.take(0)));
        }
        let mut i: usize = 0;
        while i < self.objects.len()
            invariant
                i <= self@.objects.len(),
                ov == self@.objects,
                self@.wf(),
                base == triples_text(seq!['v'], self@.bufs.positions) + triples_text(
                    seq!['v', 't'],
                    self@.bufs.uvs,
                ) + triples_text(seq!['v', 'n'], self@.bufs.normals),
                out@ == base + objects_text(self@.bufs.vertices, ov.take(i as int)),
            decreases self@.objects.len() - i,
        {
            let e = &self.objects[i];
            proof {
                assert(ov[i as int] == self.objects@[i as int]@);
            }
            if !e.name.as_str().is_empty() {
                out.append("o ");
                out.append(e.name.as_str());
                out.append("\n");
            }
            let ghost gbase = out@;
            let ghost gv = ov[i as int].groups;
            let mut j: usize = 0;
            proof {
                assert(out@ =~= gbase + groups_text(self@.bufs.vertices, gv.take(0)));
            }
            while j < e.groups.len()
                invariant
                    j <= gv.len(),
                    gv == ov[i as int].groups,
                    i < ov.len(),
                    ov[i as int] == self.objects@[i as int]@,
                    e == &self.objects@[i as int],
                    self@.wf(),
                    ov == self@.objects,
                    out@ == gbase + groups_text(self@.bufs.vertices, gv.take(j as int)),
                decreases gv.len() - j,
            {
                let g = &e.groups[j];
                proof {
                    assert(gv[j as int] == e.groups@[j as int]@);
                }
                if !g.name.as_str().is_empty() {
                    out.append("g ");
                    out.append(g.name.as_str());
                    out.append("\n");
                }
                proof {
                    assert(crate::types::groups_wf(gv, self@.bufs.vertices.len()));
                    assert(crate::types::ranges_wf(gv[j as int].polys, self@.bufs.vertices.len()));
                    assert(forall|k: int|
                        0 <= k < g.polys@.len() ==> (#[trigger] g.polys@[k]).start
                            <= g.polys@[k].end <= self.buffers.vertices@.len());
                }
                push_ranges(&mut out, &self.buffers.vertices, &g.polys);
                proof {
                    reveal_strlit("g ");
                    reveal_strlit("\n");
                    assert("g "@ =~= seq!['g', ' ']);
                    assert(gv.take(j + 1).drop_last() =~= gv.take(j as int));
                    assert(out@ =~= gbase + groups_text(self@.bufs.vertices, gv.take(j + 1)));
                }
                j += 1;
            }
            proof {
                reveal_strlit("o ");
                reveal_strlit("\n");
                assert("o "@ =~= seq!['o', ' ']);
                assert(gv.take(gv.len() as int) =~= gv);
                assert(ov.take(i + 1).drop_last() =~= ov.take(i as int));
                assert(out@ =~= base + objects_text(self@.bufs.vertices, ov.take(i + 1)));
            }
            i += 1;
        }
        proof {
            assert(ov.take(ov.len() as int) =~= ov);
            assert(out@ =~= dump_text(self@));
        }
        out
    }
}

} // verus!
