//! The hierarchical, read-only view layer: object, group, polygon, vertex.
//!
//! Every view is a non-owning reference into a model's buffers. A view of a
//! well-formed model resolves every lookup within bounds, so the accessors
//! below return values (not failures) wherever an index is in range.
//! Iteration methods return freshly built vectors; each call is independent
//! and nothing is mutated.

use vstd::prelude::*;

use crate::types::BufV;
use crate::types::Buffers;
use crate::types::GroupEntry;
use crate::types::GroupEntryV;
use crate::types::ObjectEntryV;
use crate::types::Obj;
use crate::types::Triple;
use crate::types::VertexIndices;
use crate::types::VertexRange;
use crate::types::bufs_wf;
use crate::types::group_index;
use crate::types::groups_wf;
use crate::types::object_index;
use crate::types::ranges_wf;
use crate::types::rec_wf;

verus! {

/// An object defined in an OBJ.
#[derive(Clone, Copy)]
pub struct Object<'a> {
    pub buffers: &'a Buffers,
    pub groups: &'a Vec<GroupEntry>,
}

#[verifier::ext_equal]
pub ghost struct ObjectW {
    pub bufs: BufV,
    pub groups: Seq<GroupEntryV>,
}

impl<'a> View for Object<'a> {
    type V = ObjectW;

    open spec fn view(&self) -> ObjectW {
        ObjectW {
            bufs: (*self.buffers)@,
            groups: self.groups@.map_values(|g: GroupEntry| g@),
        }
    }
}

/// A group defined in an OBJ.
#[derive(Clone, Copy)]
pub struct Group<'a> {
    pub buffers: &'a Buffers,
    pub polys: &'a Vec<VertexRange>,
}

#[verifier::ext_equal]
pub ghost struct GroupW {
    pub bufs: BufV,
    pub polys: Seq<VertexRange>,
}

impl<'a> View for Group<'a> {
    type V = GroupW;

    open spec fn view(&self) -> GroupW {
        GroupW { bufs: (*self.buffers)@, polys: self.polys@ }
    }
}

/// A polygon defined in an OBJ: a contiguous range of the vertex table.
#[derive(Clone, Copy)]
pub struct Polygon<'a> {
    pub buffers: &'a Buffers,
    pub start: usize,
    pub end: usize,
}

#[verifier::ext_equal]
pub ghost struct PolyW {
    pub bufs: BufV,
    pub start: int,
    pub end: int,
}

impl<'a> View for Polygon<'a> {
    type V = PolyW;

    open spec fn view(&self) -> PolyW {
        PolyW { bufs: (*self.buffers)@, start: self.start as int, end: self.end as int }
    }
}

/// A vertex defined in an OBJ.
#[derive(Clone, Copy)]
pub struct Vertex<'a> {
    pub buffers: &'a Buffers,
    pub indices: VertexIndices,
}

#[verifier::ext_equal]
pub ghost struct VertW {
    pub bufs: BufV,
    pub rec: VertexIndices,
}

impl<'a> View for Vertex<'a> {
    type V = VertW;

    open spec fn view(&self) -> VertW {
        VertW { bufs: (*self.buffers)@, rec: self.indices }
    }
}

impl ObjectW {
    pub open spec fn wf(self) -> bool {
        bufs_wf(self.bufs) && groups_wf(self.groups, self.bufs.vertices.len())
    }
}

impl GroupW {
    pub open spec fn wf(self) -> bool {
        bufs_wf(self.bufs) && ranges_wf(self.polys, self.bufs.vertices.len())
    }
}

impl PolyW {
    pub open spec fn wf(self) -> bool {
        bufs_wf(self.bufs) && 0 <= self.start <= self.end <= self.bufs.vertices.len()
    }
}

impl VertW {
    pub open spec fn wf(self) -> bool {
        bufs_wf(self.bufs) && rec_wf(self.rec, self.bufs)
    }
}

/// The number of triangles the fan decomposition yields for a polygon of
/// `n` vertices.
pub open spec fn tri_count(n: int) -> int {
    if n <= 0 {
        0
    } else {
        (n - 1) / 2
    }
}

/// One triangle of the fan, as three vertex records.
#[verifier::ext_equal]
pub ghost struct TriW {
    pub a: VertexIndices,
    pub b: VertexIndices,
    pub c: VertexIndices,
}

/// The fan triangles of one polygon range: triangle `i` is the records at
/// `start`, `start + 2 i + 1` and `start + 2 i + 2`.
pub open spec fn poly_tris(vs: Seq<VertexIndices>, rng: VertexRange) -> Seq<TriW> {
    Seq::new(
        tri_count(rng.end - rng.start) as nat,
        |i: int|
            TriW {
                a: vs[rng.start as int],
                b: vs[rng.start + 2 * i + 1],
                c: vs[rng.start + 2 * i + 2],
            },
    )
}

/// The triangles of a list of polygon ranges, in order.
pub open spec fn ranges_tris(vs: Seq<VertexIndices>, polys: Seq<VertexRange>) -> Seq<TriW>
    decreases polys.len(),
{
    if polys.len() == 0 {
        Seq::empty()
    } else {
        ranges_tris(vs, polys.drop_last()) + poly_tris(vs, polys.last())
    }
}

/// The polygon ranges of a list of groups, in order.
pub open spec fn groups_polys(gs: Seq<GroupEntryV>) -> Seq<VertexRange>
    decreases gs.len(),
{
    if gs.len() == 0 {
        Seq::empty()
    } else {
        groups_polys(gs.drop_last()) + gs.last().polys
    }
}

/// The triangles of a list of groups, in order.
pub open spec fn groups_tris(vs: Seq<VertexIndices>, gs: Seq<GroupEntryV>) -> Seq<TriW>
    decreases gs.len(),
{
    if gs.len() == 0 {
        Seq::empty()
    } else {
        groups_tris(vs, gs.drop_last()) + ranges_tris(vs, gs.last().polys)
    }
}

/// The group entries of a list of objects, in order.
pub open spec fn objects_groups(os: Seq<ObjectEntryV>) -> Seq<GroupEntryV>
    decreases os.len(),
{
    if os.len() == 0 {
        Seq::empty()
    } else {
        objects_groups(os.drop_last()) + os.last().groups
    }
}

/// Whether a built vector of triangles presents exactly the given records.
pub open spec fn tris_match<'a>(out: Seq<[Vertex<'a>; 3]>, flat: Seq<TriW>, bufs: BufV) -> bool {
    &&& out.len() == flat.len()
    &&& forall|i: int|
        0 <= i < out.len() ==> {
            &&& (#[trigger] out[i])[0]@ == (VertW { bufs, rec: flat[i].a })
            &&& out[i][1]@ == (VertW { bufs, rec: flat[i].b })
            &&& out[i][2]@ == (VertW { bufs, rec: flat[i].c })
            &&& out[i][0]@.wf() && out[i][1]@.wf() && out[i][2]@.wf()
        }
}

/// Whether a built vector of polygons presents exactly the given ranges.
pub open spec fn polys_match<'a>(out: Seq<Polygon<'a>>, flat: Seq<VertexRange>, bufs: BufV) -> bool {
    &&& out.len() == flat.len()
    &&& forall|i: int|
        0 <= i < out.len() ==> (#[trigger] out[i])@ == (PolyW {
            bufs,
            start: flat[i].start as int,
            end: flat[i].end as int,
        }) && out[i]@.wf()
}

/// Whether a built vector of named groups presents exactly the given entries.
pub open spec fn groups_match<'a>(
    out: Seq<(&'a String, Group<'a>)>,
    flat: Seq<GroupEntryV>,
    bufs: BufV,
) -> bool {
    &&& out.len() == flat.len()
    &&& forall|i: int|
        0 <= i < out.len() ==> {
            &&& (#[trigger] out[i]).0@ == flat[i].name
            &&& out[i].1@ == (GroupW { bufs, polys: flat[i].polys })
            &&& out[i].1@.wf()
        }
}

/// Every vertex of a well-formed model resolves within the attribute
/// buffers: its zero-based position index is below the position count, and
/// its texture-coordinate and normal indices, where present, are below
/// their buffers' counts.
pub proof fn lemma_vertex_in_bounds(v: VertW)
    requires
        v.wf(),
    ensures
        v.rec.pos - 1 < v.bufs.positions.len(),
        match v.rec.uv {
            Some(u) => u - 1 < v.bufs.uvs.len(),
            None => true,
        },
        match v.rec.normal {
            Some(m) => m - 1 < v.bufs.normals.len(),
            None => true,
        },
{
}

/// The fan decomposition of a polygon of `n` vertices yields exactly
/// `(n - 1) / 2` triangles, and the first vertex of every triangle is the
/// polygon's first vertex.
pub proof fn lemma_fan_shape(vs: Seq<VertexIndices>, rng: VertexRange)
    ensures
        poly_tris(vs, rng).len() == tri_count(rng.end - rng.start),
        forall|i: int|
            0 <= i < poly_tris(vs, rng).len() ==> #[trigger] poly_tris(vs, rng)[i].a == vs[rng.start as int],
{
}

impl<'a> Vertex<'a> {
    /// Returns the index of the vertex's position in [`Obj::positions`].
    ///
    /// Note that, unlike OBJ files themselves, this is zero-indexed.
    pub fn position_index(&self) -> (r: usize)
        requires
            self@.wf(),
        ensures
            r + 1 == self@.rec.pos,
            r < self@.bufs.positions.len(),
    {
        self.indices.pos - 1
    }

    /// Returns the position of this vertex.
    pub fn position(&self) -> (r: &'a Triple)
        requires
            self@.wf(),
        ensures
            r@ == self@.bufs.positions[self@.rec.pos - 1],
    {
        &self.buffers.positions[self.indices.pos - 1]
    }

    /// Returns the index of the vertex's texture coordinate, if it has one,
    /// in [`Obj::uvs`]. Zero-indexed.
    pub fn uv_index(&self) -> (r: Option<usize>)
        requires
            self@.wf(),
        ensures
            match self@.rec.uv {
                Some(u) => r == Some((u - 1) as usize) && u - 1 < self@.bufs.uvs.len(),
                None => r is None,
            },
    {
        match self.indices.uv {
            Some(u) => Some(u - 1),
            None => None,
        }
    }

    /// Returns the texture coordinate of this vertex, if it has one.
    pub fn uv(&self) -> (r: Option<&'a Triple>)
        requires
            self@.wf(),
        ensures
            match self@.rec.uv {
                Some(u) => r is Some && r->Some_0@ == self@.bufs.uvs[u - 1],
                None => r is None,
            },
    {
        match self.indices.uv {
            Some(u) => Some(&self.buffers.uvs[u - 1]),
            None => None,
        }
    }

    /// Returns the index of the vertex's normal, if it has one, in
    /// [`Obj::normals`]. Zero-indexed.
    pub fn normal_index(&self) -> (r: Option<usize>)
        requires
            self@.wf(),
        ensures
            match self@.rec.normal {
                Some(m) => r == Some((m - 1) as usize) && m - 1 < self@.bufs.normals.len(),
                None => r is None,
            },
    {
        match self.indices.normal {
            Some(m) => Some(m - 1),
            None => None,
        }
    }

    /// Returns the normal of this vertex, if it has one.
    pub fn normal(&self) -> (r: Option<&'a Triple>)
        requires
            self@.wf(),
        ensures
            match self@.rec.normal {
                Some(m) => r is Some && r->Some_0@ == self@.bufs.normals[m - 1],
                None => r is None,
            },
    {
        match self.indices.normal {
            Some(m) => Some(&self.buffers.normals[m - 1]),
            None => None,
        }
    }
}

impl<'a> Polygon<'a> {
    /// The number of vertices of this polygon.
    pub fn vertex_count(&self) -> (r: usize)
        requires
            self@.wf(),
        ensures
            r == self@.end - self@.start,
    {
        self.end - self.start
    }

    /// The vertex at offset `i` of this polygon; the bounds are known to
    /// hold, so no failure case is needed.
    fn vtx(&self, i: usize) -> (v: Vertex<'a>)
        requires
            self@.wf(),
            self@.start + i < self@.end,
        ensures
            v@ == (VertW { bufs: self@.bufs, rec: self@.bufs.vertices[self@.start + i] }),
            v@.wf(),
    {
        Vertex { buffers: self.buffers, indices: self.buffers.vertices[self.start + i] }
    }

    /// Returns a specific [`Vertex`] by index.
    pub fn vertex(&self, index: usize) -> (r: Option<Vertex<'a>>)
        requires
            self@.wf(),
        ensures
            match r {
                Some(v) => index < self@.end - self@.start && v@ == (VertW {
                    bufs: self@.bufs,
                    rec: self@.bufs.vertices[self@.start + index],
                }) && v@.wf(),
                None => index >= self@.end - self@.start,
            },
    {
        if index < self.end - self.start {
            Some(self.vtx(index))
        } else {
            None
        }
    }

    /// Returns the [`Vertex`]es of this [`Polygon`], in winding order.
    pub fn vertices(&self) -> (r: Vec<Vertex<'a>>)
        requires
            self@.wf(),
        ensures
            r@.len() == self@.end - self@.start,
            forall|i: int|
                0 <= i < r@.len() ==> (#[trigger] r@[i])@ == (VertW {
                    bufs: self@.bufs,
                    rec: self@.bufs.vertices[self@.start + i],
                }) && r@[i]@.wf(),
    {
        let mut out: Vec<Vertex<'a>> = Vec::new();
        let n = self.end - self.start;
        let mut i: usize = 0;
        while i < n
            invariant
                i <= n,
                n == self@.end - self@.start,
                self@.wf(),
                out@.len() == i,
                forall|j: int|
                    0 <= j < i ==> (#[trigger] out@[j])@ == (VertW {
                        bufs: self@.bufs,
                        rec: self@.bufs.vertices[self@.start + j],
                    }) && out@[j]@.wf(),
            decreases n - i,
        {
            out.push(self.vtx(i));
            i += 1;
        }
        out
    }

    /// Splits this [`Polygon`] into a fan of triangles anchored at its first
    /// vertex. The fan advances by two vertices per triangle: a polygon of
    /// `n` vertices yields exactly `(n - 1) / 2` triangles, triangle `i`
    /// holding the vertices at offsets `0`, `2 i + 1` and `2 i + 2`. For
    /// polygons with more than four sides this does not visit every vertex;
    /// that recurrence is part of the format this crate implements and is
    /// kept as it stands. The polygon is assumed planar and non-self-
    /// intersecting; nothing checks that.
    pub fn triangles(&self) -> (r: Vec<[Vertex<'a>; 3]>)
        requires
            self@.wf(),
        ensures
            tris_match(r@, poly_tris(self@.bufs.vertices, self.rng()), self@.bufs),
            r@.len() == tri_count(self@.end - self@.start),
            forall|i: int|
                0 <= i < r@.len() ==> (#[trigger] r@[i])[0]@.wf() && r@[i][1]@.wf()
                    && r@[i][2]@.wf(),
    {
        let n = self.end - self.start;
        let cnt = if n == 0 {
            0
        } else {
            (n - 1) / 2
        };
        let mut out: Vec<[Vertex<'a>; 3]> = Vec::new();
        let mut i: usize = 0;
        while i < cnt
            invariant
                i <= cnt,
                n == self@.end - self@.start,
                cnt == tri_count(n as int),
                self@.wf(),
                out@.len() == i,
                forall|j: int|
                    0 <= j < i ==> {
                        &&& (#[trigger] out@[j])[0]@ == (VertW {
                            bufs: self@.bufs,
                            rec: self@.bufs.vertices[self@.start],
                        })
                        &&& out@[j][1]@ == (VertW {
                            bufs: self@.bufs,
                            rec: self@.bufs.vertices[self@.start + 2 * j + 1],
                        })
                        &&& out@[j][2]@ == (VertW {
                            bufs: self@.bufs,
                            rec: self@.bufs.vertices[self@.start + 2 * j + 2],
                        })
                        &&& out@[j][0]@.wf() && out@[j][1]@.wf() && out@[j][2]@.wf()
                    },
            decreases cnt - i,
        {
            let tri = [self.vtx(0), self.vtx(2 * i + 1), self.vtx(2 * i + 2)];
            out.push(tri);
            i += 1;
        }
        out
    }

    /// The range of the vertex table this polygon spans.
    pub open spec fn rng(&self) -> VertexRange {
        VertexRange { start: self.start, end: self.end }
    }
}

proof fn lemma_tris_match_concat<'a>(
    a: Seq<[Vertex<'a>; 3]>,
    fa: Seq<TriW>,
    b: Seq<[Vertex<'a>; 3]>,
    fb: Seq<TriW>,
    bufs: BufV,
)
    requires
        tris_match(a, fa, bufs),
        tris_match(b, fb, bufs),
    ensures
        tris_match(a + b, fa + fb, bufs),
{
    assert forall|i: int| 0 <= i < (a + b).len() implies {
        &&& (#[trigger] (a + b)[i])[0]@ == (VertW { bufs, rec: (fa + fb)[i].a })
        &&& (a + b)[i][1]@ == (VertW { bufs, rec: (fa + fb)[i].b })
        &&& (a + b)[i][2]@ == (VertW { bufs, rec: (fa + fb)[i].c })
        &&& (a + b)[i][0]@.wf() && (a + b)[i][1]@.wf() && (a + b)[i][2]@.wf()
    } by {
        if i < a.len() {
            assert((a + b)[i] == a[i]);
        } else {
            assert((a + b)[i] == b[i - a.len()]);
        }
    }
}

proof fn lemma_polys_match_concat<'a>(
    a: Seq<Polygon<'a>>,
    fa: Seq<VertexRange>,
    b: Seq<Polygon<'a>>,
    fb: Seq<VertexRange>,
    bufs: BufV,
)
    requires
        polys_match(a, fa, bufs),
        polys_match(b, fb, bufs),
    ensures
        polys_match(a + b, fa + fb, bufs),
{
    assert forall|i: int| 0 <= i < (a + b).len() implies (#[trigger] (a + b)[i])@ == (PolyW {
        bufs,
        start: (fa + fb)[i].start as int,
        end: (fa + fb)[i].end as int,
    }) && (a + b)[i]@.wf() by {
        if i < a.len() {
            assert((a + b)[i] == a[i]);
        } else {
            assert((a + b)[i] == b[i - a.len()]);
        }
    }
}

/// Flattening groups one object at a time agrees with flattening them all.
proof fn lemma_groups_tris_concat(vs: Seq<VertexIndices>, a: Seq<GroupEntryV>, b: Seq<GroupEntryV>)
    ensures
        groups_tris(vs, a + b) == groups_tris(vs, a) + groups_tris(vs, b),
    decreases b.len(),
{
    if b.len() == 0 {
        assert(a + b =~= a);
        assert(groups_tris(vs, a) + Seq::<TriW>::empty() =~= groups_tris(vs, a));
    } else {
        assert((a + b).drop_last() =~= a + b.drop_last());
        assert((a + b).last() == b.last());
        lemma_groups_tris_concat(vs, a, b.drop_last());
        assert((groups_tris(vs, a) + groups_tris(vs, b.drop_last())) + ranges_tris(
            vs,
            b.last().polys,
        ) =~= groups_tris(vs, a) + (groups_tris(vs, b.drop_last()) + ranges_tris(
            vs,
            b.last().polys,
        )));
    }
}

proof fn lemma_groups_polys_concat(a: Seq<GroupEntryV>, b: Seq<GroupEntryV>)
    ensures
        groups_polys(a + b) == groups_polys(a) + groups_polys(b),
    decreases b.len(),
{
    if b.len() == 0 {
        assert(a + b =~= a);
        assert(groups_polys(a) + Seq::<VertexRange>::empty() =~= groups_polys(a));
    } else {
        assert((a + b).drop_last() =~= a + b.drop_last());
        assert((a + b).last() == b.last());
        lemma_groups_polys_concat(a, b.drop_last());
        assert((groups_polys(a) + groups_polys(b.drop_last())) + b.last().polys =~= groups_polys(
            a,
        ) + (groups_polys(b.drop_last()) + b.last().polys));
    }
}

impl<'a> Group<'a> {
    /// Returns a specific [`Polygon`] by index.
    pub fn polygon(&self, index: usize) -> (r: Option<Polygon<'a>>)
        requires
            self@.wf(),
        ensures
            match r {
                Some(p) => index < self@.polys.len() && p@ == (PolyW {
                    bufs: self@.bufs,
                    start: self@.polys[index as int].start as int,
                    end: self@.polys[index as int].end as int,
                }) && p@.wf(),
                None => index >= self@.polys.len(),
            },
    {
        if index < self.polys.len() {
            let rng = self.polys[index];
            Some(Polygon { buffers: self.buffers, start: rng.start, end: rng.end })
        } else {
            None
        }
    }

    /// Returns the [`Polygon`]s of this [`Group`], in source order.
    pub fn polygons(&self) -> (r: Vec<Polygon<'a>>)
        requires
            self@.wf(),
        ensures
            polys_match(r@, self@.polys, self@.bufs),
    {
        let mut out: Vec<Polygon<'a>> = Vec::new();
        let mut i: usize = 0;
        while i < self.polys.len()
            invariant
                i <= self@.polys.len(),
                self@.wf(),
                out@.len() == i,
                polys_match(out@, self@.polys.take(i as int), self@.bufs),
            decreases self@.polys.len() - i,
        {
            let rng = self.polys[i];
            out.push(Polygon { buffers: self.buffers, start: rng.start, end: rng.end });
            proof {
                assert(self@.polys.take(i + 1).drop_last() =~= self@.polys.take(i as int));
            }
            i += 1;
        }
        proof {
            assert(self@.polys.take(self@.polys.len() as int) =~= self@.polys);
        }
        out
    }

    /// Returns the triangles of this [`Group`]: the fans of its polygons,
    /// in source order. See [`Polygon::triangles`].
    pub fn triangles(&self) -> (r: Vec<[Vertex<'a>; 3]>)
        requires
            self@.wf(),
        ensures
            tris_match(r@, ranges_tris(self@.bufs.vertices, self@.polys), self@.bufs),
    {
        let mut out: Vec<[Vertex<'a>; 3]> = Vec::new();
        let mut i: usize = 0;
        while i < self.polys.len()
            invariant
                i <= self@.polys.len(),
                self@.wf(),
                tris_match(
                    out@,
                    ranges_tris(self@.bufs.vertices, self@.polys.take(i as int)),
                    self@.bufs,
                ),
            decreases self@.polys.len() - i,
        {
            let rng = self.polys[i];
            let p = Polygon { buffers: self.buffers, start: rng.start, end: rng.end };
            proof {
                assert(p@.wf());
            }
            let ghost out0 = out@;
            let mut t = p.triangles();
            let ghost tw = t@;
            out.append(&mut t);
            proof {
                assert(self@.polys.take(i + 1).drop_last() =~= self@.polys.take(i as int));
                lemma_tris_match_concat(
                    out0,
                    ranges_tris(self@.bufs.vertices, self@.polys.take(i as int)),
                    tw,
                    poly_tris(self@.bufs.vertices, self@.polys[i as int]),
                    self@.bufs,
                );
            }
            i += 1;
        }
        proof {
            assert(self@.polys.take(self@.polys.len() as int) =~= self@.polys);
        }
        out
    }
}

impl<'a> Object<'a> {
    /// Returns a specific [`Group`] by name.
    ///
    /// Note that if a name is not specified in the OBJ file, the name
    /// defaults to an empty string.
    pub fn group(&self, name: &str) -> (r: Option<Group<'a>>)
        requires
            self@.wf(),
        ensures
            match r {
                Some(g) => {
                    let k = group_index(self@.groups, name@);
                    &&& k >= 0
                    &&& g@ == (GroupW { bufs: self@.bufs, polys: self@.groups[k].polys })
                    &&& g@.wf()
                },
                None => group_index(self@.groups, name@) == -1,
            },
    {
        match crate::parse::find_group(self.groups, name) {
            Some(i) => Some(Group { buffers: self.buffers, polys: &self.groups[i].polys }),
            None => None,
        }
    }

    /// Returns the named [`Group`]s of this [`Object`].
    pub fn groups(&self) -> (r: Vec<(&'a String, Group<'a>)>)
        requires
            self@.wf(),
        ensures
            groups_match(r@, self@.groups, self@.bufs),
    {
        let mut out: Vec<(&'a String, Group<'a>)> = Vec::new();
        let mut i: usize = 0;
        while i < self.groups.len()
            invariant
                i <= self@.groups.len(),
                self@.wf(),
                out@.len() == i,
                groups_match(out@, self@.groups.take(i as int), self@.bufs),
            decreases self@.groups.len() - i,
        {
            let e = &self.groups[i];
            out.push((&e.name, Group { buffers: self.buffers, polys: &e.polys }));
            proof {
                assert(self@.groups.take(i + 1).drop_last() =~= self@.groups.take(i as int));
            }
            i += 1;
        }
        proof {
            assert(self@.groups.take(self@.groups.len() as int) =~= self@.groups);
        }
        out
    }

    /// Returns the [`Polygon`]s of this [`Object`], group by group.
    pub fn polygons(&self) -> (r: Vec<Polygon<'a>>)
        requires
            self@.wf(),
        ensures
            polys_match(r@, groups_polys(self@.groups), self@.bufs),
    {
        let mut out: Vec<Polygon<'a>> = Vec::new();
        let mut i: usize = 0;
        proof {
            assert(self@.groups.take(0) =~= Seq::<GroupEntryV>::empty());
        }
        while i < self.groups.len()
            invariant
                i <= self@.groups.len(),
                self@.wf(),
                polys_match(out@, groups_polys(self@.groups.take(i as int)), self@.bufs),
            decreases self@.groups.len() - i,
        {
            let e = &self.groups[i];
            let g = Group { buffers: self.buffers, polys: &e.polys };
            proof {
                assert(self@.groups[i as int] == self.groups@[i as int]@);
                assert(g@ == (GroupW { bufs: self@.bufs, polys: self@.groups[i as int].polys }));
                assert(g@.wf());
            }
            let ghost out0 = out@;
            let mut ps = g.polygons();
            let ghost pw = ps@;
            out.append(&mut ps);
            proof {
                assert(self@.groups.take(i + 1).drop_last() =~= self@.groups.take(i as int));
                lemma_polys_match_concat(
                    out0,
                    groups_polys(self@.groups.take(i as int)),
                    pw,
                    self@.groups[i as int].polys,
                    self@.bufs,
                );
            }
            i += 1;
        }
        proof {
            assert(self@.groups.take(self@.groups.len() as int) =~= self@.groups);
        }
        out
    }

    /// Returns the triangles of this [`Object`], group by group.
    /// See [`Polygon::triangles`].
    pub fn triangles(&self) -> (r: Vec<[Vertex<'a>; 3]>)
        requires
            self@.wf(),
        ensures
            tris_match(r@, groups_tris(self@.bufs.vertices, self@.groups), self@.bufs),
    {
        let mut out: Vec<[Vertex<'a>; 3]> = Vec::new();
        let mut i: usize = 0;
        proof {
            assert(self@.groups.take(0) =~= Seq::<GroupEntryV>::empty());
        }
        while i < self.groups.len()
            invariant
                i <= self@.groups.len(),
                self@.wf(),
                tris_match(
                    out@,
                    groups_tris(self@.bufs.vertices, self@.groups.take(i as int)),
                    self@.bufs,
                ),
            decreases self@.groups.len() - i,
        {
            let e = &self.groups[i];
            let g = Group { buffers: self.buffers, polys: &e.polys };
            proof {
                assert(self@.groups[i as int] == self.groups@[i as int]@);
                assert(g@ == (GroupW { bufs: self@.bufs, polys: self@.groups[i as int].polys }));
                assert(g@.wf());
            }
            let ghost out0 = out@;
            let mut ts = g.triangles();
            let ghost tw = ts@;
            out.append(&mut ts);
            proof {
                assert(self@.groups.take(i + 1).drop_last() =~= self@.groups.take(i as int));
                lemma_tris_match_concat(
                    out0,
                    groups_tris(self@.bufs.vertices, self@.groups.take(i as int)),
                    tw,
                    ranges_tris(self@.bufs.vertices, self@.groups[i as int].polys),
                    self@.bufs,
                );
            }
            i += 1;
        }
        proof {
            assert(self@.groups.take(self@.groups.len() as int) =~= self@.groups);
        }
        out
    }
}

impl Obj {
    /// Returns the position attributes contained within this [`Obj`].
    pub fn positions(&self) -> (r: &Vec<Triple>)
        ensures
            r@.map_values(|t: Triple| t@) == self@.bufs.positions,
    {
        &self.buffers.positions
    }

    /// Returns the texture coordinate attributes contained within this
    /// [`Obj`].
    pub fn uvs(&self) -> (r: &Vec<Triple>)
        ensures
            r@.map_values(|t: Triple| t@) == self@.bufs.uvs,
    {
        &self.buffers.uvs
    }

    /// Returns the normal attributes contained within this [`Obj`].
    pub fn normals(&self) -> (r: &Vec<Triple>)
        ensures
            r@.map_values(|t: Triple| t@) == self@.bufs.normals,
    {
        &self.buffers.normals
    }

    /// Returns a specific [`Object`] by name.
    ///
    /// Note that if a name is not specified in the OBJ file, the name
    /// defaults to an empty string.
    pub fn object(&self, name: &str) -> (r: Option<Object<'_>>)
        requires
            self@.wf(),
        ensures
            match r {
                Some(o) => {
                    let k = object_index(self@.objects, name@);
                    &&& k >= 0
                    &&& o@ == (ObjectW { bufs: self@.bufs, groups: self@.objects[k].groups })
                    &&& o@.wf()
                },
                None => object_index(self@.objects, name@) == -1,
            },
    {
        match crate::parse::find_object(&self.objects, name) {
            Some(i) => Some(Object { buffers: &self.buffers, groups: &self.objects[i].groups }),
            None => None,
        }
    }

    /// Returns the named [`Object`]s of this [`Obj`].
    pub fn objects(&self) -> (r: Vec<(&String, Object<'_>)>)
        requires
            self@.wf(),
        ensures
            r@.len() == self@.objects.len(),
            forall|i: int|
                0 <= i < r@.len() ==> {
                    &&& (#[trigger] r@[i]).0@ == self@.objects[i].name
                    &&& r@[i].1@ == (ObjectW {
                        bufs: self@.bufs,
                        groups: self@.objects[i].groups,
                    })
                    &&& r@[i].1@.wf()
                },
    {
        let mut out: Vec<(&String, Object<'_>)> = Vec::new();
        let mut i: usize = 0;
        while i < self.objects.len()
            invariant
                i <= self@.objects.len(),
                self@.wf(),
                out@.len() == i,
                forall|j: int|
                    0 <= j < i ==> {
                        &&& (#[trigger] out@[j]).0@ == self@.objects[j].name
                        &&& out@[j].1@ == (ObjectW {
                            bufs: self@.bufs,
                            groups: self@.objects[j].groups,
                        })
                        &&& out@[j].1@.wf()
                    },
            decreases self@.objects.len() - i,
        {
            let e = &self.objects[i];
            out.push((&e.name, Object { buffers: &self.buffers, groups: &e.groups }));
            i += 1;
        }
        out
    }

    /// Returns every named [`Group`] of this [`Obj`], object by object.
    pub fn groups(&self) -> (r: Vec<(&String, Group<'_>)>)
        requires
            self@.wf(),
        ensures
            groups_match(r@, objects_groups(self@.objects), self@.bufs),
    {
        let mut out: Vec<(&String, Group<'_>)> = Vec::new();
        let mut i: usize = 0;
        proof {
            assert(self@.objects.take(0) =~= Seq::<ObjectEntryV>::empty());
        }
        while i < self.objects.len()
            invariant
                i <= self@.objects.len(),
                self@.wf(),
                groups_match(out@, objects_groups(self@.objects.take(i as int)), self@.bufs),
            decreases self@.objects.len() - i,
        {
            let e = &self.objects[i];
            let o = Object { buffers: &self.buffers, groups: &e.groups };
            proof {
                assert(self@.objects[i as int] == self.objects@[i as int]@);
                assert(o@ =~~= (ObjectW { bufs: self@.bufs, groups: self@.objects[i as int].groups }));
                assert(o@.wf());
            }
            let ghost out0 = out@;
            let mut gs = o.groups();
            let ghost gw = gs@;
            out.append(&mut gs);
            proof {
                assert(self@.objects.take(i + 1).drop_last() =~= self@.objects.take(i as int));
                let fa = objects_groups(self@.objects.take(i as int));
                let fb = self@.objects[i as int].groups;
                assert forall|k: int| 0 <= k < out@.len() implies {
                    &&& (#[trigger] out@[k]).0@ == (fa + fb)[k].name
                    &&& out@[k].1@ == (GroupW { bufs: self@.bufs, polys: (fa + fb)[k].polys })
                    &&& out@[k].1@.wf()
                } by {
                    if k < out0.len() {
                        assert(out@[k] == out0[k]);
                    } else {
                        assert(out@[k] == gw[k - out0.len()]);
                    }
                }
            }
            i += 1;
        }
        proof {
            assert(self@.objects.take(self@.objects.len() as int) =~= self@.objects);
        }
        out
    }

    /// Returns every [`Polygon`] of this [`Obj`], object by object.
    pub fn polygons(&self) -> (r: Vec<Polygon<'_>>)
        requires
            self@.wf(),
        ensures
            polys_match(r@, groups_polys(objects_groups(self@.objects)), self@.bufs),
    {
        let mut out: Vec<Polygon<'_>> = Vec::new();
        let mut i: usize = 0;
        proof {
            assert(self@.objects.take(0) =~= Seq::<ObjectEntryV>::empty());
            assert(objects_groups(self@.objects.take(0)) =~= Seq::<GroupEntryV>::empty());
        }
        while i < self.objects.len()
            invariant
                i <= self@.objects.len(),
                self@.wf(),
                polys_match(
                    out@,
                    groups_polys(objects_groups(self@.objects.take(i as int))),
                    self@.bufs,
                ),
            decreases self@.objects.len() - i,
        {
            let e = &self.objects[i];
            let o = Object { buffers: &self.buffers, groups: &e.groups };
            proof {
                assert(self@.objects[i as int] == self.objects@[i as int]@);
                assert(o@ =~~= (ObjectW { bufs: self@.bufs, groups: self@.objects[i as int].groups }));
                assert(o@.wf());
            }
            let ghost out0 = out@;
            let mut ps = o.polygons();
            let ghost pw = ps@;
            out.append(&mut ps);
            proof {
                assert(self@.objects.take(i + 1).drop_last() =~= self@.objects.take(i as int));
                lemma_groups_polys_concat(
                    objects_groups(self@.objects.take(i as int)),
                    self@.objects[i as int].groups,
                );
                lemma_polys_match_concat(
                    out0,
                    groups_polys(objects_groups(self@.objects.take(i as int))),
                    pw,
                    groups_polys(self@.objects[i as int].groups),
                    self@.bufs,
                );
            }
            i += 1;
        }
        proof {
            assert(self@.objects.take(self@.objects.len() as int) =~= self@.objects);
        }
        out
    }

    /// Returns every triangle of this [`Obj`], object by object.
    /// See [`Polygon::triangles`].
    pub fn triangles(&self) -> (r: Vec<[Vertex<'_>; 3]>)
        requires
            self@.wf(),
        ensures
            tris_match(
                r@,
                groups_tris(self@.bufs.vertices, objects_groups(self@.objects)),
                self@.bufs,
            ),
    {
        let mut out: Vec<[Vertex<'_>; 3]> = Vec::new();
        let mut i: usize = 0;
        proof {
            assert(self@.objects.take(0) =~= Seq::<ObjectEntryV>::empty());
            assert(objects_groups(self@.objects.take(0)) =~= Seq::<GroupEntryV>::empty());
        }
        while i < self.objects.len()
            invariant
                i <= self@.objects.len(),
                self@.wf(),
                tris_match(
                    out@,
                    groups_tris(
                        self@.bufs.vertices,
                        objects_groups(self@.objects.take(i as int)),
                    ),
                    self@.bufs,
                ),
            decreases self@.objects.len() - i,
        {
            let e = &self.objects[i];
            let o = Object { buffers: &self.buffers, groups: &e.groups };
            proof {
                assert(self@.objects[i as int] == self.objects@[i as int]@);
                assert(o@ =~~= (ObjectW { bufs: self@.bufs, groups: self@.objects[i as int].groups }));
                assert(o@.wf());
            }
            let ghost out0 = out@;
            let mut ts = o.triangles();
            let ghost tw = ts@;
            out.append(&mut ts);
            proof {
                assert(self@.objects.take(i + 1).drop_last() =~= self@.objects.take(i as int));
                lemma_groups_tris_concat(
                    self@.bufs.vertices,
                    objects_groups(self@.objects.take(i as int)),
                    self@.objects[i as int].groups,
                );
                lemma_tris_match_concat(
                    out0,
                    groups_tris(
                        self@.bufs.vertices,
                        objects_groups(self@.objects.take(i as int)),
                    ),
                    tw,
                    groups_tris(self@.bufs.vertices, self@.objects[i as int].groups),
                    self@.bufs,
                );
            }
            i += 1;
        }
        proof {
            assert(self@.objects.take(self@.objects.len() as int) =~= self@.objects);
        }
        out
    }
}

} // verus!
