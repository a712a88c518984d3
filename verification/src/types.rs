//! The data model of a parsed OBJ.
//!
//! A model owns three attribute buffers (positions, texture coordinates,
//! normals), one flat table of vertex records, and an association list from
//! object name to that object's groups. Attribute values are kept as their
//! numeric source tokens. Vertex records store 1-based buffer references, so
//! that an absent reference is distinct from a reference to the first slot.

use vstd::prelude::*;

verus! {

/// One attribute value: three components, each kept as its source token.
#[derive(Clone)]
pub struct Triple {
    pub x: String,
    pub y: String,
    pub z: String,
}

/// The mathematical value of a [`Triple`]: three character sequences.
#[verifier::ext_equal]
pub ghost struct TripleV {
    pub x: Seq<char>,
    pub y: Seq<char>,
    pub z: Seq<char>,
}

impl View for Triple {
    type V = TripleV;

    open spec fn view(&self) -> TripleV {
        TripleV { x: self.x@, y: self.y@, z: self.z@ }
    }
}

/// One face vertex: a mandatory 1-based position reference and optional
/// 1-based texture-coordinate and normal references.
#[derive(Clone, Copy, Debug, PartialEq, Eq)]
pub struct VertexIndices {
    pub pos: usize,
    pub uv: Option<usize>,
    pub normal: Option<usize>,
}

/// A polygon: the contiguous range `[start, end)` of the vertex table.
#[derive(Clone, Copy, Debug, PartialEq, Eq)]
pub struct VertexRange {
    pub start: usize,
    pub end: usize,
}

/// A named group and the polygons assigned to it, in source order.
#[derive(Clone)]
pub struct GroupEntry {
    pub name: String,
    pub polys: Vec<VertexRange>,
}

#[verifier::ext_equal]
pub ghost struct GroupEntryV {
    pub name: Seq<char>,
    pub polys: Seq<VertexRange>,
}

impl View for GroupEntry {
    type V = GroupEntryV;

    open spec fn view(&self) -> GroupEntryV {
        GroupEntryV { name: self.name@, polys: self.polys@ }
    }
}

/// A named object and its groups; group names are unique within an object.
#[derive(Clone)]
pub struct ObjectEntry {
    pub name: String,
    pub groups: Vec<GroupEntry>,
}

#[verifier::ext_equal]
pub ghost struct ObjectEntryV {
    pub name: Seq<char>,
    pub groups: Seq<GroupEntryV>,
}

impl View for ObjectEntry {
    type V = ObjectEntryV;

    open spec fn view(&self) -> ObjectEntryV {
        ObjectEntryV {
            name: self.name@,
            groups: self.groups@.map_values(|g: GroupEntry| g@),
        }
    }
}

/// The attribute buffers and the flat vertex table.
#[derive(Clone)]
pub struct Buffers {
    pub positions: Vec<Triple>,
    pub uvs: Vec<Triple>,
    pub normals: Vec<Triple>,
    pub vertices: Vec<VertexIndices>,
}

#[verifier::ext_equal]
pub ghost struct BufV {
    pub positions: Seq<TripleV>,
    pub uvs: Seq<TripleV>,
    pub normals: Seq<TripleV>,
    pub vertices: Seq<VertexIndices>,
}

impl View for Buffers {
    type V = BufV;

    open spec fn view(&self) -> BufV {
        BufV {
            positions: self.positions@.map_values(|t: Triple| t@),
            uvs: self.uvs@.map_values(|t: Triple| t@),
            normals: self.normals@.map_values(|t: Triple| t@),
            vertices: self.vertices@,
        }
    }
}

/// A parsed, validated model.
#[derive(Clone)]
pub struct Obj {
    pub buffers: Buffers,
    pub objects: Vec<ObjectEntry>,
}

#[verifier::ext_equal]
pub ghost struct ObjV {
    pub bufs: BufV,
    pub objects: Seq<ObjectEntryV>,
}

impl View for Obj {
    type V = ObjV;

    open spec fn view(&self) -> ObjV {
        ObjV {
            bufs: self.buffers@,
            objects: self.objects@.map_values(|o: ObjectEntry| o@),
        }
    }
}

/// A vertex record is valid when each of its 1-based references lies within
/// the final size of its buffer.
pub open spec fn rec_wf(r: VertexIndices, b: BufV) -> bool {
    &&& 1 <= r.pos <= b.positions.len()
    &&& match r.uv {
        Some(u) => 1 <= u <= b.uvs.len(),
        None => true,
    }
    &&& match r.normal {
        Some(m) => 1 <= m <= b.normals.len(),
        None => true,
    }
}

/// A polygon range is valid when it lies within the vertex table.
pub open spec fn range_wf(rng: VertexRange, vlen: nat) -> bool {
    rng.start <= rng.end <= vlen
}

pub open spec fn ranges_wf(rs: Seq<VertexRange>, vlen: nat) -> bool {
    forall|i: int| 0 <= i < rs.len() ==> range_wf(rs[i], vlen)
}

pub open spec fn groups_wf(gs: Seq<GroupEntryV>, vlen: nat) -> bool {
    &&& forall|i: int| 0 <= i < gs.len() ==> ranges_wf(#[trigger] gs[i].polys, vlen)
    &&& forall|i: int, j: int| 0 <= i < j < gs.len() ==> gs[i].name != gs[j].name
}

pub open spec fn objects_wf(os: Seq<ObjectEntryV>, vlen: nat) -> bool {
    &&& forall|i: int| 0 <= i < os.len() ==> groups_wf(#[trigger] os[i].groups, vlen)
    &&& forall|i: int, j: int| 0 <= i < j < os.len() ==> os[i].name != os[j].name
}

/// Every record of the vertex table references its buffers in bounds.
pub open spec fn bufs_wf(b: BufV) -> bool {
    forall|i: int| 0 <= i < b.vertices.len() ==> rec_wf(#[trigger] b.vertices[i], b)
}

impl ObjV {
    /// Every record of the vertex table is within bounds and every recorded
    /// polygon range lies within the vertex table; names are unique.
    pub open spec fn wf(self) -> bool {
        &&& bufs_wf(self.bufs)
        &&& objects_wf(self.objects, self.bufs.vertices.len())
    }
}

/// The index of the first group entry with the given name, or `-1`.
pub open spec fn group_index(gs: Seq<GroupEntryV>, name: Seq<char>) -> int
    decreases gs.len(),
{
    if gs.len() == 0 {
        -1
    } else if gs[0].name == name {
        0
    } else {
        let r = group_index(gs.drop_first(), name);
        if r == -1 {
            -1
        } else {
            r + 1
        }
    }
}

/// The index of the first object entry with the given name, or `-1`.
pub open spec fn object_index(os: Seq<ObjectEntryV>, name: Seq<char>) -> int
    decreases os.len(),
{
    if os.len() == 0 {
        -1
    } else if os[0].name == name {
        0
    } else {
        let r = object_index(os.drop_first(), name);
        if r == -1 {
            -1
        } else {
            r + 1
        }
    }
}

pub proof fn lemma_group_index(gs: Seq<GroupEntryV>, name: Seq<char>)
    ensures
        group_index(gs, name) == -1 ==> forall|i: int| 0 <= i < gs.len() ==> gs[i].name != name,
        group_index(gs, name) != -1 ==> {
            let k = group_index(gs, name);
            &&& 0 <= k < gs.len()
            &&& gs[k].name == name
            &&& forall|i: int| 0 <= i < k ==> gs[i].name != name
        },
    decreases gs.len(),
{
    if gs.len() > 0 {
        lemma_group_index(gs.drop_first(), name);
        assert(forall|i: int| 1 <= i < gs.len() ==> gs[i] == gs.drop_first()[i - 1]);
    }
}

pub proof fn lemma_object_index(os: Seq<ObjectEntryV>, name: Seq<char>)
    ensures
        object_index(os, name) == -1 ==> forall|i: int| 0 <= i < os.len() ==> os[i].name != name,
        object_index(os, name) != -1 ==> {
            let k = object_index(os, name);
            &&& 0 <= k < os.len()
            &&& os[k].name == name
            &&& forall|i: int| 0 <= i < k ==> os[i].name != name
        },
    decreases os.len(),
{
    if os.len() > 0 {
        lemma_object_index(os.drop_first(), name);
        assert(forall|i: int| 1 <= i < os.len() ==> os[i] == os.drop_first()[i - 1]);
    }
}

/// Creates an empty entry for `name` unless one already exists.
pub open spec fn ensure_group(gs: Seq<GroupEntryV>, name: Seq<char>) -> Seq<GroupEntryV> {
    if group_index(gs, name) == -1 {
        gs.push(GroupEntryV { name, polys: Seq::empty() })
    } else {
        gs
    }
}

/// Appends `rng` to the entry for `name`, creating the entry if needed.
pub open spec fn add_poly(gs: Seq<GroupEntryV>, name: Seq<char>, rng: VertexRange) -> Seq<
    GroupEntryV,
> {
    let k = group_index(gs, name);
    if k == -1 {
        gs.push(GroupEntryV { name, polys: seq![rng] })
    } else {
        gs.update(k, GroupEntryV { name, polys: gs[k].polys.push(rng) })
    }
}

/// Replaces the polygons of the entry for `name`, creating it if needed.
pub open spec fn put_group(gs: Seq<GroupEntryV>, name: Seq<char>, polys: Seq<VertexRange>) -> Seq<
    GroupEntryV,
> {
    let k = group_index(gs, name);
    if k == -1 {
        gs.push(GroupEntryV { name, polys })
    } else {
        gs.update(k, GroupEntryV { name, polys })
    }
}

/// Replaces the groups of the entry for `name`, creating it if needed.
pub open spec fn put_object(
    os: Seq<ObjectEntryV>,
    name: Seq<char>,
    groups: Seq<GroupEntryV>,
) -> Seq<ObjectEntryV> {
    let k = object_index(os, name);
    if k == -1 {
        os.push(ObjectEntryV { name, groups })
    } else {
        os.update(k, ObjectEntryV { name, groups })
    }
}

} // verus!
