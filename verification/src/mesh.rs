//! The mesh container: six optional attribute arrays and their invariant.

use vstd::prelude::*;

use crate::{coord_in_range, IndexType, TMFExportError, Vector2, Vector3, COORD_LIMIT};

verus! {

/// What a mesh is mathematically: each attribute array either absent or a
/// sequence of plain values.
pub struct MeshView {
    pub vertices: Option<Seq<Vector3>>,
    pub vertex_triangles: Option<Seq<IndexType>>,
    pub normals: Option<Seq<Vector3>>,
    pub normal_triangles: Option<Seq<IndexType>>,
    pub uvs: Option<Seq<Vector2>>,
    pub uv_triangles: Option<Seq<IndexType>>,
}

/// True when a triangle-index array may stand beside its paired attribute
/// array: if the indices are present, the attribute array is too, every
/// index lands inside it, and the indices come three to a triangle.
pub open spec fn pair_consistent<A>(triangles: Option<Seq<IndexType>>, attr: Option<Seq<A>>) -> bool {
    match triangles {
        Some(ts) => match attr {
            Some(vs) => ts.len() % 3 == 0 && forall|i: int|
                0 <= i < ts.len() ==> (#[trigger] ts[i]) < vs.len(),
            None => false,
        },
        None => true,
    }
}

impl MeshView {
    /// The mesh invariant: every triangle-index array is consistent with
    /// its paired attribute array.
    pub open spec fn consistent(self) -> bool {
        &&& pair_consistent(self.vertex_triangles, self.vertices)
        &&& pair_consistent(self.normal_triangles, self.normals)
        &&& pair_consistent(self.uv_triangles, self.uvs)
    }

    /// How many attribute arrays are present, and so how many segments the
    /// mesh takes on disk.
    pub open spec fn segment_count(self) -> int {
        (if self.vertices is Some { 1int } else { 0 })
        + (if self.vertex_triangles is Some { 1int } else { 0 })
        + (if self.normals is Some { 1int } else { 0 })
        + (if self.normal_triangles is Some { 1int } else { 0 })
        + (if self.uvs is Some { 1int } else { 0 })
        + (if self.uv_triangles is Some { 1int } else { 0 })
    }

    /// The mesh with every attribute array absent.
    pub open spec fn empty_view() -> MeshView {
        MeshView {
            vertices: None,
            vertex_triangles: None,
            normals: None,
            normal_triangles: None,
            uvs: None,
            uv_triangles: None,
        }
    }

    /// True when the two meshes agree on which attribute arrays are present.
    pub open spec fn same_presence(self, other: MeshView) -> bool {
        &&& (self.vertices is Some) == (other.vertices is Some)
        &&& (self.vertex_triangles is Some) == (other.vertex_triangles is Some)
        &&& (self.normals is Some) == (other.normals is Some)
        &&& (self.normal_triangles is Some) == (other.normal_triangles is Some)
        &&& (self.uvs is Some) == (other.uvs is Some)
        &&& (self.uv_triangles is Some) == (other.uv_triangles is Some)
    }
}

/// True when every component of every vector lies in the codec's range.
pub open spec fn vec3s_in_range(vs: Seq<Vector3>) -> bool {
    forall|i: int|
        0 <= i < vs.len() ==> coord_in_range((#[trigger] vs[i]).0) && coord_in_range(vs[i].1)
            && coord_in_range(vs[i].2)
}

/// True when every component of every UV pair lies in the codec's range.
pub open spec fn vec2s_in_range(vs: Seq<Vector2>) -> bool {
    forall|i: int| 0 <= i < vs.len() ==> coord_in_range((#[trigger] vs[i]).0) && coord_in_range(vs[i].1)
}

/// A 3D mesh: up to six attribute arrays, each set at most once.
pub struct TMFMesh {
    vertices: Option<Vec<Vector3>>,
    vertex_triangles: Option<Vec<IndexType>>,
    normals: Option<Vec<Vector3>>,
    normal_triangles: Option<Vec<IndexType>>,
    uvs: Option<Vec<Vector2>>,
    uv_triangles: Option<Vec<IndexType>>,
}

impl View for TMFMesh {
    type V = MeshView;

    closed spec fn view(&self) -> MeshView {
        MeshView {
            vertices: match self.vertices {
                Some(v) => Some(v@),
                None => None,
            },
            vertex_triangles: match self.vertex_triangles {
                Some(v) => Some(v@),
                None => None,
            },
            normals: match self.normals {
                Some(v) => Some(v@),
                None => None,
            },
            normal_triangles: match self.normal_triangles {
                Some(v) => Some(v@),
                None => None,
            },
            uvs: match self.uvs {
                Some(v) => Some(v@),
                None => None,
            },
            uv_triangles: match self.uv_triangles {
                Some(v) => Some(v@),
                None => None,
            },
        }
    }
}

impl TMFMesh {
    /// A mesh with no attribute arrays yet.
    pub fn empty() -> (r: TMFMesh)
        ensures
            r@ == MeshView::empty_view(),
    {
        TMFMesh {
            vertices: None,
            vertex_triangles: None,
            normals: None,
            normal_triangles: None,
            uvs: None,
            uv_triangles: None,
        }
    }

    pub fn get_vertices(&self) -> (r: Option<&Vec<Vector3>>)
        ensures
            match r {
                Some(v) => self@.vertices == Some(v@),
                None => self@.vertices is None,
            },
    {
        self.vertices.as_ref()
    }

    pub fn get_vertex_triangles(&self) -> (r: Option<&Vec<IndexType>>)
        ensures
            match r {
                Some(v) => self@.vertex_triangles == Some(v@),
                None => self@.vertex_triangles is None,
            },
    {
        self.vertex_triangles.as_ref()
    }

    pub fn get_normals(&self) -> (r: Option<&Vec<Vector3>>)
        ensures
            match r {
                Some(v) => self@.normals == Some(v@),
                None => self@.normals is None,
            },
    {
        self.normals.as_ref()
    }

    pub fn get_normal_triangles(&self) -> (r: Option<&Vec<IndexType>>)
        ensures
            match r {
                Some(v) => self@.normal_triangles == Some(v@),
                None => self@.normal_triangles is None,
            },
    {
        self.normal_triangles.as_ref()
    }

    pub fn get_uvs(&self) -> (r: Option<&Vec<Vector2>>)
        ensures
            match r {
                Some(v) => self@.uvs == Some(v@),
                None => self@.uvs is None,
            },
    {
        self.uvs.as_ref()
    }

    pub fn get_uv_triangles(&self) -> (r: Option<&Vec<IndexType>>)
        ensures
            match r {
                Some(v) => self@.uv_triangles == Some(v@),
                None => self@.uv_triangles is None,
            },
    {
        self.uv_triangles.as_ref()
    }

    /// Stores the vertex array; hands back the one that was there before,
    /// so a caller can tell a repeated set from the first.
    pub fn set_vertices(&mut self, v: Vec<Vector3>) -> (r: Option<Vec<Vector3>>)
        ensures
            final(self)@ == (MeshView { vertices: Some(v@), ..old(self)@ }),
            (r is Some <==> old(self)@.vertices is Some),
            (r matches Some(p) ==> old(self)@.vertices == Some(p@)),
    {
        let prev = self.vertices.take();
        self.vertices = Some(v);
        prev
    }

    pub fn set_vertex_triangles(&mut self, v: Vec<IndexType>) -> (r: Option<Vec<IndexType>>)
        ensures
            final(self)@ == (MeshView { vertex_triangles: Some(v@), ..old(self)@ }),
            (r is Some <==> old(self)@.vertex_triangles is Some),
            (r matches Some(p) ==> old(self)@.vertex_triangles == Some(p@)),
    {
        let prev = self.vertex_triangles.take();
        self.vertex_triangles = Some(v);
        prev
    }

    pub fn set_normals(&mut self, v: Vec<Vector3>) -> (r: Option<Vec<Vector3>>)
        ensures
            final(self)@ == (MeshView { normals: Some(v@), ..old(self)@ }),
            (r is Some <==> old(self)@.normals is Some),
            (r matches Some(p) ==> old(self)@.normals == Some(p@)),
    {
        let prev = self.normals.take();
        self.normals = Some(v);
        prev
    }

    pub fn set_normal_triangles(&mut self, v: Vec<IndexType>) -> (r: Option<Vec<IndexType>>)
        ensures
            final(self)@ == (MeshView { normal_triangles: Some(v@), ..old(self)@ }),
            (r is Some <==> old(self)@.normal_triangles is Some),
            (r matches Some(p) ==> old(self)@.normal_triangles == Some(p@)),
    {
        let prev = self.normal_triangles.take();
        self.normal_triangles = Some(v);
        prev
    }

    pub fn set_uvs(&mut self, v: Vec<Vector2>) -> (r: Option<Vec<Vector2>>)
        ensures
            final(self)@ == (MeshView { uvs: Some(v@), ..old(self)@ }),
            (r is Some <==> old(self)@.uvs is Some),
            (r matches Some(p) ==> old(self)@.uvs == Some(p@)),
    {
        let prev = self.uvs.take();
        self.uvs = Some(v);
        prev
    }

    pub fn set_uv_triangles(&mut self, v: Vec<IndexType>) -> (r: Option<Vec<IndexType>>)
        ensures
            final(self)@ == (MeshView { uv_triangles: Some(v@), ..old(self)@ }),
            (r is Some <==> old(self)@.uv_triangles is Some),
            (r matches Some(p) ==> old(self)@.uv_triangles == Some(p@)),
    {
        let prev = self.uv_triangles.take();
        self.uv_triangles = Some(v);
        prev
    }

    /// How many segments the mesh takes on disk: one per present array.
    pub fn get_segment_count(&self) -> (n: u16)
        ensures
            n == self@.segment_count(),
    {
        let mut n: u16 = 0;
        if self.vertices.is_some() {
            n = n + 1;
        }
        if self.vertex_triangles.is_some() {
            n = n + 1;
        }
        if self.normals.is_some() {
            n = n + 1;
        }
        if self.normal_triangles.is_some() {
            n = n + 1;
        }
        if self.uvs.is_some() {
            n = n + 1;
        }
        if self.uv_triangles.is_some() {
            n = n + 1;
        }
        n
    }

    /// The mesh's consistency check: every triangle-index array has its
    /// paired attribute array, lands inside it, and comes three to a
    /// triangle.
    pub fn verify(&self) -> (r: Result<(), TMFExportError>)
        ensures
            r is Ok <==> self@.consistent(),
    {
        let ok1 = check_pair_u3(&self.vertex_triangles, &self.vertices);
        let ok2 = check_pair_u3(&self.normal_triangles, &self.normals);
        let ok3 = check_pair_u2(&self.uv_triangles, &self.uvs);
        if ok1 && ok2 && ok3 {
            Ok(())
        } else {
            Err(TMFExportError::IndexOutOfBounds)
        }
    }
}

/// Checks one triangle-array / attribute-array pair of 3-component vectors.
fn check_pair_u3(triangles: &Option<Vec<IndexType>>, attr: &Option<Vec<Vector3>>) -> (r: bool)
    ensures
        r == pair_consistent(
            match triangles {
                Some(t) => Some(t@),
                None => None,
            },
            match attr {
                Some(a) => Some(a@),
                None => None,
            },
        ),
{
    match triangles {
        Some(ts) => match attr {
            Some(vs) => check_indices(ts, vs.len()),
            None => false,
        },
        None => true,
    }
}

/// Checks one triangle-array / attribute-array pair of 2-component vectors.
fn check_pair_u2(triangles: &Option<Vec<IndexType>>, attr: &Option<Vec<Vector2>>) -> (r: bool)
    ensures
        r == pair_consistent(
            match triangles {
                Some(t) => Some(t@),
                None => None,
            },
            match attr {
                Some(a) => Some(a@),
                None => None,
            },
        ),
{
    match triangles {
        Some(ts) => match attr {
            Some(vs) => check_indices(ts, vs.len()),
            None => false,
        },
        None => true,
    }
}

/// True when the indices come three to a triangle and all land below `len`.
pub fn check_indices(ts: &Vec<IndexType>, len: usize) -> (r: bool)
    ensures
        r == (ts@.len() % 3 == 0 && forall|i: int|
            0 <= i < ts@.len() ==> (#[trigger] ts@[i]) < len),
{
    if ts.len() % 3 != 0 {
        return false;
    }
    let mut i: usize = 0;
    while i < ts.len()
        invariant
            i <= ts@.len(),
            forall|j: int| 0 <= j < i ==> (#[trigger] ts@[j]) < len,
        decreases ts@.len() - i,
    {
        if ts[i] as usize >= len {
            return false;
        }
        i = i + 1;
    }
    true
}


/// True when every component of every vector lies in the codec's range.
pub fn check_vec3s_range(vs: &Vec<Vector3>) -> (r: bool)
    ensures
        r == vec3s_in_range(vs@),
{
    let mut i: usize = 0;
    while i < vs.len()
        invariant
            i <= vs@.len(),
            forall|j: int|
                0 <= j < i ==> coord_in_range((#[trigger] vs@[j]).0) && coord_in_range(vs@[j].1)
                    && coord_in_range(vs@[j].2),
        decreases vs@.len() - i,
    {
        let v = vs[i];
        if !(-COORD_LIMIT <= v.0 && v.0 <= COORD_LIMIT && -COORD_LIMIT <= v.1 && v.1 <= COORD_LIMIT
            && -COORD_LIMIT <= v.2 && v.2 <= COORD_LIMIT) {
            return false;
        }
        i = i + 1;
    }
    true
}

/// True when every component of every UV pair lies in the codec's range.
pub fn check_vec2s_range(vs: &Vec<Vector2>) -> (r: bool)
    ensures
        r == vec2s_in_range(vs@),
{
    let mut i: usize = 0;
    while i < vs.len()
        invariant
            i <= vs@.len(),
            forall|j: int|
                0 <= j < i ==> coord_in_range((#[trigger] vs@[j]).0) && coord_in_range(vs@[j].1),
        decreases vs@.len() - i,
    {
        let v = vs[i];
        if !(-COORD_LIMIT <= v.0 && v.0 <= COORD_LIMIT && -COORD_LIMIT <= v.1 && v.1
            <= COORD_LIMIT) {
            return false;
        }
        i = i + 1;
    }
    true
}

} // verus!
