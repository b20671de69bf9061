//! One mesh of the scene: flat-shaded vertices, material, dirty flags,
//! bounding box and the state of its GPU resources.
use vstd::prelude::*;

use crate::bytes::{lemma_words_bytes_len, native_bytes, words_as_bytes};
use crate::dirty::{DirtyFlags, DIRTY_ALL, DIRTY_MATERIAL, DIRTY_VERTEX};
use crate::frame::{Cull, Step};
use crate::geometry::{box_from_points, points_box, BBox, F32x3, F32x4, Vertex};
use crate::ieee::{f32_lt, lt_f32, F32_ONE_BITS, F32_OPAQUE_ALPHA_BITS};

verus! {

/// How a mesh looks: face colour and alpha, wireframe edge colour and width.
#[derive(Clone, Copy, Debug, PartialEq, Eq, Structural)]
pub struct Material {
    /// Diffuse colour of the faces (red, green, blue).
    pub color: F32x3,
    /// Alpha of the faces.
    pub alpha: u32,
    /// Colour of the wireframe edges, with alpha.
    pub edge_color: F32x4,
    /// Width of the wireframe edges.
    pub edge_width: u32,
}

impl Material {
    /// An opaque material of the given face colour, with black edges of
    /// width one.
    pub open spec fn new_spec(color: F32x3) -> Material {
        Material {
            color,
            alpha: F32_ONE_BITS,
            edge_color: F32x4 { x: 0, y: 0, z: 0, w: F32_ONE_BITS },
            edge_width: F32_ONE_BITS,
        }
    }

    pub fn new(color: F32x3) -> (r: Material)
        ensures
            r == Material::new_spec(color),
    {
        Material {
            color,
            alpha: F32_ONE_BITS,
            edge_color: F32x4 { x: 0, y: 0, z: 0, w: F32_ONE_BITS },
            edge_width: F32_ONE_BITS,
        }
    }

    /// Faces are transparent when their alpha is below 0.999.
    pub open spec fn transparent(self) -> bool {
        f32_lt(self.alpha, F32_OPAQUE_ALPHA_BITS)
    }

    pub fn is_transparent(&self) -> (r: bool)
        ensures
            r == self.transparent(),
    {
        lt_f32(self.alpha, F32_OPAQUE_ALPHA_BITS)
    }
}

/// Whether a mesh's GPU resources have been created. They are created once,
/// on the first frame that shows the mesh, and kept until the mesh is removed.
#[derive(Clone, Copy, Debug, PartialEq, Eq, Structural)]
pub enum GpuState {
    Uninitialized,
    Ready,
}

/// The corner `j` of the flat-shaded expansion: the position that the
/// triangle list names at `j`, with the normal of triangle `j / 3`.
pub open spec fn corner(points: Seq<u32>, triangles: Seq<usize>, normals: Seq<F32x3>, j: int) -> Vertex {
    let p = 3 * triangles[j] as int;
    Vertex {
        point: F32x3 { x: points[p], y: points[p + 1], z: points[p + 2] },
        normal: normals[j / 3],
    }
}

/// The mesh input is well formed: a normal per triangle, and every index
/// names a point of the flat coordinate list.
pub open spec fn valid_mesh(points: Seq<u32>, triangles: Seq<usize>, normals: Seq<F32x3>) -> bool {
    &&& triangles.len() == 3 * normals.len()
    &&& forall|k: int| 0 <= k < triangles.len() ==> 3 * (#[trigger] triangles[k]) + 2 < points.len()
}

/// Expands a triangle list into three unshared vertices per triangle, each
/// carrying its triangle's normal.
pub fn flat_vertices(points: &Vec<u32>, triangles: &Vec<usize>, normals: &Vec<F32x3>) -> (r: Vec<Vertex>)
    requires
        valid_mesh(points@, triangles@, normals@),
    ensures
        r.len() == triangles.len(),
        forall|j: int| 0 <= j < r.len() ==> #[trigger] r@[j] == corner(points@, triangles@, normals@, j),
{
    let mut r: Vec<Vertex> = Vec::new();
    let mut j: usize = 0;
    while j < triangles.len()
        invariant
            valid_mesh(points@, triangles@, normals@),
            j <= triangles.len(),
            r.len() == j,
            forall|i: int| 0 <= i < j ==> #[trigger] r@[i] == corner(points@, triangles@, normals@, i),
        decreases triangles.len() - j,
    {
        let n_points = points.len();
        assert(3 * triangles@[j as int] + 2 < n_points);
        let p: usize = 3 * triangles[j];
        assert(j / 3 < normals.len()) by (nonlinear_arith)
            requires
                j < triangles.len(),
                triangles.len() == 3 * normals.len(),
        ;
        let v = Vertex {
            point: F32x3 { x: points[p], y: points[p + 1], z: points[p + 2] },
            normal: normals[j / 3],
        };
        r.push(v);
        j += 1;
    }
    r
}

/// The position and normal words of each vertex, one after the other.
pub open spec fn vertex_words(vs: Seq<Vertex>) -> Seq<u32>
    decreases vs.len(),
{
    if vs.len() == 0 {
        Seq::empty()
    } else {
        let v = vs.last();
        vertex_words(vs.drop_last()) + seq![
            v.point.x,
            v.point.y,
            v.point.z,
            v.normal.x,
            v.normal.y,
            v.normal.z,
        ]
    }
}

proof fn lemma_vertex_words_len(vs: Seq<Vertex>)
    ensures
        vertex_words(vs).len() == 6 * vs.len(),
    decreases vs.len(),
{
    if vs.len() > 0 {
        lemma_vertex_words_len(vs.drop_last());
    }
}

/// A mesh entry of the scene.
pub struct ViewData {
    pub id: u32,
    pub vertices: Vec<Vertex>,
    pub material: Material,
    pub dirty: DirtyFlags,
    /// The box of the vertices.
    pub bbox: BBox,
    pub gpu: GpuState,
    pub visible: bool,
}

/// The steps that bring a shown mesh's GPU copies up to date.
pub open spec fn sync_steps(e: ViewData) -> Seq<Step> {
    if !e.visible {
        Seq::empty()
    } else {
        (if e.gpu == GpuState::Uninitialized { seq![Step::InitMesh { id: e.id }] } else { Seq::empty() })
            + (if e.dirty.has(DIRTY_VERTEX) { seq![Step::UploadVertices { id: e.id }] } else { Seq::empty() })
            + (if e.dirty.has(DIRTY_MATERIAL) { seq![Step::UploadMaterial { id: e.id }] } else { Seq::empty() })
    }
}

/// The entry once those steps are done: resources ready, vertex and
/// material flags cleared, box recomputed if the vertices were uploaded.
pub open spec fn synced(e: ViewData) -> ViewData {
    if !e.visible {
        e
    } else {
        ViewData {
            gpu: GpuState::Ready,
            dirty: if e.dirty.has(DIRTY_VERTEX) {
                if e.dirty.has(DIRTY_MATERIAL) {
                    e.dirty.without(DIRTY_VERTEX).without(DIRTY_MATERIAL)
                } else {
                    e.dirty.without(DIRTY_VERTEX)
                }
            } else if e.dirty.has(DIRTY_MATERIAL) {
                e.dirty.without(DIRTY_MATERIAL)
            } else {
                e.dirty
            },
            bbox: if e.dirty.has(DIRTY_VERTEX) { points_box(e.vertices@) } else { e.bbox },
            ..e
        }
    }
}

/// The draw calls of a shown mesh: a transparent one is drawn twice, back
/// faces first, then front faces; an opaque one once, front faces only.
pub open spec fn draw_steps(e: ViewData) -> Seq<Step> {
    if e.material.transparent() {
        seq![Step::Draw { id: e.id, cull: Cull::Front }, Step::Draw { id: e.id, cull: Cull::Back }]
    } else {
        seq![Step::Draw { id: e.id, cull: Cull::Back }]
    }
}

impl ViewData {
    pub fn new(id: u32, vertices: Vec<Vertex>, material: Material) -> (r: ViewData)
        ensures
            r.id == id,
            r.vertices@ == vertices@,
            r.material == material,
            r.dirty.bits == DIRTY_ALL,
            r.bbox == points_box(vertices@),
            r.gpu == GpuState::Uninitialized,
            r.visible,
    {
        let bbox = box_from_points(&vertices);
        ViewData {
            id,
            vertices,
            material,
            dirty: DirtyFlags::all(),
            bbox,
            gpu: GpuState::Uninitialized,
            visible: true,
        }
    }

    pub fn set_visible(&mut self, visible: bool)
        ensures
            *final(self) == (ViewData { visible, ..*old(self) }),
    {
        self.visible = visible;
    }

    /// Recomputes the box from the vertices, as their upload does.
    pub fn update_box(&mut self)
        ensures
            *final(self) == (ViewData { bbox: points_box(old(self).vertices@), ..*old(self) }),
    {
        self.bbox = box_from_points(&self.vertices);
    }

    /// The words of the vertex buffer.
    pub fn vertex_words(&self) -> (r: Vec<u32>)
        ensures
            r@ == vertex_words(self.vertices@),
    {
        let mut r: Vec<u32> = Vec::new();
        let mut i: usize = 0;
        while i < self.vertices.len()
            invariant
                i <= self.vertices.len(),
                r@ == vertex_words(self.vertices@.take(i as int)),
            decreases self.vertices.len() - i,
        {
            assert(self.vertices@.take(i as int + 1).drop_last() =~= self.vertices@.take(i as int));
            let v = self.vertices[i];
            r.push(v.point.x);
            r.push(v.point.y);
            r.push(v.point.z);
            r.push(v.normal.x);
            r.push(v.normal.y);
            r.push(v.normal.z);
            i += 1;
            assert(r@ =~= vertex_words(self.vertices@.take(i as int)));
        }
        assert(self.vertices@.take(i as int) =~= self.vertices@);
        r
    }

    /// The bytes of the vertex buffer, as uploaded: 24 per vertex.
    pub fn vertex_bytes(&self) -> (r: Vec<u8>)
        ensures
            native_bytes(vertex_words(self.vertices@), r@),
            r@.len() == 24 * self.vertices@.len(),
    {
        let words = self.vertex_words();
        let r = words_as_bytes(&words);
        proof {
            lemma_vertex_words_len(self.vertices@);
            lemma_words_bytes_len(words@);
        }
        r
    }

    /// Appends the steps that bring the GPU copies up to date, and records
    /// them as done.
    pub fn sync_into(&mut self, steps: &mut Vec<Step>)
        ensures
            *final(self) == synced(*old(self)),
            final(steps)@ == old(steps)@ + sync_steps(*old(self)),
    {
        if !self.visible {
            assert(old(steps)@ + sync_steps(*old(self)) =~= old(steps)@);
            return;
        }
        let ghost s0 = steps@;
        if self.gpu == GpuState::Uninitialized {
            steps.push(Step::InitMesh { id: self.id });
            self.gpu = GpuState::Ready;
        }
        let ghost s1 = steps@;
        if self.dirty.contains(DIRTY_VERTEX) {
            steps.push(Step::UploadVertices { id: self.id });
            self.update_box();
            self.dirty.remove(DIRTY_VERTEX);
        }
        let ghost s2 = steps@;
        if self.dirty.contains(DIRTY_MATERIAL) {
            steps.push(Step::UploadMaterial { id: self.id });
            self.dirty.remove(DIRTY_MATERIAL);
        }
        proof {
            crate::dirty::lemma_without(old(self).dirty.bits, DIRTY_VERTEX);
        }
        assert(steps@ =~= old(steps)@ + sync_steps(*old(self)));
    }

    /// Appends the draw calls of this mesh.
    pub fn draw_into(&self, steps: &mut Vec<Step>)
        ensures
            final(steps)@ == old(steps)@ + draw_steps(*self),
    {
        if self.material.is_transparent() {
            steps.push(Step::Draw { id: self.id, cull: Cull::Front });
            steps.push(Step::Draw { id: self.id, cull: Cull::Back });
        } else {
            steps.push(Step::Draw { id: self.id, cull: Cull::Back });
        }
        assert(final(steps)@ =~= old(steps)@ + draw_steps(*self));
    }
}

} // verus!
