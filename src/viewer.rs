//! The scene registry: mesh entries by id, camera interaction, and the
//! planning of each frame.
use vstd::prelude::*;

use crate::camera::{
    clamp_zoom, clamped_zoom, drag_anchor, drag_moved, zoom_ok, zoom_step, zoom_step_of, Anchor,
    DragState, F64x2, ZoomStep,
};
use crate::dirty::{DIRTY_ALL, DIRTY_MATERIAL, DIRTY_VERTEX};
use crate::frame::{Cull, Step};
use crate::geometry::{box_union, empty_box, points_box, BBox, F32x3, F32x4, Vertex};
use crate::ieee::F32_ONE_BITS;
use crate::mesh::{
    corner, draw_steps, flat_vertices, sync_steps, synced, valid_mesh, GpuState, Material, ViewData,
};

verus! {

/// The abstract state of a viewer.
pub struct ViewerModel {
    /// The mesh entries, by increasing id.
    pub entries: Seq<ViewData>,
    /// The id that the next appended mesh gets.
    pub next_id: nat,
    /// The shared camera uniforms and pipelines exist.
    pub shared_ready: bool,
    /// The user-controlled zoom multiplier.
    pub zoom: u32,
    /// The trackball orientation, a unit quaternion (see [`F32x4`]).
    pub orientation: F32x4,
    pub drag: DragState,
    /// The next frame must recompute the aggregate bounding box.
    pub reframe_pending: bool,
    /// The next frame must recompute the camera matrices.
    pub matrix_pending: bool,
}

pub open spec fn has_id(es: Seq<ViewData>, id: u32) -> bool {
    exists|i: int| 0 <= i < es.len() && (#[trigger] es[i]).id == id
}

impl ViewerModel {
    pub open spec fn wf(self) -> bool {
        &&& forall|i: int, j: int| 0 <= i < j < self.entries.len() ==> (#[trigger] self.entries[i]).id < (#[trigger] self.entries[j]).id
        &&& forall|i: int| 0 <= i < self.entries.len() ==> (#[trigger] self.entries[i]).id < self.next_id
        &&& forall|i: int| 0 <= i < self.entries.len() ==> (#[trigger] self.entries[i]).bbox == points_box(self.entries[i].vertices@)
        &&& self.next_id <= u32::MAX
        &&& zoom_ok(self.zoom)
    }
}

/// The entry that `append_mesh` creates.
pub open spec fn is_new_entry(e: ViewData, id: nat, vertices: Seq<Vertex>, material: Material) -> bool {
    &&& e.id == id
    &&& e.vertices@ == vertices
    &&& e.material == material
    &&& e.dirty.bits == DIRTY_ALL
    &&& e.bbox == points_box(vertices)
    &&& e.gpu == GpuState::Uninitialized
    &&& e.visible
}

/// `b` is `a` with one mesh appended.
pub open spec fn is_appended(a: ViewerModel, b: ViewerModel, vertices: Seq<Vertex>, material: Material) -> bool {
    &&& b.entries.len() == a.entries.len() + 1
    &&& b.entries.drop_last() == a.entries
    &&& is_new_entry(b.entries.last(), a.next_id, vertices, material)
    &&& b.next_id == a.next_id + 1
    &&& b == ViewerModel { entries: b.entries, next_id: b.next_id, ..a }
}

/// `b` is `a` without the entry of id `id`, marked for reframing; or `a`
/// itself when there is no such entry.
pub open spec fn is_removed(a: ViewerModel, b: ViewerModel, id: u32) -> bool {
    if has_id(a.entries, id) {
        exists|i: int|
            0 <= i < a.entries.len() && (#[trigger] a.entries[i]).id == id && b == ViewerModel {
                entries: a.entries.remove(i),
                reframe_pending: true,
                ..a
            }
    } else {
        b == a
    }
}

/// `b` is `a` with the entry of id `id` passed through `f`.
pub open spec fn is_updated(a: ViewerModel, b: ViewerModel, id: u32, f: spec_fn(ViewData) -> ViewData) -> bool {
    &&& b.entries.len() == a.entries.len()
    &&& forall|i: int|
        0 <= i < a.entries.len() ==> #[trigger] b.entries[i] == if a.entries[i].id == id {
            f(a.entries[i])
        } else {
            a.entries[i]
        }
    &&& b == ViewerModel { entries: b.entries, ..a }
}

pub open spec fn with_visible(visible: bool) -> spec_fn(ViewData) -> ViewData {
    |e: ViewData| ViewData { visible, ..e }
}

/// The entry with its material changed by `f` and marked for upload.
pub open spec fn with_material(f: spec_fn(Material) -> Material) -> spec_fn(ViewData) -> ViewData {
    |e: ViewData| ViewData { material: f(e.material), dirty: e.dirty.with(DIRTY_MATERIAL), ..e }
}

pub open spec fn with_edge_width(width: u32) -> spec_fn(Material) -> Material {
    |m: Material| Material { edge_width: width, ..m }
}

pub open spec fn with_edge_color(color: F32x4) -> spec_fn(Material) -> Material {
    |m: Material| Material { edge_color: color, ..m }
}

pub open spec fn with_face_color(color: F32x3) -> spec_fn(Material) -> Material {
    |m: Material| Material { color: color, ..m }
}

pub open spec fn with_face_alpha(alpha: u32) -> spec_fn(Material) -> Material {
    |m: Material| Material { alpha: alpha, ..m }
}

/// The GPU work that brings every shown entry up to date, entry by entry.
pub open spec fn sync_all_steps(es: Seq<ViewData>) -> Seq<Step>
    decreases es.len(),
{
    if es.len() == 0 {
        Seq::empty()
    } else {
        sync_all_steps(es.drop_last()) + sync_steps(es.last())
    }
}

pub open spec fn synced_all(es: Seq<ViewData>) -> Seq<ViewData> {
    es.map_values(|e: ViewData| synced(e))
}

/// Some shown entry has vertex data to upload.
pub open spec fn uploads_vertices(es: Seq<ViewData>) -> bool
    decreases es.len(),
{
    if es.len() == 0 {
        false
    } else {
        uploads_vertices(es.drop_last()) || (es.last().visible && es.last().dirty.has(DIRTY_VERTEX))
    }
}

/// The union of the boxes of all entries, shown or hidden.
pub open spec fn union_all(es: Seq<ViewData>) -> BBox
    decreases es.len(),
{
    if es.len() == 0 {
        empty_box()
    } else {
        box_union(union_all(es.drop_last()), es.last().bbox)
    }
}

/// The draw calls of the shown entries, entry by entry.
pub open spec fn draw_all_steps(es: Seq<ViewData>) -> Seq<Step>
    decreases es.len(),
{
    if es.len() == 0 {
        Seq::empty()
    } else {
        draw_all_steps(es.drop_last()) + if es.last().visible {
            draw_steps(es.last())
        } else {
            Seq::empty()
        }
    }
}

/// The GPU work of one frame: shared resources on the first frame, the
/// entries' uploads, a reframe when requested or when vertex data moved
/// (over a non-empty scene), new matrices when requested or when vertex
/// data moved, then the draw calls.
pub open spec fn frame_steps(m: ViewerModel) -> Seq<Step> {
    let moved = uploads_vertices(m.entries);
    (if m.shared_ready { Seq::empty() } else { seq![Step::CreateShared] })
        + sync_all_steps(m.entries)
        + (if (m.reframe_pending || moved) && m.entries.len() > 0 {
            seq![Step::Reframe { bbox: union_all(synced_all(m.entries)) }]
        } else {
            Seq::empty()
        })
        + (if m.matrix_pending || moved { seq![Step::UpdateMatrices] } else { Seq::empty() })
        + draw_all_steps(synced_all(m.entries))
}

/// The state once a frame is done.
pub open spec fn after_frame(m: ViewerModel) -> ViewerModel {
    ViewerModel {
        entries: synced_all(m.entries),
        shared_ready: true,
        reframe_pending: false,
        matrix_pending: false,
        ..m
    }
}

/// A viewer of a scene of meshes.
pub struct Viewer {
    data: Vec<ViewData>,
    next_data_id: u32,
    shared_ready: bool,
    zoom: u32,
    trackball_angle: F32x4,
    pressed_state: DragState,
    reframe_pending: bool,
    matrix_pending: bool,
}

impl View for Viewer {
    type V = ViewerModel;

    closed spec fn view(&self) -> ViewerModel {
        ViewerModel {
            entries: self.data@,
            next_id: self.next_data_id as nat,
            shared_ready: self.shared_ready,
            zoom: self.zoom,
            orientation: self.trackball_angle,
            drag: self.pressed_state,
            reframe_pending: self.reframe_pending,
            matrix_pending: self.matrix_pending,
        }
    }
}

impl Viewer {
    /// An empty scene: no meshes, zoom 1, identity orientation, no drag.
    pub fn new() -> (r: Viewer)
        ensures
            r@.wf(),
            r@.entries.len() == 0,
            r@.next_id == 0,
            !r@.shared_ready,
            r@.zoom == F32_ONE_BITS,
            r@.orientation == (F32x4 { x: F32_ONE_BITS, y: 0, z: 0, w: 0 }),
            r@.drag == DragState::Idle,
            !r@.reframe_pending,
            !r@.matrix_pending,
    {
        let r = Viewer {
            data: Vec::new(),
            next_data_id: 0,
            shared_ready: false,
            zoom: F32_ONE_BITS,
            trackball_angle: F32x4 { x: F32_ONE_BITS, y: 0, z: 0, w: 0 },
            pressed_state: DragState::Idle,
            reframe_pending: false,
            matrix_pending: false,
        };
        assert(zoom_ok(F32_ONE_BITS)) by (bit_vector);
        r
    }

    /// The number of mesh entries.
    pub fn len(&self) -> (r: usize)
        ensures
            r == self@.entries.len(),
    {
        self.data.len()
    }

    /// The entry at position `i`, by increasing id.
    pub fn entry_at(&self, i: usize) -> (r: &ViewData)
        requires
            i < self@.entries.len(),
        ensures
            *r == self@.entries[i as int],
    {
        &self.data[i]
    }

    /// The id that the next appended mesh gets.
    pub fn next_id(&self) -> (r: u32)
        ensures
            r == self@.next_id,
    {
        self.next_data_id
    }

    /// The position of the entry of id `id`.
    pub fn find(&self, id: u32) -> (r: Option<usize>)
        requires
            self@.wf(),
        ensures
            r is None <==> !has_id(self@.entries, id),
            r matches Some(i) ==> i < self@.entries.len() && self@.entries[i as int].id == id,
    {
        let mut i: usize = 0;
        while i < self.data.len()
            invariant
                i <= self.data.len(),
                forall|j: int| 0 <= j < i ==> (#[trigger] self.data@[j]).id != id,
            decreases self.data.len() - i,
        {
            if self.data[i].id == id {
                return Some(i);
            }
            i += 1;
        }
        None
    }

    /// The entry of id `id`, if there is one.
    pub fn entry(&self, id: u32) -> (r: Option<&ViewData>)
        requires
            self@.wf(),
        ensures
            r is None <==> !has_id(self@.entries, id),
            r matches Some(e) ==> e.id == id && self@.entries.contains(*e),
    {
        match self.find(id) {
            Some(i) => Some(&self.data[i]),
            None => None,
        }
    }

    /// Adds a mesh given by flat coordinate triples, a triangle list and one
    /// normal per triangle; returns its id. The entry starts visible, with
    /// every dirty flag set and no GPU resources.
    pub fn append_mesh(&mut self, points: &Vec<u32>, triangles: &Vec<usize>, normals: &Vec<F32x3>, color: F32x3) -> (r: u32)
        requires
            old(self)@.wf(),
            old(self)@.next_id < u32::MAX,
            valid_mesh(points@, triangles@, normals@),
        ensures
            final(self)@.wf(),
            r == old(self)@.next_id,
            !has_id(old(self)@.entries, r),
            has_id(final(self)@.entries, r),
            forall|i: int| 0 <= i < final(self)@.entries.len() ==> (#[trigger] final(self)@.entries[i]).id <= r,
            is_appended(
                old(self)@,
                final(self)@,
                Seq::new(triangles@.len(), |j: int| corner(points@, triangles@, normals@, j)),
                Material::new_spec(color),
            ),
    {
        let vertices = flat_vertices(points, triangles, normals);
        let material = Material::new(color);
        let id = self.next_data_id;
        let entry = ViewData::new(id, vertices, material);
        self.data.push(entry);
        self.next_data_id = id + 1;
        assert(self.data@.drop_last() =~= old(self).data@);
        assert(self.data@.last().vertices@ =~= Seq::new(triangles@.len(), |j: int| corner(points@, triangles@, normals@, j)));
        id
    }

    /// Deletes the entry of id `id` and its GPU resources, and marks the
    /// scene for reframing; returns whether there was such an entry.
    pub fn remove_data(&mut self, id: u32) -> (r: bool)
        requires
            old(self)@.wf(),
        ensures
            final(self)@.wf(),
            r == has_id(old(self)@.entries, id),
            is_removed(old(self)@, final(self)@, id),
    {
        match self.find(id) {
            Some(i) => {
                self.data.remove(i);
                self.reframe_pending = true;
                assert(old(self).data@[i as int].id == id);
                assert forall|a: int, b: int| 0 <= a < b < self.data@.len() implies (#[trigger] self.data@[a]).id < (#[trigger] self.data@[b]).id by {
                    let a0 = if a < i { a } else { a + 1 };
                    let b0 = if b < i { b } else { b + 1 };
                    assert(self.data@[a] == old(self).data@[a0]);
                    assert(self.data@[b] == old(self).data@[b0]);
                }
                assert forall|a: int| 0 <= a < self.data@.len() implies (#[trigger] self.data@[a]).id < self.next_data_id by {
                    let a0 = if a < i { a } else { a + 1 };
                    assert(self.data@[a] == old(self).data@[a0]);
                }
                true
            },
            None => false,
        }
    }

    /// Shows or hides the entry of id `id`; returns whether it exists.
    /// Visibility needs no upload.
    pub fn set_visible(&mut self, id: u32, visible: bool) -> (r: bool)
        requires
            old(self)@.wf(),
        ensures
            final(self)@.wf(),
            r == has_id(old(self)@.entries, id),
            is_updated(old(self)@, final(self)@, id, with_visible(visible)),
    {
        match self.find(id) {
            Some(i) => {
                let e = &mut self.data[i];
                e.set_visible(visible);
                proof { self.lemma_updated_at(*old(self), i as int, id, with_visible(visible)); }
                true
            },
            None => {
                proof { self.lemma_unchanged(id, with_visible(visible)); }
                false
            },
        }
    }

    /// Sets the wireframe edge width of the entry of id `id` and marks its material for
    /// upload; returns whether the entry exists.
    pub fn set_edge_width(&mut self, id: u32, width: u32) -> (r: bool)
        requires
            old(self)@.wf(),
        ensures
            final(self)@.wf(),
            r == has_id(old(self)@.entries, id),
            is_updated(old(self)@, final(self)@, id, with_material(with_edge_width(width))),
    {
        match self.find(id) {
            Some(i) => {
                let e = &mut self.data[i];
                e.material.edge_width = width;
                e.dirty.insert(DIRTY_MATERIAL);
                proof {
                    assert(self.data@[i as int] == with_material(with_edge_width(width))(old(self).data@[i as int]));
                    self.lemma_updated_at(*old(self), i as int, id, with_material(with_edge_width(width)));
                }
                true
            },
            None => {
                proof { self.lemma_unchanged(id, with_material(with_edge_width(width))); }
                false
            },
        }
    }

    /// Sets the wireframe edge colour of the entry of id `id` and marks its material for
    /// upload; returns whether the entry exists.
    pub fn set_edge_color(&mut self, id: u32, color: F32x4) -> (r: bool)
        requires
            old(self)@.wf(),
        ensures
            final(self)@.wf(),
            r == has_id(old(self)@.entries, id),
            is_updated(old(self)@, final(self)@, id, with_material(with_edge_color(color))),
    {
        match self.find(id) {
            Some(i) => {
                let e = &mut self.data[i];
                e.material.edge_color = color;
                e.dirty.insert(DIRTY_MATERIAL);
                proof {
                    assert(self.data@[i as int] == with_material(with_edge_color(color))(old(self).data@[i as int]));
                    self.lemma_updated_at(*old(self), i as int, id, with_material(with_edge_color(color)));
                }
                true
            },
            None => {
                proof { self.lemma_unchanged(id, with_material(with_edge_color(color))); }
                false
            },
        }
    }

    /// Sets the face colour of the entry of id `id` and marks its material for
    /// upload; returns whether the entry exists.
    pub fn set_face_color(&mut self, id: u32, color: F32x3) -> (r: bool)
        requires
            old(self)@.wf(),
        ensures
            final(self)@.wf(),
            r == has_id(old(self)@.entries, id),
            is_updated(old(self)@, final(self)@, id, with_material(with_face_color(color))),
    {
        match self.find(id) {
            Some(i) => {
                let e = &mut self.data[i];
                e.material.color = color;
                e.dirty.insert(DIRTY_MATERIAL);
                proof {
                    assert(self.data@[i as int] == with_material(with_face_color(color))(old(self).data@[i as int]));
                    self.lemma_updated_at(*old(self), i as int, id, with_material(with_face_color(color)));
                }
                true
            },
            None => {
                proof { self.lemma_unchanged(id, with_material(with_face_color(color))); }
                false
            },
        }
    }

    /// Sets the face alpha of the entry of id `id` and marks its material for
    /// upload; returns whether the entry exists.
    pub fn set_face_alpha(&mut self, id: u32, alpha: u32) -> (r: bool)
        requires
            old(self)@.wf(),
        ensures
            final(self)@.wf(),
            r == has_id(old(self)@.entries, id),
            is_updated(old(self)@, final(self)@, id, with_material(with_face_alpha(alpha))),
    {
        match self.find(id) {
            Some(i) => {
                let e = &mut self.data[i];
                e.material.alpha = alpha;
                e.dirty.insert(DIRTY_MATERIAL);
                proof {
                    assert(self.data@[i as int] == with_material(with_face_alpha(alpha))(old(self).data@[i as int]));
                    self.lemma_updated_at(*old(self), i as int, id, with_material(with_face_alpha(alpha)));
                }
                true
            },
            None => {
                proof { self.lemma_unchanged(id, with_material(with_face_alpha(alpha))); }
                false
            },
        }
    }

    /// Plans one frame and records its work as done: the steps are to be
    /// carried out in order against a ready graphics context.
    pub fn render(&mut self) -> (r: Vec<Step>)
        requires
            old(self)@.wf(),
        ensures
            final(self)@.wf(),
            r@ == frame_steps(old(self)@),
            final(self)@ == after_frame(old(self)@),
    {
        let ghost m = self@;
        let mut steps: Vec<Step> = Vec::new();
        if !self.shared_ready {
            steps.push(Step::CreateShared);
            self.shared_ready = true;
        }
        let ghost prefix = steps@;
        let mut moved = false;
        let mut i: usize = 0;
        while i < self.data.len()
            invariant
                self.data@.len() == m.entries.len(),
                i <= self.data@.len(),
                forall|j: int| 0 <= j < i ==> #[trigger] self.data@[j] == synced(m.entries[j]),
                forall|j: int| i <= j < self.data@.len() ==> #[trigger] self.data@[j] == m.entries[j],
                steps@ == prefix + sync_all_steps(m.entries.take(i as int)),
                moved == uploads_vertices(m.entries.take(i as int)),
                self.next_data_id == m.next_id,
                self.zoom == m.zoom,
                self.trackball_angle == m.orientation,
                self.pressed_state == m.drag,
                self.reframe_pending == m.reframe_pending,
                self.matrix_pending == m.matrix_pending,
                self.shared_ready,
            decreases self.data@.len() - i,
        {
            assert(m.entries.take(i as int + 1).drop_last() =~= m.entries.take(i as int));
            let shown = self.data[i].visible;
            let dirty_vertex = self.data[i].dirty.contains(DIRTY_VERTEX);
            moved = moved || (shown && dirty_vertex);
            self.data[i].sync_into(&mut steps);
            i += 1;
            assert(steps@ =~= prefix + sync_all_steps(m.entries.take(i as int)));
        }
        assert(m.entries.take(i as int) =~= m.entries);
        assert(self.data@ =~= synced_all(m.entries));
        let ghost es = self.data@;
        if (self.reframe_pending || moved) && self.data.len() > 0 {
            let mut bbox = BBox::empty();
            let mut k: usize = 0;
            while k < self.data.len()
                invariant
                    self.data@ == es,
                    k <= es.len(),
                    bbox == union_all(es.take(k as int)),
                decreases es.len() - k,
            {
                assert(es.take(k as int + 1).drop_last() =~= es.take(k as int));
                bbox.merge_box(&self.data[k].bbox);
                k += 1;
            }
            assert(es.take(k as int) =~= es);
            steps.push(Step::Reframe { bbox });
        }
        if self.matrix_pending || moved {
            steps.push(Step::UpdateMatrices);
        }
        let ghost before_draws = steps@;
        let mut k: usize = 0;
        while k < self.data.len()
            invariant
                self.data@ == es,
                k <= es.len(),
                steps@ == before_draws + draw_all_steps(es.take(k as int)),
            decreases es.len() - k,
        {
            assert(es.take(k as int + 1).drop_last() =~= es.take(k as int));
            if self.data[k].visible {
                self.data[k].draw_into(&mut steps);
            }
            k += 1;
            assert(steps@ =~= before_draws + draw_all_steps(es.take(k as int)));
        }
        assert(es.take(k as int) =~= es);
        self.reframe_pending = false;
        self.matrix_pending = false;
        assert(steps@ =~= frame_steps(m));
        steps
    }

    /// The left button went down: a left drag starts, to be anchored on the
    /// next cursor move.
    pub fn press_left(&mut self)
        ensures
            final(self)@ == (ViewerModel { drag: DragState::Left(None), ..old(self)@ }),
    {
        self.pressed_state = DragState::Left(None);
    }

    /// The right button went down: a right drag starts.
    pub fn press_right(&mut self)
        ensures
            final(self)@ == (ViewerModel { drag: DragState::Right(None), ..old(self)@ }),
    {
        self.pressed_state = DragState::Right(None);
    }

    /// A button went up: no drag is active.
    pub fn release(&mut self)
        ensures
            final(self)@ == (ViewerModel { drag: DragState::Idle, ..old(self)@ }),
    {
        self.pressed_state = DragState::Idle;
    }

    /// The cursor moved to `pos`. A drag without an anchor takes one here;
    /// during a left drag the result is the anchor to rotate from, and the
    /// caller then sets the orientation that the trackball gives.
    pub fn mouse_move(&mut self, pos: F64x2) -> (r: Option<Anchor>)
        ensures
            final(self)@ == (ViewerModel { drag: drag_moved(old(self)@.drag, pos, old(self)@.orientation), ..old(self)@ }),
            r == drag_anchor(old(self)@.drag, pos, old(self)@.orientation),
    {
        match self.pressed_state {
            DragState::Left(None) => {
                let a = Anchor { pos, orientation: self.trackball_angle };
                self.pressed_state = DragState::Left(Some(a));
                Some(a)
            },
            DragState::Left(Some(a)) => Some(a),
            DragState::Right(None) => {
                self.pressed_state = DragState::Right(Some(pos));
                None
            },
            _ => None,
        }
    }

    /// The trackball orientation, a unit quaternion (see [`F32x4`]).
    pub fn orientation(&self) -> (r: F32x4)
        ensures
            r == self@.orientation,
    {
        self.trackball_angle
    }

    /// Sets the trackball orientation; the matrices follow on the next frame.
    pub fn set_orientation(&mut self, q: F32x4)
        ensures
            final(self)@ == (ViewerModel { orientation: q, matrix_pending: true, ..old(self)@ }),
    {
        self.trackball_angle = q;
        self.matrix_pending = true;
    }

    /// The zoom multiplier.
    pub fn zoom(&self) -> (r: u32)
        ensures
            r == self@.zoom,
    {
        self.zoom
    }

    /// Which way a scroll of `delta_y` moves the zoom.
    pub fn mouse_scroll(&self, delta_y: u64) -> (r: ZoomStep)
        ensures
            r == zoom_step(delta_y),
    {
        zoom_step_of(delta_y)
    }

    /// Sets the zoom, held at 0.1 at least; the matrices follow on the next
    /// frame.
    pub fn set_zoom(&mut self, z: u32)
        requires
            old(self)@.wf(),
        ensures
            final(self)@.wf(),
            final(self)@ == (ViewerModel { zoom: clamped_zoom(z), matrix_pending: true, ..old(self)@ }),
    {
        self.zoom = clamp_zoom(z);
        self.matrix_pending = true;
    }

    /// Asks the next frame to recompute the aggregate bounding box.
    pub fn request_reframe(&mut self)
        ensures
            final(self)@ == (ViewerModel { reframe_pending: true, ..old(self)@ }),
    {
        self.reframe_pending = true;
    }

    /// Asks the next frame to recompute the camera matrices, as after a
    /// resize of the surface.
    pub fn request_matrices(&mut self)
        ensures
            final(self)@ == (ViewerModel { matrix_pending: true, ..old(self)@ }),
    {
        self.matrix_pending = true;
    }

    proof fn lemma_updated_at(&self, before: Viewer, i: int, id: u32, f: spec_fn(ViewData) -> ViewData)
        requires
            before@.wf(),
            0 <= i < before@.entries.len(),
            before@.entries[i].id == id,
            f(before@.entries[i]).id == id,
            f(before@.entries[i]).vertices == before@.entries[i].vertices,
            f(before@.entries[i]).bbox == before@.entries[i].bbox,
            self@ == (ViewerModel { entries: before@.entries.update(i, f(before@.entries[i])), ..before@ }),
        ensures
            self@.wf(),
            is_updated(before@, self@, id, f),
    {
        assert forall|j: int| 0 <= j < before@.entries.len() implies #[trigger] self@.entries[j] == if before@.entries[j].id == id {
            f(before@.entries[j])
        } else {
            before@.entries[j]
        } by {
            if j != i {
                if j < i {
                    assert(before@.entries[j].id < before@.entries[i].id);
                } else {
                    assert(before@.entries[i].id < before@.entries[j].id);
                }
            }
        }
        assert forall|a: int, b: int| 0 <= a < b < self@.entries.len() implies (#[trigger] self@.entries[a]).id < (#[trigger] self@.entries[b]).id by {
            assert(self@.entries[a].id == before@.entries[a].id);
            assert(self@.entries[b].id == before@.entries[b].id);
        }
        assert forall|a: int| 0 <= a < self@.entries.len() implies (#[trigger] self@.entries[a]).id < self@.next_id by {
            assert(self@.entries[a].id == before@.entries[a].id);
        }
    }

    proof fn lemma_unchanged(&self, id: u32, f: spec_fn(ViewData) -> ViewData)
        requires
            !has_id(self@.entries, id),
        ensures
            is_updated(self@, self@, id, f),
    {
        assert forall|j: int| 0 <= j < self@.entries.len() implies #[trigger] self@.entries[j] == if self@.entries[j].id == id {
            f(self@.entries[j])
        } else {
            self@.entries[j]
        } by {
            assert(self@.entries[j].id != id);
        }
    }
}

} // verus!

verus! {

/// `ms[k + 1]` follows from `ms[k]` by appending a mesh.
pub open spec fn appends_at(ms: Seq<ViewerModel>, k: int) -> bool {
    exists|vs: Seq<Vertex>, mat: Material| #[trigger] is_appended(ms[k], ms[k + 1], vs, mat)
}

/// `ms[k + 1]` follows from `ms[k]` by a removal.
pub open spec fn removes_at(ms: Seq<ViewerModel>, k: int) -> bool {
    exists|id: u32| #[trigger] is_removed(ms[k], ms[k + 1], id)
}

/// A run of appends and removals, each model well formed.
pub open spec fn is_edit_run(ms: Seq<ViewerModel>) -> bool {
    &&& forall|j: int| 0 <= j < ms.len() ==> (#[trigger] ms[j]).wf()
    &&& forall|k: int| 0 <= k < ms.len() - 1 ==> appends_at(ms, k) || removes_at(ms, k)
}

proof fn lemma_next_id_grows(ms: Seq<ViewerModel>, a: int, b: int)
    requires
        is_edit_run(ms),
        0 <= a <= b < ms.len(),
    ensures
        ms[a].next_id <= ms[b].next_id,
    decreases b - a,
{
    if a < b {
        lemma_next_id_grows(ms, a, b - 1);
        let k = b - 1;
        if appends_at(ms, k) {
            let (vs, mat) = choose|vs: Seq<Vertex>, mat: Material| #[trigger] is_appended(ms[k], ms[k + 1], vs, mat);
        } else {
            let id = choose|id: u32| #[trigger] is_removed(ms[k], ms[k + 1], id);
            if has_id(ms[k].entries, id) {
                let i = choose|i: int| 0 <= i < ms[k].entries.len() && (#[trigger] ms[k].entries[i]).id == id && ms[k + 1] == ViewerModel {
                    entries: ms[k].entries.remove(i),
                    reframe_pending: true,
                    ..ms[k]
                };
            }
        }
    }
}

/// Along any run of appends and removals, the ids that the appends hand
/// out strictly increase, and an id handed out is held by no entry at any
/// earlier point of the run, removed ones included.
pub proof fn lemma_ids_fresh(ms: Seq<ViewerModel>, k: int, l: int)
    requires
        is_edit_run(ms),
        0 <= k < l < ms.len() - 1,
        appends_at(ms, k),
        appends_at(ms, l),
    ensures
        ms[k].next_id < ms[l].next_id,
        forall|j: int| 0 <= j <= l ==> !has_id(#[trigger] ms[j].entries, ms[l].next_id as u32),
{
    let (vs, mat) = choose|vs: Seq<Vertex>, mat: Material| #[trigger] is_appended(ms[k], ms[k + 1], vs, mat);
    lemma_next_id_grows(ms, k + 1, l);
    assert forall|j: int| 0 <= j <= l implies !has_id(#[trigger] ms[j].entries, ms[l].next_id as u32) by {
        lemma_next_id_grows(ms, j, l);
        assert(ms[j].wf());
    }
}

/// The union of the boxes of the points of all entries, shown or hidden.
pub open spec fn points_union(es: Seq<ViewData>) -> BBox
    decreases es.len(),
{
    if es.len() == 0 {
        empty_box()
    } else {
        box_union(points_union(es.drop_last()), points_box(es.last().vertices@))
    }
}

proof fn lemma_framed_box(es: Seq<ViewData>)
    requires
        forall|i: int| 0 <= i < es.len() ==> (#[trigger] es[i]).bbox == points_box(es[i].vertices@),
    ensures
        union_all(synced_all(es)) == points_union(es),
    decreases es.len(),
{
    if es.len() > 0 {
        let head = es.drop_last();
        assert forall|i: int| 0 <= i < head.len() implies (#[trigger] head[i]).bbox == points_box(head[i].vertices@) by {
            assert(head[i] == es[i]);
        }
        lemma_framed_box(head);
        assert(synced_all(es).drop_last() =~= synced_all(head));
        assert(es[es.len() - 1] == es.last());
    }
}

/// Whenever a frame reframes the camera, the box it frames is the union of
/// the boxes of the points of every entry, shown or hidden, including
/// entries never shown yet.
pub proof fn lemma_reframe_box(m: ViewerModel)
    requires
        m.wf(),
        m.reframe_pending || uploads_vertices(m.entries),
        m.entries.len() > 0,
    ensures
        frame_steps(m).contains(Step::Reframe { bbox: points_union(m.entries) }),
{
    lemma_framed_box(m.entries);
    let pre = (if m.shared_ready { Seq::<Step>::empty() } else { seq![Step::CreateShared] }) + sync_all_steps(m.entries);
    let at = pre.len() as int;
    assert(frame_steps(m)[at] == Step::Reframe { bbox: points_union(m.entries) });
}

/// After a removal, the next frame reframes the camera, and the box it
/// frames is the union of the points' boxes of the entries that remain,
/// shown or hidden: the removed entry is not among them.
pub proof fn lemma_removal_reframes(a: ViewerModel, b: ViewerModel, id: u32)
    requires
        a.wf(),
        b.wf(),
        has_id(a.entries, id),
        is_removed(a, b, id),
        b.entries.len() > 0,
    ensures
        !has_id(b.entries, id),
        exists|i: int| 0 <= i < a.entries.len() && a.entries[i].id == id && #[trigger] a.entries.remove(i) == b.entries,
        frame_steps(b).contains(Step::Reframe { bbox: points_union(b.entries) }),
{
    let i = choose|i: int| 0 <= i < a.entries.len() && (#[trigger] a.entries[i]).id == id && b == ViewerModel {
        entries: a.entries.remove(i),
        reframe_pending: true,
        ..a
    };
    assert(a.entries.remove(i) == b.entries);
    assert forall|j: int| 0 <= j < b.entries.len() implies (#[trigger] b.entries[j]).id != id by {
        if j < i {
            assert(b.entries[j] == a.entries[j]);
        } else {
            assert(b.entries[j] == a.entries[j + 1]);
        }
    }
    lemma_reframe_box(b);
}

proof fn lemma_synced_clean(e: ViewData)
    ensures
        synced(e).visible ==> !synced(e).dirty.has(DIRTY_VERTEX),
        synced(e).id == e.id,
{
    if e.visible {
        crate::dirty::lemma_without(e.dirty.bits, DIRTY_VERTEX);
        crate::dirty::lemma_without(e.dirty.bits, DIRTY_MATERIAL);
        crate::dirty::lemma_without(e.dirty.bits & !DIRTY_VERTEX, DIRTY_MATERIAL);
    }
}

pub open spec fn no_vertex_upload(steps: Seq<Step>) -> bool {
    forall|j: int| 0 <= j < steps.len() ==> !(#[trigger] steps[j] is UploadVertices)
}

proof fn lemma_sync_clean_steps(es: Seq<ViewData>)
    requires
        forall|j: int| 0 <= j < es.len() ==> (#[trigger] es[j]).visible ==> !es[j].dirty.has(DIRTY_VERTEX),
    ensures
        no_vertex_upload(sync_all_steps(es)),
    decreases es.len(),
{
    if es.len() > 0 {
        lemma_sync_clean_steps(es.drop_last());
        assert(es.drop_last().len() < es.len());
        let last = es.last();
        assert(es[es.len() - 1] == last);
        let s = sync_steps(last);
        assert(no_vertex_upload(s));
        let all = sync_all_steps(es.drop_last()) + s;
        assert forall|j: int| 0 <= j < all.len() implies !(#[trigger] all[j] is UploadVertices) by {
            if j >= sync_all_steps(es.drop_last()).len() {
                assert(all[j] == s[j - sync_all_steps(es.drop_last()).len()]);
            }
        }
    }
}

proof fn lemma_draws_only(es: Seq<ViewData>)
    ensures
        no_vertex_upload(draw_all_steps(es)),
    decreases es.len(),
{
    if es.len() > 0 {
        lemma_draws_only(es.drop_last());
        let d = if es.last().visible { draw_steps(es.last()) } else { Seq::empty() };
        let all = draw_all_steps(es.drop_last()) + d;
        assert forall|j: int| 0 <= j < all.len() implies !(#[trigger] all[j] is UploadVertices) by {
            if j >= draw_all_steps(es.drop_last()).len() {
                assert(all[j] == d[j - draw_all_steps(es.drop_last()).len()]);
            }
        }
    }
}

proof fn lemma_sync_uploads(es: Seq<ViewData>, i: int)
    requires
        0 <= i < es.len(),
        es[i].visible,
        es[i].dirty.has(DIRTY_VERTEX),
    ensures
        sync_all_steps(es).contains(Step::UploadVertices { id: es[i].id }),
    decreases es.len(),
{
    let head = sync_all_steps(es.drop_last());
    if i < es.len() - 1 {
        assert(es.drop_last()[i] == es[i]);
        lemma_sync_uploads(es.drop_last(), i);
        let j = choose|j: int| 0 <= j < head.len() && head[j] == Step::UploadVertices { id: es[i].id };
        assert(sync_all_steps(es)[j] == head[j]);
    } else {
        let e = es.last();
        let first = if e.gpu == GpuState::Uninitialized { seq![Step::InitMesh { id: e.id }] } else { Seq::empty() };
        let at = (head.len() + first.len()) as int;
        assert(sync_all_steps(es)[at] == Step::UploadVertices { id: e.id });
    }
}

/// The first frame holds a vertex upload for every shown entry whose vertex
/// data is dirty, and the frame after it holds no vertex upload at all.
pub proof fn lemma_vertex_upload_once(m: ViewerModel)
    ensures
        forall|i: int|
            0 <= i < m.entries.len() && m.entries[i].visible && (#[trigger] m.entries[i]).dirty.has(DIRTY_VERTEX)
                ==> frame_steps(m).contains(Step::UploadVertices { id: m.entries[i].id }),
        no_vertex_upload(frame_steps(after_frame(m))),
{
    assert forall|i: int|
        0 <= i < m.entries.len() && m.entries[i].visible && (#[trigger] m.entries[i]).dirty.has(DIRTY_VERTEX)
            implies frame_steps(m).contains(Step::UploadVertices { id: m.entries[i].id }) by {
        lemma_sync_uploads(m.entries, i);
        let pre = if m.shared_ready { Seq::<Step>::empty() } else { seq![Step::CreateShared] };
        let body = sync_all_steps(m.entries);
        let j = choose|j: int| 0 <= j < body.len() && body[j] == Step::UploadVertices { id: m.entries[i].id };
        assert(frame_steps(m)[pre.len() as int + j] == body[j]);
    }
    let n = after_frame(m);
    let es = n.entries;
    assert forall|j: int| 0 <= j < es.len() && (#[trigger] es[j]).visible implies !es[j].dirty.has(DIRTY_VERTEX) by {
        lemma_synced_clean(m.entries[j]);
    }
    lemma_sync_clean_steps(es);
    lemma_draws_only(synced_all(es));
    let steps = frame_steps(n);
    let a = sync_all_steps(es);
    let b = (if (n.reframe_pending || uploads_vertices(es)) && es.len() > 0 {
        seq![Step::Reframe { bbox: union_all(synced_all(es)) }]
    } else {
        Seq::empty()
    });
    let c = (if n.matrix_pending || uploads_vertices(es) { seq![Step::UpdateMatrices] } else { Seq::empty() });
    let d = draw_all_steps(synced_all(es));
    assert(steps == Seq::<Step>::empty() + a + b + c + d);
    assert forall|j: int| 0 <= j < steps.len() implies !(#[trigger] steps[j] is UploadVertices) by {
        if j < a.len() {
            assert(steps[j] == a[j]);
        } else if j < a.len() + b.len() {
            assert(steps[j] == b[j - a.len()]);
        } else if j < a.len() + b.len() + c.len() {
            assert(steps[j] == c[j - a.len() - b.len()]);
        } else {
            assert(steps[j] == d[j - a.len() - b.len() - c.len()]);
        }
    }
}

} // verus!

verus! {

pub open spec fn is_draw_of(id: u32) -> spec_fn(Step) -> bool {
    |s: Step| s matches Step::Draw { id: d, .. } && d == id
}

/// The draw calls of mesh `id` among `steps`, in order.
pub open spec fn draws_of(steps: Seq<Step>, id: u32) -> Seq<Step> {
    steps.filter(is_draw_of(id))
}

proof fn lemma_filter_short(s: Seq<Step>, pred: spec_fn(Step) -> bool)
    requires
        s.len() <= 2,
    ensures
        (forall|j: int| 0 <= j < s.len() ==> pred(#[trigger] s[j])) ==> s.filter(pred) == s,
        (forall|j: int| 0 <= j < s.len() ==> !pred(#[trigger] s[j])) ==> s.filter(pred) == Seq::<Step>::empty(),
{
    reveal_with_fuel(Seq::filter, 3);
    if s.len() == 2 {
        assert(s.drop_last().drop_last() =~= Seq::<Step>::empty());
        assert(s.drop_last() =~= seq![s[0]]);
    } else if s.len() == 1 {
        assert(s.drop_last() =~= Seq::<Step>::empty());
    }
    if forall|j: int| 0 <= j < s.len() ==> pred(#[trigger] s[j]) {
        assert(s.filter(pred) =~= s);
    }
    if forall|j: int| 0 <= j < s.len() ==> !pred(#[trigger] s[j]) {
        assert(s.filter(pred) =~= Seq::<Step>::empty());
    }
}

proof fn lemma_draws_of_short(s: Seq<Step>, id: u32)
    requires
        s.len() <= 2,
    ensures
        (forall|j: int| 0 <= j < s.len() ==> is_draw_of(id)(#[trigger] s[j])) ==> draws_of(s, id) == s,
        (forall|j: int| 0 <= j < s.len() ==> !is_draw_of(id)(#[trigger] s[j])) ==> draws_of(s, id) == Seq::<Step>::empty(),
{
    lemma_filter_short(s, is_draw_of(id));
}

proof fn lemma_sync_no_draws(es: Seq<ViewData>, id: u32)
    ensures
        draws_of(sync_all_steps(es), id) == Seq::<Step>::empty(),
    decreases es.len(),
{
    if es.len() > 0 {
        lemma_sync_no_draws(es.drop_last(), id);
        let e = es.last();
        let a = if e.gpu == GpuState::Uninitialized { seq![Step::InitMesh { id: e.id }] } else { Seq::empty() };
        let b = if e.dirty.has(DIRTY_VERTEX) { seq![Step::UploadVertices { id: e.id }] } else { Seq::empty() };
        let c = if e.dirty.has(DIRTY_MATERIAL) { seq![Step::UploadMaterial { id: e.id }] } else { Seq::empty() };
        lemma_draws_of_short(a, id);
        lemma_draws_of_short(b, id);
        lemma_draws_of_short(c, id);
        lemma_draws_of_short(Seq::<Step>::empty(), id);
        Seq::filter_distributes_over_add(a, b, is_draw_of(id));
        Seq::filter_distributes_over_add(a + b, c, is_draw_of(id));
        Seq::filter_distributes_over_add(sync_all_steps(es.drop_last()), sync_steps(e), is_draw_of(id));
        assert(draws_of(sync_all_steps(es), id) =~= Seq::<Step>::empty());
    }
}

proof fn lemma_draws_in(es: Seq<ViewData>, id: u32, i: int)
    requires
        forall|j: int| 0 <= j < es.len() && (#[trigger] es[j]).id == id ==> j == i,
        0 <= i < es.len() ==> es[i].id == id,
    ensures
        draws_of(draw_all_steps(es), id) == if 0 <= i < es.len() && es[i].visible {
            draw_steps(es[i])
        } else {
            Seq::<Step>::empty()
        },
    decreases es.len(),
{
    if es.len() == 0 {
        lemma_draws_of_short(Seq::<Step>::empty(), id);
    } else {
        let head = es.drop_last();
        assert forall|j: int| 0 <= j < head.len() && (#[trigger] head[j]).id == id implies j == i by {
            assert(head[j] == es[j]);
        }
        lemma_draws_in(head, id, i);
        let e = es.last();
        let d = if e.visible { draw_steps(e) } else { Seq::empty() };
        lemma_draws_of_short(d, id);
        Seq::filter_distributes_over_add(draw_all_steps(head), d, is_draw_of(id));
        if 0 <= i < head.len() {
            assert(head[i] == es[i]);
        }
        assert(draws_of(draw_all_steps(es), id) =~= if 0 <= i < es.len() && es[i].visible {
            draw_steps(es[i])
        } else {
            Seq::<Step>::empty()
        });
    }
}

/// In every frame a shown mesh issues exactly its own draw calls: one
/// back-face-culled draw when it is opaque (alpha at least 0.999); when it
/// is transparent, a front-face-culled draw followed by a back-face-culled
/// one. A hidden mesh issues none.
pub proof fn lemma_frame_draws(m: ViewerModel, i: int)
    requires
        m.wf(),
        0 <= i < m.entries.len(),
    ensures
        draws_of(frame_steps(m), m.entries[i].id) == if m.entries[i].visible {
            draw_steps(m.entries[i])
        } else {
            Seq::<Step>::empty()
        },
        draw_steps(m.entries[i]) == if m.entries[i].material.transparent() {
            seq![
                Step::Draw { id: m.entries[i].id, cull: Cull::Front },
                Step::Draw { id: m.entries[i].id, cull: Cull::Back },
            ]
        } else {
            seq![Step::Draw { id: m.entries[i].id, cull: Cull::Back }]
        },
{
    let id = m.entries[i].id;
    let es = synced_all(m.entries);
    assert forall|j: int| 0 <= j < es.len() && (#[trigger] es[j]).id == id implies j == i by {
        if j < i {
            assert(m.entries[j].id < m.entries[i].id);
        } else if j > i {
            assert(m.entries[i].id < m.entries[j].id);
        }
    }
    lemma_draws_in(es, id, i);
    lemma_sync_no_draws(m.entries, id);
    let moved = uploads_vertices(m.entries);
    let p = if m.shared_ready { Seq::<Step>::empty() } else { seq![Step::CreateShared] };
    let a = sync_all_steps(m.entries);
    let b = if (m.reframe_pending || moved) && m.entries.len() > 0 {
        seq![Step::Reframe { bbox: union_all(es) }]
    } else {
        Seq::empty()
    };
    let c = if m.matrix_pending || moved { seq![Step::UpdateMatrices] } else { Seq::empty() };
    let d = draw_all_steps(es);
    lemma_draws_of_short(p, id);
    lemma_draws_of_short(b, id);
    lemma_draws_of_short(c, id);
    Seq::filter_distributes_over_add(p, a, is_draw_of(id));
    Seq::filter_distributes_over_add(p + a, b, is_draw_of(id));
    Seq::filter_distributes_over_add(p + a + b, c, is_draw_of(id));
    Seq::filter_distributes_over_add(p + a + b + c, d, is_draw_of(id));
    assert(es[i] == synced(m.entries[i]));
    assert(draw_steps(es[i]) == draw_steps(m.entries[i]));
    assert(draws_of(frame_steps(m), id) =~= if m.entries[i].visible {
        draw_steps(m.entries[i])
    } else {
        Seq::<Step>::empty()
    });
}

} // verus!

verus! {

pub open spec fn is_upload_of(id: u32) -> spec_fn(Step) -> bool {
    |s: Step| s == Step::UploadVertices { id }
}

/// The vertex uploads of mesh `id` among `steps`.
pub open spec fn uploads_of(steps: Seq<Step>, id: u32) -> Seq<Step> {
    steps.filter(is_upload_of(id))
}

proof fn lemma_filter_none(s: Seq<Step>, pred: spec_fn(Step) -> bool)
    requires
        forall|j: int| 0 <= j < s.len() ==> !pred(#[trigger] s[j]),
    ensures
        s.filter(pred) == Seq::<Step>::empty(),
    decreases s.len(),
{
    reveal(Seq::filter);
    if s.len() > 0 {
        let head = s.drop_last();
        assert forall|j: int| 0 <= j < head.len() implies !pred(#[trigger] head[j]) by {
            assert(head[j] == s[j]);
        }
        lemma_filter_none(head, pred);
        assert(!pred(s[s.len() - 1]));
    }
}

proof fn lemma_entry_uploads(e: ViewData, id: u32)
    ensures
        uploads_of(sync_steps(e), id) == if e.id == id && e.visible && e.dirty.has(DIRTY_VERTEX) {
            seq![Step::UploadVertices { id }]
        } else {
            Seq::<Step>::empty()
        },
{
    let p = is_upload_of(id);
    if !e.visible {
        lemma_filter_short(Seq::<Step>::empty(), p);
    } else {
        let a = if e.gpu == GpuState::Uninitialized { seq![Step::InitMesh { id: e.id }] } else { Seq::empty() };
        let b = if e.dirty.has(DIRTY_VERTEX) { seq![Step::UploadVertices { id: e.id }] } else { Seq::empty() };
        let c = if e.dirty.has(DIRTY_MATERIAL) { seq![Step::UploadMaterial { id: e.id }] } else { Seq::empty() };
        lemma_filter_short(a, p);
        lemma_filter_short(b, p);
        lemma_filter_short(c, p);
        Seq::filter_distributes_over_add(a, b, p);
        Seq::filter_distributes_over_add(a + b, c, p);
        assert(uploads_of(sync_steps(e), id) =~= if e.id == id && e.dirty.has(DIRTY_VERTEX) {
            seq![Step::UploadVertices { id }]
        } else {
            Seq::<Step>::empty()
        });
    }
}

proof fn lemma_uploads_in(es: Seq<ViewData>, id: u32, i: int)
    requires
        forall|j: int| 0 <= j < es.len() && (#[trigger] es[j]).id == id ==> j == i,
        0 <= i < es.len() ==> es[i].id == id,
    ensures
        uploads_of(sync_all_steps(es), id) == if 0 <= i < es.len() && es[i].visible && es[i].dirty.has(DIRTY_VERTEX) {
            seq![Step::UploadVertices { id }]
        } else {
            Seq::<Step>::empty()
        },
    decreases es.len(),
{
    let p = is_upload_of(id);
    if es.len() == 0 {
        lemma_filter_short(Seq::<Step>::empty(), p);
    } else {
        let head = es.drop_last();
        assert forall|j: int| 0 <= j < head.len() && (#[trigger] head[j]).id == id implies j == i by {
            assert(head[j] == es[j]);
        }
        lemma_uploads_in(head, id, i);
        let e = es.last();
        lemma_entry_uploads(e, id);
        Seq::filter_distributes_over_add(sync_all_steps(head), sync_steps(e), p);
        if 0 <= i < head.len() {
            assert(head[i] == es[i]);
            assert(e.id != id);
            assert(uploads_of(sync_all_steps(es), id) =~= uploads_of(sync_all_steps(head), id));
        } else if i == es.len() - 1 {
            assert(uploads_of(sync_all_steps(head), id) == Seq::<Step>::empty());
            assert(uploads_of(sync_all_steps(es), id) =~= uploads_of(sync_steps(e), id));
        } else {
            assert(e.id != id);
            assert(uploads_of(sync_all_steps(es), id) =~= Seq::<Step>::empty());
        }
    }
}

proof fn lemma_draws_upload_free(es: Seq<ViewData>, id: u32)
    ensures
        uploads_of(draw_all_steps(es), id) == Seq::<Step>::empty(),
    decreases es.len(),
{
    let p = is_upload_of(id);
    if es.len() == 0 {
        lemma_filter_short(Seq::<Step>::empty(), p);
    } else {
        lemma_draws_upload_free(es.drop_last(), id);
        let d = if es.last().visible { draw_steps(es.last()) } else { Seq::empty() };
        lemma_filter_short(d, p);
        Seq::filter_distributes_over_add(draw_all_steps(es.drop_last()), d, p);
        assert(uploads_of(draw_all_steps(es), id) =~= Seq::<Step>::empty());
    }
}

/// A frame uploads the vertex buffer of a shown mesh whose vertex data is
/// dirty exactly once, and the frame after it, with nothing changed in
/// between, uploads no vertex buffer at all: over the two frames the
/// upload happens exactly once.
pub proof fn lemma_vertex_upload_exactly_once(m: ViewerModel, i: int)
    requires
        m.wf(),
        0 <= i < m.entries.len(),
        m.entries[i].visible,
        m.entries[i].dirty.has(DIRTY_VERTEX),
    ensures
        uploads_of(frame_steps(m), m.entries[i].id) == seq![Step::UploadVertices { id: m.entries[i].id }],
        uploads_of(frame_steps(after_frame(m)), m.entries[i].id) == Seq::<Step>::empty(),
        !after_frame(m).entries[i].dirty.has(DIRTY_VERTEX),
{
    let id = m.entries[i].id;
    let p = is_upload_of(id);
    assert forall|j: int| 0 <= j < m.entries.len() && (#[trigger] m.entries[j]).id == id implies j == i by {
        if j < i {
            assert(m.entries[j].id < m.entries[i].id);
        } else if j > i {
            assert(m.entries[i].id < m.entries[j].id);
        }
    }
    lemma_uploads_in(m.entries, id, i);
    let es = synced_all(m.entries);
    lemma_draws_upload_free(es, id);
    let moved = uploads_vertices(m.entries);
    let pre = if m.shared_ready { Seq::<Step>::empty() } else { seq![Step::CreateShared] };
    let a = sync_all_steps(m.entries);
    let b = if (m.reframe_pending || moved) && m.entries.len() > 0 {
        seq![Step::Reframe { bbox: union_all(es) }]
    } else {
        Seq::empty()
    };
    let c = if m.matrix_pending || moved { seq![Step::UpdateMatrices] } else { Seq::empty() };
    let d = draw_all_steps(es);
    lemma_filter_short(pre, p);
    lemma_filter_short(b, p);
    lemma_filter_short(c, p);
    Seq::filter_distributes_over_add(pre, a, p);
    Seq::filter_distributes_over_add(pre + a, b, p);
    Seq::filter_distributes_over_add(pre + a + b, c, p);
    Seq::filter_distributes_over_add(pre + a + b + c, d, p);
    assert(uploads_of(frame_steps(m), id) =~= seq![Step::UploadVertices { id }]);

    lemma_vertex_upload_once(m);
    lemma_synced_clean(m.entries[i]);
    let second = frame_steps(after_frame(m));
    assert forall|j: int| 0 <= j < second.len() implies !p(#[trigger] second[j]) by {
        assert(!(second[j] is UploadVertices));
    }
    lemma_filter_none(second, p);
}

} // verus!

verus! {

pub open spec fn is_draw() -> spec_fn(Step) -> bool {
    |s: Step| s is Draw
}

/// The number of draw calls that the shown entries issue: one for an
/// opaque entry, two for a transparent one.
pub open spec fn draw_total(es: Seq<ViewData>) -> nat
    decreases es.len(),
{
    if es.len() == 0 {
        0
    } else {
        draw_total(es.drop_last()) + if !es.last().visible {
            0nat
        } else if es.last().material.transparent() {
            2nat
        } else {
            1nat
        }
    }
}

proof fn lemma_sync_steps_draw_free(es: Seq<ViewData>)
    ensures
        sync_all_steps(es).filter(is_draw()) == Seq::<Step>::empty(),
    decreases es.len(),
{
    let p = is_draw();
    if es.len() == 0 {
        lemma_filter_short(Seq::<Step>::empty(), p);
    } else {
        lemma_sync_steps_draw_free(es.drop_last());
        let e = es.last();
        let a = if e.gpu == GpuState::Uninitialized { seq![Step::InitMesh { id: e.id }] } else { Seq::empty() };
        let b = if e.dirty.has(DIRTY_VERTEX) { seq![Step::UploadVertices { id: e.id }] } else { Seq::empty() };
        let c = if e.dirty.has(DIRTY_MATERIAL) { seq![Step::UploadMaterial { id: e.id }] } else { Seq::empty() };
        lemma_filter_short(a, p);
        lemma_filter_short(b, p);
        lemma_filter_short(c, p);
        lemma_filter_short(Seq::<Step>::empty(), p);
        Seq::filter_distributes_over_add(a, b, p);
        Seq::filter_distributes_over_add(a + b, c, p);
        Seq::filter_distributes_over_add(sync_all_steps(es.drop_last()), sync_steps(e), p);
        assert(sync_all_steps(es).filter(p) =~= Seq::<Step>::empty());
    }
}

proof fn lemma_draw_steps_total(es: Seq<ViewData>)
    ensures
        draw_all_steps(es).filter(is_draw()) == draw_all_steps(es),
        draw_all_steps(es).len() == draw_total(es),
    decreases es.len(),
{
    let p = is_draw();
    if es.len() == 0 {
        lemma_filter_short(Seq::<Step>::empty(), p);
    } else {
        lemma_draw_steps_total(es.drop_last());
        let d = if es.last().visible { draw_steps(es.last()) } else { Seq::empty() };
        lemma_filter_short(d, p);
        Seq::filter_distributes_over_add(draw_all_steps(es.drop_last()), d, p);
    }
}

/// The draw calls of a frame are those of the shown entries, entry by
/// entry, and there are as many as `draw_total` counts: one per opaque
/// shown entry, two per transparent one, none for a hidden one.
pub proof fn lemma_frame_draw_total(m: ViewerModel)
    ensures
        frame_steps(m).filter(is_draw()) == draw_all_steps(synced_all(m.entries)),
        frame_steps(m).filter(is_draw()).len() == draw_total(m.entries),
{
    let p = is_draw();
    let es = synced_all(m.entries);
    lemma_sync_steps_draw_free(m.entries);
    lemma_draw_steps_total(es);
    let moved = uploads_vertices(m.entries);
    let pre = if m.shared_ready { Seq::<Step>::empty() } else { seq![Step::CreateShared] };
    let a = sync_all_steps(m.entries);
    let b = if (m.reframe_pending || moved) && m.entries.len() > 0 {
        seq![Step::Reframe { bbox: union_all(es) }]
    } else {
        Seq::empty()
    };
    let c = if m.matrix_pending || moved { seq![Step::UpdateMatrices] } else { Seq::empty() };
    let d = draw_all_steps(es);
    lemma_filter_short(pre, p);
    lemma_filter_short(b, p);
    lemma_filter_short(c, p);
    Seq::filter_distributes_over_add(pre, a, p);
    Seq::filter_distributes_over_add(pre + a, b, p);
    Seq::filter_distributes_over_add(pre + a + b, c, p);
    Seq::filter_distributes_over_add(pre + a + b + c, d, p);
    assert(frame_steps(m).filter(p) =~= d);
    lemma_draw_total_synced(m.entries);
}

proof fn lemma_draw_total_synced(es: Seq<ViewData>)
    ensures
        draw_total(synced_all(es)) == draw_total(es),
    decreases es.len(),
{
    if es.len() > 0 {
        lemma_draw_total_synced(es.drop_last());
        assert(synced_all(es).drop_last() =~= synced_all(es.drop_last()));
        assert(synced_all(es).last() == synced(es.last()));
    }
}

} // verus!
