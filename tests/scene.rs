use mesh_viewer::{BBox, Cull, F32x3, F32x4, Step, Viewer};

fn bits3(x: f32, y: f32, z: f32) -> F32x3 {
    F32x3 { x: x.to_bits(), y: y.to_bits(), z: z.to_bits() }
}

fn value3(p: F32x3) -> [f32; 3] {
    [f32::from_bits(p.x), f32::from_bits(p.y), f32::from_bits(p.z)]
}

fn flat(points: &[f32]) -> Vec<u32> {
    points.iter().map(|v| v.to_bits()).collect()
}

/// A unit cube centred on the origin: 8 corners at ±0.5, 12 triangles.
fn cube(scale: f32, shift: f32) -> (Vec<u32>, Vec<usize>, Vec<F32x3>) {
    let mut points = Vec::new();
    for i in 0..8 {
        let x = if i & 1 == 0 { -0.5 } else { 0.5 };
        let y = if i & 2 == 0 { -0.5 } else { 0.5 };
        let z = if i & 4 == 0 { -0.5 } else { 0.5 };
        points.extend_from_slice(&[x * scale + shift, y * scale + shift, z * scale + shift]);
    }
    let triangles: Vec<usize> = vec![
        0, 2, 1, 1, 2, 3, 4, 5, 6, 5, 7, 6, 0, 1, 4, 1, 5, 4, 2, 6, 3, 3, 6, 7, 0, 4, 2, 2, 4, 6, 1,
        3, 5, 3, 7, 5,
    ];
    let normals = vec![bits3(0.0, 0.0, 1.0); 12];
    (flat(&points), triangles, normals)
}

fn triangle_mesh() -> (Vec<u32>, Vec<usize>, Vec<F32x3>) {
    let points = flat(&[0.0, 0.0, 0.0, 2.0, 0.0, 0.0, 0.0, 3.0, -1.0]);
    (points, vec![0, 1, 2], vec![bits3(0.0, 0.0, 1.0)])
}

fn add(v: &mut Viewer, mesh: &(Vec<u32>, Vec<usize>, Vec<F32x3>)) -> u32 {
    v.append_mesh(&mesh.0, &mesh.1, &mesh.2, bits3(0.2, 0.4, 0.6))
}

fn reframe_box(steps: &[Step]) -> Option<BBox> {
    steps.iter().find_map(|s| match s {
        Step::Reframe { bbox } => Some(*bbox),
        _ => None,
    })
}

fn count(steps: &[Step], wanted: &Step) -> usize {
    steps.iter().filter(|s| *s == wanted).count()
}

#[test]
fn ids_increase_and_are_never_reused() {
    let mut v = Viewer::new();
    let mesh = triangle_mesh();
    let mut ids = Vec::new();
    for _ in 0..5 {
        ids.push(add(&mut v, &mesh));
    }
    assert_eq!(ids, vec![0, 1, 2, 3, 4]);
    assert!(v.remove_data(4));
    assert!(v.remove_data(2));
    let next = add(&mut v, &mesh);
    assert_eq!(next, 5);
    assert!(ids.iter().all(|&i| i < next));
    assert!(!v.remove_data(4));
    assert_eq!(v.len(), 4);
    assert_eq!(v.next_id(), 6);
    let order: Vec<u32> = (0..v.len()).map(|i| v.entry_at(i).id).collect();
    assert_eq!(order, vec![0, 1, 3, 5]);
}

#[test]
fn unit_cube_box() {
    let mut v = Viewer::new();
    add(&mut v, &cube(1.0, 0.0));
    let steps = v.render();
    let b = reframe_box(&steps).expect("the first frame reframes");
    assert_eq!(value3(b.min), [-0.5, -0.5, -0.5]);
    assert_eq!(value3(b.max), [0.5, 0.5, 0.5]);
    let e = v.entry(0).unwrap();
    assert_eq!(e.bbox, b);
    assert_eq!(e.vertices.len(), 36);
}

#[test]
fn first_frame_steps_in_order() {
    let mut v = Viewer::new();
    let id = add(&mut v, &triangle_mesh());
    let steps = v.render();
    assert_eq!(steps.len(), 7);
    assert_eq!(steps[0], Step::CreateShared);
    assert_eq!(steps[1], Step::InitMesh { id });
    assert_eq!(steps[2], Step::UploadVertices { id });
    assert_eq!(steps[3], Step::UploadMaterial { id });
    let b = reframe_box(&steps).unwrap();
    assert_eq!(steps[4], Step::Reframe { bbox: b });
    assert_eq!(value3(b.min), [0.0, 0.0, -1.0]);
    assert_eq!(value3(b.max), [2.0, 3.0, 0.0]);
    assert_eq!(steps[5], Step::UpdateMatrices);
    assert_eq!(steps[6], Step::Draw { id, cull: Cull::Back });
}

#[test]
fn empty_scene_creates_shared_resources_once() {
    let mut v = Viewer::new();
    assert_eq!(v.render(), vec![Step::CreateShared]);
    assert_eq!(v.render(), Vec::<Step>::new());
}

#[test]
fn removal_shrinks_the_framed_box() {
    let mut v = Viewer::new();
    let small = add(&mut v, &cube(1.0, 0.0));
    let big = add(&mut v, &cube(4.0, 10.0));
    let first = reframe_box(&v.render()).unwrap();
    assert_eq!(value3(first.min), [-0.5, -0.5, -0.5]);
    assert_eq!(value3(first.max), [12.0, 12.0, 12.0]);
    assert!(v.remove_data(big));
    let second = reframe_box(&v.render()).expect("a removal reframes");
    assert_eq!(value3(second.min), [-0.5, -0.5, -0.5]);
    assert_eq!(value3(second.max), [0.5, 0.5, 0.5]);
    assert!(v.entry(small).is_some());
    assert!(v.entry(big).is_none());
}

#[test]
fn hidden_entries_still_count_in_the_box() {
    let mut v = Viewer::new();
    let a = add(&mut v, &cube(1.0, 0.0));
    let b = add(&mut v, &cube(2.0, 5.0));
    v.render();
    assert!(v.set_visible(b, false));
    v.request_reframe();
    let steps = v.render();
    let framed = reframe_box(&steps).unwrap();
    assert_eq!(value3(framed.max), [6.0, 6.0, 6.0]);
    assert_eq!(count(&steps, &Step::Draw { id: a, cull: Cull::Back }), 1);
    assert!(steps.iter().all(|s| !matches!(s, Step::Draw { id, .. } if *id == b)));
}

#[test]
fn mesh_hidden_before_its_first_frame_counts_in_the_box() {
    let mut v = Viewer::new();
    let hidden = add(&mut v, &cube(2.0, 5.0));
    assert!(v.set_visible(hidden, false));
    v.request_reframe();
    let steps = v.render();
    let framed = reframe_box(&steps).expect("a requested reframe happens");
    assert_eq!(value3(framed.min), [4.0, 4.0, 4.0]);
    assert_eq!(value3(framed.max), [6.0, 6.0, 6.0]);
    assert!(steps.iter().all(|s| !matches!(s, Step::InitMesh { .. } | Step::Draw { .. })));
}

#[test]
fn removal_leaving_a_never_shown_mesh_frames_its_points() {
    let mut v = Viewer::new();
    let shown = add(&mut v, &cube(1.0, 0.0));
    let hidden = add(&mut v, &cube(2.0, 5.0));
    assert!(v.set_visible(hidden, false));
    v.render();
    assert!(v.remove_data(shown));
    let framed = reframe_box(&v.render()).expect("a removal reframes");
    assert_eq!(value3(framed.min), [4.0, 4.0, 4.0]);
    assert_eq!(value3(framed.max), [6.0, 6.0, 6.0]);
}

#[test]
fn new_entry_holds_the_box_of_its_points() {
    let mut v = Viewer::new();
    let id = add(&mut v, &triangle_mesh());
    let b = v.entry(id).unwrap().bbox;
    assert_eq!(value3(b.min), [0.0, 0.0, -1.0]);
    assert_eq!(value3(b.max), [2.0, 3.0, 0.0]);
}

#[test]
fn draw_total_counts_each_shown_mesh() {
    let mut v = Viewer::new();
    let a = add(&mut v, &triangle_mesh());
    let b = add(&mut v, &triangle_mesh());
    let c = add(&mut v, &triangle_mesh());
    assert!(v.set_face_alpha(b, 0.25f32.to_bits()));
    assert!(v.set_visible(c, false));
    let steps = v.render();
    let draws: Vec<&Step> = steps.iter().filter(|s| matches!(s, Step::Draw { .. })).collect();
    assert_eq!(
        draws,
        vec![
            &Step::Draw { id: a, cull: Cull::Back },
            &Step::Draw { id: b, cull: Cull::Front },
            &Step::Draw { id: b, cull: Cull::Back },
        ]
    );
}

#[test]
fn opaque_mesh_draws_once() {
    let mut v = Viewer::new();
    let id = add(&mut v, &triangle_mesh());
    assert!(v.set_face_alpha(id, 0.999f32.to_bits()));
    let steps = v.render();
    let draws: Vec<&Step> = steps.iter().filter(|s| matches!(s, Step::Draw { .. })).collect();
    assert_eq!(draws, vec![&Step::Draw { id, cull: Cull::Back }]);
}

#[test]
fn transparent_mesh_draws_back_faces_first() {
    let mut v = Viewer::new();
    let id = add(&mut v, &triangle_mesh());
    assert!(v.set_face_alpha(id, 0.5f32.to_bits()));
    let steps = v.render();
    let draws: Vec<&Step> = steps.iter().filter(|s| matches!(s, Step::Draw { .. })).collect();
    assert_eq!(
        draws,
        vec![&Step::Draw { id, cull: Cull::Front }, &Step::Draw { id, cull: Cull::Back }]
    );
    let steps = v.render();
    assert_eq!(count(&steps, &Step::Draw { id, cull: Cull::Front }), 1);
    assert_eq!(count(&steps, &Step::Draw { id, cull: Cull::Back }), 1);
}

#[test]
fn alpha_just_below_threshold_is_transparent() {
    let mut v = Viewer::new();
    let id = add(&mut v, &triangle_mesh());
    let below = f32::from_bits(0.999f32.to_bits() - 1);
    assert!(v.set_face_alpha(id, below.to_bits()));
    assert!(v.entry(id).unwrap().material.is_transparent());
    assert!(v.set_face_alpha(id, f32::NAN.to_bits()));
    assert!(!v.entry(id).unwrap().material.is_transparent());
}

#[test]
fn vertex_upload_happens_once() {
    let mut v = Viewer::new();
    let id = add(&mut v, &triangle_mesh());
    let first = v.render();
    let second = v.render();
    assert_eq!(count(&first, &Step::UploadVertices { id }), 1);
    assert_eq!(count(&second, &Step::UploadVertices { id }), 0);
    assert_eq!(second, vec![Step::Draw { id, cull: Cull::Back }]);
}

#[test]
fn material_change_uploads_only_the_material() {
    let mut v = Viewer::new();
    let id = add(&mut v, &triangle_mesh());
    v.render();
    assert!(v.set_edge_width(id, 2.0f32.to_bits()));
    assert!(v.set_edge_color(id, F32x4 { x: 1.0f32.to_bits(), y: 0, z: 0, w: 1.0f32.to_bits() }));
    assert!(v.set_face_color(id, bits3(1.0, 1.0, 0.0)));
    let steps = v.render();
    assert_eq!(steps, vec![Step::UploadMaterial { id }, Step::Draw { id, cull: Cull::Back }]);
    let m = v.entry(id).unwrap().material;
    assert_eq!(f32::from_bits(m.edge_width), 2.0);
    assert_eq!(value3(m.color), [1.0, 1.0, 0.0]);
    assert!(!v.set_face_color(99, bits3(1.0, 1.0, 0.0)));
}

#[test]
fn hidden_mesh_waits_for_its_resources() {
    let mut v = Viewer::new();
    let id = add(&mut v, &triangle_mesh());
    assert!(v.set_visible(id, false));
    let steps = v.render();
    assert!(steps.iter().all(|s| !matches!(s, Step::InitMesh { .. } | Step::UploadVertices { .. })));
    assert!(v.set_visible(id, true));
    let steps = v.render();
    assert_eq!(steps[0], Step::InitMesh { id });
    assert_eq!(steps[1], Step::UploadVertices { id });
}

#[test]
fn flat_shading_unshares_corners() {
    let mut v = Viewer::new();
    let points = flat(&[0.0, 0.0, 0.0, 1.0, 0.0, 0.0, 0.0, 1.0, 0.0, 1.0, 1.0, 0.0]);
    let triangles = vec![0, 1, 2, 1, 3, 2];
    let normals = vec![bits3(0.0, 0.0, 1.0), bits3(0.0, 0.0, -1.0)];
    let id = v.append_mesh(&points, &triangles, &normals, bits3(1.0, 0.0, 0.0));
    let e = v.entry(id).unwrap();
    assert_eq!(e.vertices.len(), 6);
    assert_eq!(value3(e.vertices[3].point), [1.0, 0.0, 0.0]);
    assert_eq!(value3(e.vertices[4].point), [1.0, 1.0, 0.0]);
    assert_eq!(value3(e.vertices[4].normal), [0.0, 0.0, -1.0]);
    assert_eq!(value3(e.vertices[2].normal), [0.0, 0.0, 1.0]);
    assert_eq!(e.material.alpha, 1.0f32.to_bits());
}

#[test]
fn vertex_bytes_hold_every_word() {
    let mut v = Viewer::new();
    let id = add(&mut v, &triangle_mesh());
    let e = v.entry(id).unwrap();
    let words = e.vertex_words();
    assert_eq!(words.len(), 18);
    assert_eq!(words[3], 0.0f32.to_bits());
    assert_eq!(words[6], 2.0f32.to_bits());
    let bytes = e.vertex_bytes();
    assert_eq!(bytes.len(), 72);
    let expected: Vec<u8> = words.iter().flat_map(|w| w.to_ne_bytes()).collect();
    assert_eq!(bytes, expected);
    assert_ne!(bytes[24..28], [0u8; 4]);
}
