use mesh_viewer::dirty::{DirtyFlags, DIRTY_ALL, DIRTY_EDGE, DIRTY_FACE, DIRTY_MATERIAL, DIRTY_VERTEX};
use mesh_viewer::geometry::box_from_points;
use mesh_viewer::ieee::{is_nan_f32, lt_f32, max_f32, min_f32, sign_f64};
use mesh_viewer::{BBox, F32x3, FixGate, Model, Models, Vertex};

fn b(v: f32) -> u32 {
    v.to_bits()
}

fn bits3(x: f32, y: f32, z: f32) -> F32x3 {
    F32x3 { x: b(x), y: b(y), z: b(z) }
}

#[test]
fn float_order_matches_f32() {
    let values = [
        f32::MIN,
        -3.5,
        -1.0,
        -f32::MIN_POSITIVE,
        -0.0,
        0.0,
        1e-40,
        0.1,
        0.999,
        1.0,
        7.25,
        f32::MAX,
        f32::INFINITY,
        f32::NEG_INFINITY,
    ];
    for &x in &values {
        for &y in &values {
            assert_eq!(lt_f32(b(x), b(y)), x < y, "{} < {}", x, y);
            assert_eq!(f32::from_bits(min_f32(b(x), b(y))), x.min(y));
            assert_eq!(f32::from_bits(max_f32(b(x), b(y))), x.max(y));
        }
        assert_eq!(f32::from_bits(min_f32(b(f32::NAN), b(x))), x);
        assert_eq!(f32::from_bits(max_f32(b(x), b(f32::NAN))), x);
        assert!(!lt_f32(b(f32::NAN), b(x)));
    }
    assert!(is_nan_f32(b(f32::NAN)));
    assert!(!is_nan_f32(b(f32::INFINITY)));
}

#[test]
fn sign_of_doubles() {
    assert_eq!(sign_f64(2.0f64.to_bits()), Some(1));
    assert_eq!(sign_f64((-2.0f64).to_bits()), Some(-1));
    assert_eq!(sign_f64((-0.0f64).to_bits()), Some(0));
    assert_eq!(sign_f64(f64::NAN.to_bits()), None);
}

#[test]
fn dirty_flags_set_and_clear() {
    let mut d = DirtyFlags::all();
    assert_eq!(d.bits, DIRTY_ALL);
    d.remove(DIRTY_VERTEX);
    assert!(!d.contains(DIRTY_VERTEX));
    assert!(d.contains(DIRTY_EDGE) && d.contains(DIRTY_FACE) && d.contains(DIRTY_MATERIAL));
    d.remove(DIRTY_MATERIAL);
    assert_eq!(d.bits, DIRTY_EDGE | DIRTY_FACE);
    d.insert(DIRTY_VERTEX);
    assert!(d.contains(DIRTY_VERTEX));
    let n = DirtyFlags::none();
    assert_eq!(n.bits, 0);
}

#[test]
fn box_grows_over_points() {
    let mut bb = BBox::empty();
    assert_eq!(bb, BBox::default());
    bb.merge(&bits3(1.0, -2.0, 3.0));
    assert_eq!(bb.min, bits3(1.0, -2.0, 3.0));
    assert_eq!(bb.max, bits3(1.0, -2.0, 3.0));
    bb.merge(&bits3(-1.0, 5.0, f32::NAN));
    assert_eq!(bb.min, bits3(-1.0, -2.0, 3.0));
    assert_eq!(bb.max, bits3(1.0, 5.0, 3.0));
    let mut other = BBox::empty();
    other.merge(&bits3(0.0, 0.0, 10.0));
    bb.merge_box(&other);
    assert_eq!(bb.max, bits3(1.0, 5.0, 10.0));
    let before = bb;
    bb.merge_box(&BBox::empty());
    assert_eq!(bb, before);
}

#[test]
fn box_of_no_points_is_empty() {
    assert_eq!(box_from_points(&Vec::new()), BBox::empty());
    let n = bits3(0.0, 0.0, 1.0);
    let vs = vec![
        Vertex { point: bits3(0.5, 0.5, 0.5), normal: n },
        Vertex { point: bits3(-0.5, 0.25, -0.5), normal: n },
    ];
    let bb = box_from_points(&vs);
    assert_eq!(bb.min, bits3(-0.5, 0.25, -0.5));
    assert_eq!(bb.max, bits3(0.5, 0.5, 0.5));
}

fn doubles(v: &[f64]) -> Vec<u64> {
    v.iter().map(|x| x.to_bits()).collect()
}

#[test]
fn models_remove_keeps_order() {
    let mut ms = Models::new();
    for id in 0..4 {
        ms.add(Model::new(format!("model{}", id), doubles(&[0.0, 0.0, 0.0]), vec![], id));
    }
    ms.remove(2);
    let ids: Vec<u32> = ms.0.iter().map(|m| m.id).collect();
    assert_eq!(ids, vec![0, 1, 3]);
    ms.remove(7);
    assert_eq!(ms.0.len(), 3);
    ms.hide_all();
    assert!(ms.0.iter().all(|m| !m.show));
    assert_eq!(ms.0[2].name, "model3");
}

#[test]
fn merge_shifts_indices_past_earlier_models() {
    let mut ms = Models::new();
    let tri = doubles(&[0.0, 0.0, 0.0, 1.0, 0.0, 0.0, 0.0, 1.0, 0.0]);
    ms.add(Model::new("a".to_string(), tri.clone(), vec![0, 1, 2], 0));
    let mut hidden = Model::new("b".to_string(), tri.clone(), vec![2, 1, 0], 1);
    hidden.show = false;
    ms.add(hidden);
    let quad = doubles(&[0.0, 0.0, 1.0, 1.0, 0.0, 1.0, 0.0, 1.0, 1.0, 1.0, 1.0, 1.0]);
    ms.add(Model::new("c".to_string(), quad.clone(), vec![0, 1, 2, 1, 3, 2], 2));
    let merged = ms.merge_shown();
    let mut points = tri.clone();
    points.extend_from_slice(&quad);
    assert_eq!(merged.points, points);
    assert_eq!(merged.triangles, vec![0, 1, 2, 3, 4, 5, 4, 6, 5]);
    assert_eq!(merged.shells, vec![0, 1, 1]);
}

#[test]
fn merge_of_nothing_shown_is_empty() {
    let mut ms = Models::new();
    ms.add(Model::new("a".to_string(), doubles(&[0.0, 0.0, 0.0]), vec![0, 0, 0], 0));
    ms.hide_all();
    let merged = ms.merge_shown();
    assert!(merged.points.is_empty() && merged.triangles.is_empty() && merged.shells.is_empty());
}

#[test]
fn fix_gate_turns_away_a_second_run() {
    let mut g = FixGate::new();
    assert!(!g.busy());
    assert!(g.try_begin());
    assert!(!g.try_begin());
    assert!(g.busy());
    g.finish();
    assert!(g.try_begin());
}
