use mesh_viewer::{Anchor, DragState, F32x4, F64x2, Step, Viewer, ZoomStep};

fn pos(x: f64, y: f64) -> F64x2 {
    F64x2 { x: x.to_bits(), y: y.to_bits() }
}

fn quat(w: f32, x: f32, y: f32, z: f32) -> F32x4 {
    F32x4 { x: w.to_bits(), y: x.to_bits(), z: y.to_bits(), w: z.to_bits() }
}

#[test]
fn left_drag_anchors_on_first_move() {
    let mut v = Viewer::new();
    assert_eq!(v.mouse_move(pos(1.0, 1.0)), None);
    v.press_left();
    let start = v.orientation();
    let a = v.mouse_move(pos(10.0, 20.0)).unwrap();
    assert_eq!(a, Anchor { pos: pos(10.0, 20.0), orientation: start });
    v.set_orientation(quat(0.5, 0.5, 0.5, 0.5));
    assert_eq!(v.mouse_move(pos(30.0, 20.0)), Some(a));
}

#[test]
fn repress_anchors_at_current_orientation() {
    let mut v = Viewer::new();
    v.press_left();
    v.mouse_move(pos(0.0, 0.0));
    let turned = quat(0.8775826, 0.0, 0.47942555, 0.0);
    v.set_orientation(turned);
    v.release();
    assert_eq!(v.mouse_move(pos(5.0, 5.0)), None);
    v.press_left();
    let a = v.mouse_move(pos(7.0, 3.0)).unwrap();
    assert_eq!(a.orientation, turned);
    assert_eq!(a.pos, pos(7.0, 3.0));
}

#[test]
fn right_drag_never_rotates() {
    let mut v = Viewer::new();
    v.press_right();
    assert_eq!(v.mouse_move(pos(3.0, 4.0)), None);
    assert_eq!(v.mouse_move(pos(5.0, 4.0)), None);
    v.release();
    v.press_left();
    assert!(v.mouse_move(pos(5.0, 4.0)).is_some());
    let _ = DragState::Idle;
}

#[test]
fn scroll_sign_picks_direction() {
    let v = Viewer::new();
    assert_eq!(v.mouse_scroll(3.0f64.to_bits()), ZoomStep::In);
    assert_eq!(v.mouse_scroll((-0.25f64).to_bits()), ZoomStep::Out);
    assert_eq!(v.mouse_scroll(0.0f64.to_bits()), ZoomStep::Hold);
    assert_eq!(v.mouse_scroll((-0.0f64).to_bits()), ZoomStep::Hold);
    assert_eq!(v.mouse_scroll(f64::NAN.to_bits()), ZoomStep::Out);
}

#[test]
fn zoom_is_floored_at_a_tenth() {
    let mut v = Viewer::new();
    assert_eq!(f32::from_bits(v.zoom()), 1.0);
    let mut z = f32::from_bits(v.zoom());
    for _ in 0..100 {
        if v.mouse_scroll((-1.0f64).to_bits()) == ZoomStep::Out {
            z = f32::from_bits(v.zoom()) / 1.05;
            v.set_zoom(z.to_bits());
        }
    }
    assert!(z < 0.1);
    assert_eq!(f32::from_bits(v.zoom()), 0.1);
    v.set_zoom((0.1f32 * 1.05).to_bits());
    assert_eq!(f32::from_bits(v.zoom()), 0.1f32 * 1.05);
    v.set_zoom(f32::NAN.to_bits());
    assert_eq!(f32::from_bits(v.zoom()), 0.1);
    v.set_zoom(2.5f32.to_bits());
    assert_eq!(f32::from_bits(v.zoom()), 2.5);
}

#[test]
fn camera_changes_refresh_matrices() {
    let mut v = Viewer::new();
    v.render();
    v.set_zoom(2.0f32.to_bits());
    assert_eq!(v.render(), vec![Step::UpdateMatrices]);
    assert_eq!(v.render(), Vec::<Step>::new());
    v.set_orientation(quat(1.0, 0.0, 0.0, 0.0));
    assert_eq!(v.render(), vec![Step::UpdateMatrices]);
    v.request_matrices();
    assert_eq!(v.render(), vec![Step::UpdateMatrices]);
}
