use rustique::brush::{BrushManager, BrushProperties, BrushType, BlendMode};
use rustique::color::Rgba;
use rustique::editor::{PaintApp, Tool};
use rustique::mask::{covers_offset, generate_mask, Rotation};

#[test]
fn brush_type_names_and_order() {
    let all = BrushType::all_types();
    assert_eq!(all.len(), 8);
    assert_eq!(all[0], BrushType::Round);
    assert_eq!(all[7], BrushType::Rigger);
    assert_eq!(BrushType::Fan.get_name(), "brush_fan");
    assert_eq!(BrushType::Round.get_name(), "brush_round");
}

#[test]
fn brush_properties_per_type() {
    let d = BrushProperties::default();
    assert_eq!(d.brush_type, BrushType::Round);
    assert_eq!(d.size, 10);
    assert_eq!(d.spacing, 50);
    assert_eq!(d.blend_mode, BlendMode::Normal);
    let a = BrushProperties::from_type(BrushType::Angle);
    assert_eq!(a.base_rotation, 785);
    assert_eq!(a.stretch_factor, 2000);
    let m = BrushProperties::from_type(BrushType::Mop);
    assert_eq!((m.hardness, m.spacing, m.angle_sensitivity), (500, 30, 100));
    let r = BrushProperties::from_type(BrushType::Rigger);
    assert_eq!(r.spacing, 20);
    let bm = BrushManager::new();
    assert_eq!(bm.brushes.len(), 8);
    assert_eq!(bm.brushes[4].brush_type, BrushType::Fan);
    assert_eq!(bm.current_size, 3);
}

fn symmetric(size: usize) -> bool {
    let m = generate_mask(BrushType::Round, size, Rotation::identity());
    (0..size).all(|y| (0..size).all(|x| m[y * size + x] == m[x * size + (size - 1 - y)]))
}

#[test]
fn round_mask_is_quarter_turn_symmetric() {
    for size in [7, 9, 11, 21, 33] {
        assert!(symmetric(size));
    }
}

#[test]
fn round_mask_shape() {
    let m = generate_mask(BrushType::Round, 7, Rotation::identity());
    let at = |x: usize, y: usize| m[y * 7 + x];
    assert!(at(3, 3));
    assert!(at(3, 0));
    assert!(at(0, 3));
    assert!(at(6, 3));
    assert!(!at(0, 0));
    assert!(!at(6, 6));
    assert_eq!(m.iter().filter(|b| **b).count(), 37);
}

#[test]
fn flat_mask_turns_with_rotation() {
    let upright = generate_mask(BrushType::Flat, 11, Rotation::identity());
    // a thin vertical bar: the centre column is painted, a column two away is not
    assert!(upright[0 * 11 + 5]);
    assert!(!upright[5 * 11 + 7]);
    let quarter = generate_mask(BrushType::Flat, 11, Rotation { cos: 0, sin: 4096 });
    assert!(quarter[5 * 11 + 0]);
    assert!(!quarter[7 * 11 + 5]);
}

#[test]
fn fan_has_separate_bristles() {
    assert!(!covers_offset(BrushType::Fan, 21, Rotation::identity(), 0, 0));
    // the bristles spread on the side of negative y
    assert!(covers_offset(BrushType::Fan, 21, Rotation::identity(), 0, -8));
    assert!(!covers_offset(BrushType::Fan, 21, Rotation::identity(), 0, 8));
}

#[test]
fn angle_brush_is_asymmetric() {
    assert!(covers_offset(BrushType::Angle, 10, Rotation::identity(), -3, 0));
    assert!(!covers_offset(BrushType::Angle, 10, Rotation::identity(), 3, 0));
    assert!(covers_offset(BrushType::Angle, 10, Rotation::identity(), 2, 0));
}

#[test]
fn line_is_continuous() {
    let mut bm = BrushManager::new();
    bm.current_size = 5;
    let pts = bm.draw_line((0, 0), (100, 0));
    assert_eq!(pts.first(), Some(&(0, 0)));
    assert_eq!(pts.last(), Some(&(100, 0)));
    assert!(pts.iter().all(|p| p.1 == 0));
    for w in pts.windows(2) {
        let gap = w[1].0 - w[0].0;
        assert!(gap >= 1 && gap <= 1);
    }
    assert_eq!(pts.len(), 101);
}

#[test]
fn line_spacing_grows_with_size() {
    let mut bm = BrushManager::new();
    bm.current_size = 100;
    // spacing 0.05 * 100 = 5 pixels
    let pts = bm.draw_line((0, 0), (12, 0));
    assert_eq!(pts, vec![(0, 0), (5, 0), (10, 0), (12, 0)]);
    let diag = bm.draw_line((0, 0), (4, 4));
    // each diagonal step counts 2
    assert_eq!(diag, vec![(0, 0), (3, 3), (4, 4)]);
}

#[test]
fn line_of_one_point() {
    let bm = BrushManager::new();
    assert_eq!(bm.draw_line((3, 4), (3, 4)), vec![(3, 4)]);
    assert_eq!(bm.draw_line((3, 4), (1, 4)), vec![(3, 4), (2, 4), (1, 4)]);
}

#[test]
fn angle_smoothing() {
    let mut bm = BrushManager::new();
    bm.update_angle(0, 0, 1000);
    assert_eq!(bm.current_angle, 0);
    bm.update_angle(10, 0, 1000);
    assert_eq!(bm.current_angle, 200);
    bm.update_angle(10, 0, -3000);
    assert_eq!(bm.current_angle, 200);
    bm.current_angle = 3000;
    bm.update_angle(0, 5, -3000);
    // the short way round is +284 milliradians
    assert_eq!(bm.current_angle, 3056);
    bm.end_stroke();
    assert_eq!(bm.last_position, None);
    assert_eq!(bm.movement(1, 1), None);
    bm.update_angle(2, 2, 0);
    assert_eq!(bm.movement(5, 1), Some((3, -1)));
}

#[test]
fn stamp_size_and_opacity_follow_pressure() {
    let mut bm = BrushManager::new();
    bm.current_size = 10;
    assert_eq!(bm.stamp_size(1000), 21);
    assert_eq!(bm.stamp_size(0), 5);
    assert_eq!(bm.stamp_size(500), 13);
    assert_eq!(bm.stamp_opacity(1000), 1_000_000);
    assert_eq!(bm.stamp_opacity(0), 100_000);
    bm.current_size = 0;
    assert_eq!(bm.stamp_size(1000), 3);
}

#[test]
fn draw_point_stamps_mask() {
    let mut bm = BrushManager::new();
    bm.current_size = 1;
    let c = Rgba::new(10, 20, 30, 200);
    let stamps = bm.draw_point(5, 5, c, 1000, Rotation::identity());
    assert_eq!(stamps.len(), 9);
    assert!(stamps.contains(&(4, 4, Some(c))));
    assert!(stamps.contains(&(6, 6, Some(c))));
    let light = bm.draw_point(0, 0, c, 0, Rotation::identity());
    // pressure 0: opacity 0.1, alpha 20; only cells at non-negative positions
    assert_eq!(light, vec![(0, 0, Some(c.with_alpha(20))), (1, 0, Some(c.with_alpha(20))), (0, 1, Some(c.with_alpha(20))), (1, 1, Some(c.with_alpha(20)))]);
}

#[test]
fn app_draw_point_and_eraser() {
    let mut app = PaintApp::new(10, 10);
    app.brush_size = 1;
    app.draw_point(5, 5, Rotation::identity());
    assert_eq!(app.current_state.get(5, 5), Some(Rgba::black()));
    assert_eq!(app.current_state.get(4, 4), Some(Rgba::black()));
    assert_eq!(app.current_state.get(3, 3), None);
    assert_eq!(app.current_changes.len(), 9);
    app.save_state();
    app.current_tool = Tool::Eraser;
    app.eraser_size = 0;
    app.draw_point(6, 6, Rotation::identity());
    assert_eq!(app.current_state.get(5, 5), None);
    assert_eq!(app.current_state.get(7, 7), None);
    assert_eq!(app.current_state.get(4, 4), Some(Rgba::black()));
    app.save_state();
    app.undo();
    assert_eq!(app.current_state.get(5, 5), Some(Rgba::black()));
}

#[test]
fn hidden_layer_is_not_painted() {
    let mut app = PaintApp::new(5, 5);
    app.toggle_layer_visibility(0);
    app.draw_point(2, 2, Rotation::identity());
    assert!(app.current_changes.is_empty());
}

#[test]
fn simulated_pressure() {
    let mut app = PaintApp::new(2, 2);
    app.update_pressure_from_velocity(Some(5000));
    assert_eq!(app.current_pressure, 1000);
    assert_eq!(app.get_effective_pressure(), 1000);
    app.pressure_enabled = true;
    app.update_pressure_from_velocity(None);
    assert_eq!(app.current_pressure, 1000);
    // fastest: base 1 - 0.9 = 0.1; blended 0.2 * 1 + 0.8 * 0.1 = 0.28
    app.update_pressure_from_velocity(Some(1900));
    assert_eq!(app.current_pressure, 280);
    assert_eq!(app.get_effective_pressure(), 280);
    // half speed: base 1 - 0.45 = 0.55; 0.2 * 0.28 + 0.8 * 0.55 = 0.496
    app.update_pressure_from_velocity(Some(950));
    assert_eq!(app.current_pressure, 496);
}

#[test]
fn smooth_line_samples() {
    let mut bm = BrushManager::new();
    assert!(bm.smooth_line_points((4, 4), (4, 4)).is_none());
    // round brush, live size 3: spacing 0.3 pixel, so 10 steps over 3 pixels
    let pts = bm.smooth_line_points((0, 0), (3, 0)).unwrap();
    assert_eq!(pts.len(), 11);
    assert_eq!(pts[0], (0, 0));
    assert_eq!(pts[1], (76, 0));
    assert_eq!(pts[5], (384, 0));
    assert_eq!(pts[10], (768, 0));
    let back = bm.smooth_line_points((0, 0), (-1, 0)).unwrap();
    assert_eq!(back, vec![(0, 0), (-64, 0), (-128, 0), (-192, 0), (-256, 0)]);
    bm.active_brush_index = 1;
    bm.current_size = 100;
    // flat brush: 0.2 * 0.05 * 100 = 1 pixel, 5 steps over 5 pixels
    let diag = bm.smooth_line_points((0, 0), (3, 4)).unwrap();
    assert_eq!(diag.len(), 6);
    assert_eq!(diag[1], (153, 204));
    assert_eq!(diag[5], (768, 1024));
    assert_eq!(bm.smooth_line_points((2, 0), (2, -1)).unwrap(), vec![(512, 0), (512, -256)]);
}

#[test]
fn stamp_is_never_thinner_than_three() {
    let mut bm = BrushManager::new();
    bm.active_brush_mut().pressure_affects_size = false;
    bm.current_size = 0;
    assert_eq!(bm.stamp_size(1000), 3);
    assert_eq!(bm.draw_point(5, 5, Rgba::black(), 1000, Rotation::identity()).len(), 9);
    bm.current_size = 4;
    assert_eq!(bm.stamp_size(0), 9);
}
