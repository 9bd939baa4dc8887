use rustique::brush::BrushType;
use rustique::color::Rgba;
use rustique::editor::{PaintApp, Tool};
use rustique::mask::Rotation;

fn red() -> Rgba {
    Rgba::new(255, 0, 0, 255)
}

fn blue() -> Rgba {
    Rgba::new(0, 0, 255, 255)
}

/// A 7 by 7 canvas with a red square outline from (1, 1) to (5, 5).
fn boxed() -> PaintApp {
    let mut app = PaintApp::new(7, 7);
    for i in 1..6 {
        app.record_change(i, 1, Some(red()));
        app.record_change(i, 5, Some(red()));
        app.record_change(1, i, Some(red()));
        app.record_change(5, i, Some(red()));
    }
    app.save_state();
    app
}

#[test]
fn fill_changes_only_the_enclosed_region() {
    let mut app = boxed();
    let before = app.current_state.layers[0].data.clone();
    app.primary_color = blue();
    app.paint_bucket(3, 3);
    let after = &app.current_state.layers[0].data;
    for y in 0..7 {
        for x in 0..7 {
            let inside = (2..5).contains(&x) && (2..5).contains(&y);
            let i = y * 7 + x;
            if inside {
                assert_eq!(after[i], Some(blue()));
            } else {
                assert_eq!(after[i], before[i]);
            }
        }
    }
    assert_eq!(app.current_changes.len(), 9);
    app.save_state();
    app.undo();
    assert_eq!(app.current_state.layers[0].data, before);
}

#[test]
fn fill_outside_the_box() {
    let mut app = boxed();
    app.primary_color = blue();
    app.paint_bucket(0, 0);
    let data = &app.current_state.layers[0].data;
    assert_eq!(data[0], Some(blue()));
    assert_eq!(data[6 * 7 + 6], Some(blue()));
    assert_eq!(data[3 * 7 + 3], None);
    assert_eq!(data[1 * 7 + 1], Some(red()));
    assert_eq!(app.current_changes.len(), 49 - 16 - 9);
}

#[test]
fn fill_with_the_same_colour_changes_nothing() {
    let mut app = boxed();
    let before = app.current_state.layers[0].data.clone();
    app.primary_color = red();
    app.paint_bucket(1, 1);
    assert_eq!(app.current_state.layers[0].data, before);
    assert!(app.current_changes.is_empty());
    app.paint_bucket(9, 9);
    assert!(app.current_changes.is_empty());
}

#[test]
fn eraser_fill_clears_the_outline() {
    let mut app = boxed();
    app.current_tool = Tool::Eraser;
    app.paint_bucket(5, 3);
    assert!(app.current_state.layers[0].data.iter().all(|p| p.is_none()));
    assert_eq!(app.current_changes.len(), 16);
}

#[test]
fn fill_on_hidden_layer_does_nothing() {
    let mut app = boxed();
    app.toggle_layer_visibility(0);
    app.paint_bucket(3, 3);
    assert!(app.current_changes.is_empty());
}

#[test]
fn smooth_point_on_a_pixel() {
    let mut app = PaintApp::new(20, 20);
    app.brush_size = 1;
    app.draw_smooth_point(5 * 256, 5 * 256, false, Rotation::identity());
    let painted = app.current_state.layers[0].data.iter().filter(|p| p.is_some()).count();
    assert_eq!(painted, 37);
    assert_eq!(app.current_state.get(5, 5), Some(Rgba::black()));
    assert_eq!(app.current_state.get(5, 2), Some(Rgba::black()));
    assert_eq!(app.current_state.get(2, 2), None);
}

#[test]
fn smooth_point_between_pixels() {
    let mut app = PaintApp::new(20, 20);
    app.brush_size = 1;
    app.secondary_color = Rgba::new(0, 0, 0, 255);
    app.draw_smooth_point(5 * 256 + 128, 5 * 256, true, Rotation::identity());
    let half = Some(Rgba::new(0, 0, 0, 127));
    assert_eq!(app.current_state.get(5, 5), half);
    assert_eq!(app.current_state.get(2, 5), half);
    assert_eq!(app.current_state.get(9, 5), half);
    assert_eq!(app.current_state.get(10, 5), None);
}

#[test]
fn weighted_point_sizes_and_eraser() {
    let mut app = PaintApp::new(30, 30);
    app.brush_size = 4;
    app.brush_manager.active_brush_index = 6;
    app.draw_weighted_point(15, 15, red(), Rotation::identity());
    assert_eq!(app.brush_manager.brushes[6].brush_type, BrushType::Mop);
    // mop: 2.5 * 4 = 10, made odd: 11 cells across, radius 5
    assert_eq!(app.current_state.get(10, 15), Some(red()));
    assert_eq!(app.current_state.get(9, 15), None);
    app.current_tool = Tool::Eraser;
    app.eraser_size = 1;
    app.brush_manager.active_brush_index = 0;
    app.draw_weighted_point(15, 15, red(), Rotation::identity());
    assert_eq!(app.current_state.get(15, 15), None);
    assert_eq!(app.current_state.get(10, 15), Some(red()));
}

#[test]
fn active_brush_edits_in_place() {
    let mut app = PaintApp::new(2, 2);
    app.brush_manager.active_brush_index = 3;
    app.brush_manager.active_brush_mut().pressure_affects_size = false;
    assert!(!app.brush_manager.brushes[3].pressure_affects_size);
    assert_eq!(app.brush_manager.active_brush().brush_type, BrushType::Filbert);
    assert_eq!(app.brush_manager.effective_angle(), 0);
}

#[test]
fn fill_records_one_change_per_pixel() {
    let mut app = boxed();
    app.primary_color = blue();
    app.paint_bucket(2, 2);
    assert_eq!(app.current_changes.len(), 9);
    let mut seen = std::collections::HashSet::new();
    for ch in &app.current_changes {
        assert_eq!(ch.layer_index, 0);
        assert_eq!(ch.old_color, None);
        assert_eq!(ch.new_color, Some(blue()));
        assert!(seen.insert((ch.x, ch.y)));
    }
    assert_eq!(app.current_changes[0].x, 2);
    assert_eq!(app.current_changes[0].y, 2);
    assert_eq!(app.current_state.layers[0].name, "Background");
}
