use rustique::canvas::CanvasState;
use rustique::color::{same_pixel, Rgba};
use rustique::editor::PaintApp;

#[test]
fn new_canvas_has_one_blank_layer() {
    let c = CanvasState::new(3, 2);
    assert_eq!(c.layers.len(), 1);
    assert_eq!(c.layers[0].name, "Background");
    assert!(c.layers[0].visible);
    assert_eq!(c.layers[0].data.len(), 6);
    assert_eq!(c.get(2, 1), None);
    assert_eq!(c.get(3, 0), None);
}

#[test]
fn composite_takes_topmost_visible() {
    let mut app = PaintApp::new(2, 1);
    let a = Rgba::new(1, 1, 1, 255);
    let b = Rgba::new(2, 2, 2, 255);
    app.record_change(0, 0, Some(a));
    app.record_change(1, 0, Some(a));
    app.add_layer("Upper".to_string());
    app.record_change(0, 0, Some(b));
    assert_eq!(app.current_state.get(0, 0), Some(b));
    assert_eq!(app.current_state.get(1, 0), Some(a));
    app.toggle_layer_visibility(1);
    assert_eq!(app.current_state.get(0, 0), Some(a));
    app.toggle_layer_visibility(0);
    assert_eq!(app.current_state.get(0, 0), None);
    assert_eq!(app.current_state.get_from_active_layer(0, 0), Some(b));
}

#[test]
fn layer_edits() {
    let mut app = PaintApp::new(2, 2);
    app.add_layer("One".to_string());
    app.add_layer("Two".to_string());
    assert_eq!(app.current_state.active_layer_index, 2);
    app.move_layer_up(2);
    assert_eq!(app.current_state.layers[1].name, "Two");
    assert_eq!(app.current_state.active_layer_index, 1);
    app.move_layer_down(1);
    assert_eq!(app.current_state.layers[2].name, "Two");
    assert_eq!(app.current_state.active_layer_index, 2);
    app.move_layer_down(2);
    app.move_layer_up(0);
    assert_eq!(app.current_state.layers[2].name, "Two");
    app.rename_layer(0, "Base".to_string());
    assert_eq!(app.current_state.layers[0].name, "Base");
    app.remove_layer(2);
    assert_eq!(app.current_state.layers.len(), 2);
    assert_eq!(app.current_state.active_layer_index, 1);
    app.remove_layer(0);
    app.remove_layer(0);
    assert_eq!(app.current_state.layers.len(), 1);
    assert_eq!(app.current_state.layers[0].name, "One");
    app.set_active_layer(5);
    assert_eq!(app.current_state.active_layer_index, 0);
}

#[test]
fn write_to_layer_targets_one_layer() {
    let mut c = CanvasState::new(2, 2);
    c.write_to_layer(0, 1, 1, Some(Rgba::black()));
    c.write_to_layer(3, 1, 1, Some(Rgba::white()));
    assert_eq!(c.get_from_layer(0, 1, 1), Some(Rgba::black()));
    assert_eq!(c.get_from_layer(3, 1, 1), None);
    c.set(0, 0, Some(Rgba::white()));
    assert_eq!(c.get(0, 0), Some(Rgba::white()));
}

#[test]
fn pixel_equality() {
    assert!(same_pixel(None, None));
    assert!(!same_pixel(None, Some(Rgba::black())));
    assert!(same_pixel(Some(Rgba::black()), Some(Rgba::new(0, 0, 0, 255))));
    assert!(!same_pixel(Some(Rgba::black()), Some(Rgba::new(0, 0, 0, 254))));
}

#[test]
fn colour_arrays() {
    let c = Rgba::from_array([1, 2, 3, 4]);
    assert_eq!(c, Rgba::new(1, 2, 3, 4));
    assert_eq!(c.to_array(), [1, 2, 3, 4]);
    assert_eq!(c.with_alpha(9), Rgba::new(1, 2, 3, 9));
}

#[test]
fn empty_canvas() {
    let mut app = PaintApp::new(0, 0);
    assert_eq!(app.current_state.get(0, 0), None);
    app.record_change(0, 0, Some(Rgba::black()));
    app.paint_bucket(0, 0);
    assert!(app.current_changes.is_empty());
    assert!(app.composite_pixels().is_empty());
    let back = PaintApp::from_rustiq_file(app.save_as_rustiq()).ok().unwrap();
    assert_eq!(back.current_state.layers.len(), 1);
    assert!(back.current_state.layers[0].data.is_empty());
}

#[test]
fn layer_edits_mark_the_document() {
    let mut app = PaintApp::new(2, 2);
    assert!(!app.has_unsaved_changes);
    app.texture_dirty = false;
    app.add_layer("New".to_string());
    assert!(app.texture_dirty);
    assert!(app.has_unsaved_changes);
}
