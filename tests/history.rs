use rustique::color::Rgba;
use rustique::editor::{PaintApp, MAX_UNDO_STEPS};

fn red() -> Rgba {
    Rgba::new(255, 0, 0, 255)
}

fn pixels(app: &PaintApp) -> Vec<Vec<Option<Rgba>>> {
    app.current_state.layers.iter().map(|l| l.data.clone()).collect()
}

#[test]
fn record_change_same_color_is_not_recorded() {
    let mut app = PaintApp::new(4, 4);
    app.record_change(1, 1, Some(red()));
    assert_eq!(app.current_changes.len(), 1);
    app.record_change(1, 1, Some(red()));
    assert_eq!(app.current_changes.len(), 1);
    app.record_change(2, 2, None);
    assert_eq!(app.current_changes.len(), 1);
}

#[test]
fn record_change_off_canvas_is_ignored() {
    let mut app = PaintApp::new(4, 4);
    app.record_change(4, 0, Some(red()));
    app.record_change(0, 9, Some(red()));
    assert!(app.current_changes.is_empty());
    assert!(app.current_state.layers[0].data.iter().all(|p| p.is_none()));
}

#[test]
fn record_change_writes_immediately() {
    let mut app = PaintApp::new(4, 3);
    app.record_change(3, 2, Some(red()));
    assert_eq!(app.current_state.get(3, 2), Some(red()));
    assert_eq!(app.current_state.layers[0].data[2 * 4 + 3], Some(red()));
    let ch = app.current_changes[0];
    assert_eq!((ch.x, ch.y, ch.layer_index), (3, 2, 0));
    assert_eq!(ch.old_color, None);
    assert_eq!(ch.new_color, Some(red()));
}

#[test]
fn undo_then_redo_round_trip() {
    let mut app = PaintApp::new(5, 5);
    app.record_change(0, 0, Some(red()));
    app.save_state();
    let before = pixels(&app);
    app.record_change(1, 1, Some(red()));
    app.record_change(1, 1, Some(Rgba::new(0, 0, 255, 255)));
    app.record_change(0, 0, None);
    app.save_state();
    let after = pixels(&app);
    assert_ne!(before, after);
    app.undo();
    assert_eq!(pixels(&app), before);
    app.redo();
    assert_eq!(pixels(&app), after);
    app.undo();
    assert_eq!(pixels(&app), before);
}

#[test]
fn save_state_without_changes_is_a_no_op() {
    let mut app = PaintApp::new(3, 3);
    app.save_state();
    assert!(app.undo_stack.is_empty());
    app.record_change(0, 0, Some(red()));
    app.save_state();
    app.undo();
    assert_eq!(app.redo_stack.len(), 1);
    app.save_state();
    assert_eq!(app.redo_stack.len(), 1);
}

#[test]
fn new_gesture_clears_redo() {
    let mut app = PaintApp::new(3, 3);
    app.record_change(0, 0, Some(red()));
    app.save_state();
    app.undo();
    assert_eq!(app.redo_stack.len(), 1);
    app.record_change(1, 0, Some(red()));
    app.save_state();
    assert!(app.redo_stack.is_empty());
    app.redo();
    assert_eq!(app.current_state.get(0, 0), None);
}

#[test]
fn history_keeps_twenty_gestures() {
    let mut app = PaintApp::new(30, 1);
    for i in 0..25 {
        app.record_change(i, 0, Some(red()));
        app.save_state();
    }
    assert_eq!(app.undo_stack.len(), MAX_UNDO_STEPS);
    let mut undone = 0;
    while !app.undo_stack.is_empty() {
        app.undo();
        undone += 1;
    }
    assert_eq!(undone, 20);
    for i in 0..5 {
        assert_eq!(app.current_state.get(i, 0), Some(red()));
    }
    for i in 5..25 {
        assert_eq!(app.current_state.get(i, 0), None);
    }
    app.undo();
    assert_eq!(app.current_state.get(0, 0), Some(red()));
}

#[test]
fn undo_restores_other_layers() {
    let mut app = PaintApp::new(2, 2);
    app.add_layer("Top".to_string());
    app.record_change(0, 0, Some(red()));
    app.save_state();
    app.set_active_layer(0);
    app.undo();
    assert_eq!(app.current_state.layers[1].data[0], None);
    assert_eq!(app.current_state.active_layer_index, 0);
    app.redo();
    assert_eq!(app.current_state.layers[1].data[0], Some(red()));
    assert_eq!(app.current_state.layers[0].data[0], None);
}

#[test]
fn palette_caps_at_sixteen() {
    let mut app = PaintApp::new(1, 1);
    for i in 0..16u8 {
        app.add_saved_color(Rgba::new(i, 0, 0, 255));
    }
    assert_eq!(app.saved_colors.len(), 16);
    app.add_saved_color(Rgba::new(100, 0, 0, 255));
    assert_eq!(app.saved_colors.len(), 16);
    assert_eq!(app.saved_colors[0], Rgba::new(1, 0, 0, 255));
    assert_eq!(app.saved_colors[15], Rgba::new(100, 0, 0, 255));
    let copy = app.saved_colors.clone();
    app.add_saved_color(Rgba::new(5, 0, 0, 255));
    assert_eq!(app.saved_colors, copy);
}

#[test]
fn palette_remove() {
    let mut app = PaintApp::new(1, 1);
    app.add_saved_color(red());
    app.add_saved_color(Rgba::white());
    app.remove_saved_color(0);
    assert_eq!(app.saved_colors, vec![Rgba::white()]);
    app.remove_saved_color(3);
    assert_eq!(app.saved_colors.len(), 1);
}

#[test]
fn pick_color_takes_composite() {
    let mut app = PaintApp::new(2, 2);
    app.record_change(1, 1, Some(red()));
    app.pick_color(1, 1, false);
    assert_eq!(app.primary_color, red());
    app.pick_color(0, 0, false);
    assert_eq!(app.primary_color, red());
    app.using_secondary_color = true;
    app.record_change(0, 0, Some(Rgba::new(1, 2, 3, 4)));
    app.pick_color(0, 0, true);
    assert_eq!(app.secondary_color, Rgba::new(1, 2, 3, 4));
    assert_eq!(app.primary_color, red());
}
