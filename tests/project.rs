use rustique::color::Rgba;
use rustique::editor::PaintApp;
use rustique::format::FileFormat;
use rustique::project::{LoadError, ProjectFile};

fn sample() -> PaintApp {
    let mut app = PaintApp::new(4, 3);
    app.record_change(0, 0, Some(Rgba::new(9, 8, 7, 255)));
    app.add_layer("Middle".to_string());
    app.record_change(1, 2, Some(Rgba::new(1, 2, 3, 128)));
    app.add_layer("Top".to_string());
    app.record_change(3, 1, Some(Rgba::white()));
    app.toggle_layer_visibility(1);
    for i in 0..5u8 {
        app.add_saved_color(Rgba::new(i, i, i, 255));
    }
    app.brush_size = 7;
    app.eraser_size = 12;
    app.primary_color = Rgba::new(5, 6, 7, 8);
    app
}

#[test]
fn project_round_trip() {
    let app = sample();
    let file = app.save_as_rustiq();
    let back = PaintApp::from_rustiq_file(file).ok().unwrap();
    assert_eq!(back.current_state.width, 4);
    assert_eq!(back.current_state.height, 3);
    assert_eq!(back.current_state.layers.len(), 3);
    for (a, b) in app.current_state.layers.iter().zip(back.current_state.layers.iter()) {
        assert_eq!(a.name, b.name);
        assert_eq!(a.data, b.data);
        assert_eq!(a.visible, b.visible);
    }
    assert!(!back.current_state.layers[1].visible);
    assert_eq!(back.saved_colors, app.saved_colors);
    assert_eq!(back.saved_colors.len(), 5);
    assert_eq!(back.current_state.active_layer_index, 2);
    assert_eq!(back.primary_color, Rgba::new(5, 6, 7, 8));
    assert_eq!((back.brush_size, back.eraser_size), (7, 12));
    assert!(back.undo_stack.is_empty());
    let again = back.save_as_rustiq();
    assert_eq!(again.layers[2].data, app.current_state.layers[2].data);
}

#[test]
fn malformed_projects_are_refused() {
    let app = sample();
    let mut f = app.save_as_rustiq();
    f.active_layer_index = 3;
    assert_eq!(PaintApp::from_rustiq_file(f).err(), Some(LoadError::ActiveLayer));
    let mut f = app.save_as_rustiq();
    f.layers[1].data.pop();
    assert_eq!(PaintApp::from_rustiq_file(f).err(), Some(LoadError::LayerSize));
    let mut f = app.save_as_rustiq();
    f.layers.clear();
    assert_eq!(PaintApp::from_rustiq_file(f).err(), Some(LoadError::NoLayers));
    let mut f = app.save_as_rustiq();
    f.brush_size = -1;
    assert_eq!(PaintApp::from_rustiq_file(f).err(), Some(LoadError::ToolSize));
    let f = ProjectFile {
        width: usize::MAX,
        height: 2,
        layers: app.save_as_rustiq().layers,
        active_layer_index: 0,
        primary_color: Rgba::black(),
        secondary_color: Rgba::white(),
        saved_colors: Vec::new(),
        brush_size: 3,
        eraser_size: 3,
    };
    assert_eq!(PaintApp::from_rustiq_file(f).err(), Some(LoadError::TooLarge));
}

#[test]
fn composite_flattens_visible_layers() {
    let app = sample();
    let flat = app.composite_pixels();
    assert_eq!(flat.len(), 12);
    assert_eq!(flat[0], Some(Rgba::new(9, 8, 7, 255)));
    assert_eq!(flat[2 * 4 + 1], None);
    assert_eq!(flat[1 * 4 + 3], Some(Rgba::white()));
}

#[test]
fn image_import() {
    let bytes = vec![10, 20, 30, 255, 1, 1, 1, 0, 5, 6, 7, 9];
    let app = PaintApp::from_image(3, 1, &bytes).ok().unwrap();
    assert_eq!(app.current_state.layers.len(), 1);
    assert_eq!(app.current_state.get(0, 0), Some(Rgba::new(10, 20, 30, 255)));
    assert_eq!(app.current_state.get(1, 0), None);
    assert_eq!(app.current_state.get(2, 0), Some(Rgba::new(5, 6, 7, 9)));
    assert!(app.pressure_enabled);
    assert_eq!(PaintApp::from_image(2, 2, &bytes).err(), Some(LoadError::BufferSize));
    assert_eq!(PaintApp::from_image(usize::MAX, 2, &bytes).err(), Some(LoadError::TooLarge));
}

#[test]
fn file_formats_from_extension() {
    assert_eq!(FileFormat::from_extension("PNG"), FileFormat::Png);
    assert_eq!(FileFormat::from_extension("Jpeg"), FileFormat::Jpeg);
    assert_eq!(FileFormat::from_extension("jpg"), FileFormat::Jpeg);
    assert_eq!(FileFormat::from_extension("TIF"), FileFormat::Tiff);
    assert_eq!(FileFormat::from_extension("rustiq"), FileFormat::Rustiq);
    assert_eq!(FileFormat::from_extension("WebP"), FileFormat::WebP);
    assert_eq!(FileFormat::from_extension("txt"), FileFormat::Unknown);
    assert_eq!(FileFormat::from_lowered("GIF"), FileFormat::Unknown);
    assert_eq!(FileFormat::from_lowered("gif"), FileFormat::Gif);
    assert!(FileFormat::Bmp.is_image());
    assert!(!FileFormat::Rustiq.is_image());
}
