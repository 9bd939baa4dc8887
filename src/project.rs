use vstd::prelude::*;
use crate::brush::{BrushManager, MAX_BRUSH_SIZE};
use crate::canvas::{cell, lemma_cell_in_bounds, CanvasState, Layer};
use crate::color::Rgba;
use crate::editor::{PaintApp, Tool};

verus! {

/// One layer as a project file holds it.
pub struct LayerData {
    pub name: String,
    pub data: Vec<Option<Rgba>>,
    pub visible: bool,
}

/// The content of a project file: the canvas size, the layers bottom first,
/// the active layer, the two colours in use, the saved colours and the tool
/// sizes.
pub struct ProjectFile {
    pub width: usize,
    pub height: usize,
    pub layers: Vec<LayerData>,
    pub active_layer_index: usize,
    pub primary_color: Rgba,
    pub secondary_color: Rgba,
    pub saved_colors: Vec<Rgba>,
    pub brush_size: i32,
    pub eraser_size: i32,
}

/// Why a project file or an image could not become a document.
#[derive(Clone, Copy, Debug, PartialEq, Eq, Structural)]
pub enum LoadError {
    /// The file holds no layer.
    NoLayers,
    /// The canvas is too large to address.
    TooLarge,
    /// A layer does not hold one pixel per canvas position.
    LayerSize,
    /// The active layer index names no layer.
    ActiveLayer,
    /// A tool size lies outside the range the brush accepts.
    ToolSize,
    /// An image buffer does not hold four bytes per pixel.
    BufferSize,
}

/// A layer seen as its name, its pixels and its visibility.
pub type LayerView = (Seq<char>, Seq<Option<Rgba>>, bool);

/// A document seen as what a project file keeps of it: width, height,
/// layers, active layer, primary and secondary colour, saved colours,
/// brush size and eraser size.
pub type DocView = (nat, nat, Seq<LayerView>, nat, Rgba, Rgba, Seq<Rgba>, int, int);

pub open spec fn layer_view(l: Layer) -> LayerView {
    (l.name@, l.data@, l.visible)
}

pub open spec fn layer_data_view(l: LayerData) -> LayerView {
    (l.name@, l.data@, l.visible)
}

/// What a project file keeps of a document.
pub open spec fn document(app: PaintApp) -> DocView {
    (
        app.current_state.width as nat,
        app.current_state.height as nat,
        app.current_state.layers@.map_values(|l: Layer| layer_view(l)),
        app.current_state.active_layer_index as nat,
        app.primary_color,
        app.secondary_color,
        app.saved_colors@,
        app.brush_size as int,
        app.eraser_size as int,
    )
}

/// What a project file holds.
pub open spec fn file_document(f: ProjectFile) -> DocView {
    (
        f.width as nat,
        f.height as nat,
        f.layers@.map_values(|l: LayerData| layer_data_view(l)),
        f.active_layer_index as nat,
        f.primary_color,
        f.secondary_color,
        f.saved_colors@,
        f.brush_size as int,
        f.eraser_size as int,
    )
}

/// The first problem of a document, checked in this order, or none.
pub open spec fn doc_problem(d: DocView) -> Option<LoadError> {
    if d.2.len() == 0 {
        Some(LoadError::NoLayers)
    } else if d.0 * d.1 > usize::MAX {
        Some(LoadError::TooLarge)
    } else if exists|i: int| 0 <= i < d.2.len() && (#[trigger] d.2[i]).1.len() != d.0 * d.1 {
        Some(LoadError::LayerSize)
    } else if d.3 >= d.2.len() {
        Some(LoadError::ActiveLayer)
    } else if !(0 <= d.7 <= MAX_BRUSH_SIZE && 0 <= d.8 <= MAX_BRUSH_SIZE) {
        Some(LoadError::ToolSize)
    } else {
        None
    }
}

/// A copy of a run of pixels.
pub fn copy_pixels(v: &Vec<Option<Rgba>>) -> (r: Vec<Option<Rgba>>)
    ensures
        r@ == v@,
{
    let mut r: Vec<Option<Rgba>> = Vec::with_capacity(v.len());
    let mut i: usize = 0;
    while i < v.len()
        invariant
            i <= v.len(),
            r@ == v@.take(i as int),
        decreases v.len() - i,
    {
        r.push(v[i]);
        i = i + 1;
        assert(r@ =~= v@.take(i as int));
    }
    assert(v@.take(v.len() as int) =~= v@);
    r
}

fn copy_colors(v: &Vec<Rgba>) -> (r: Vec<Rgba>)
    ensures
        r@ == v@,
{
    let mut r: Vec<Rgba> = Vec::with_capacity(v.len());
    let mut i: usize = 0;
    while i < v.len()
        invariant
            i <= v.len(),
            r@ == v@.take(i as int),
        decreases v.len() - i,
    {
        r.push(v[i]);
        i = i + 1;
        assert(r@ =~= v@.take(i as int));
    }
    assert(v@.take(v.len() as int) =~= v@);
    r
}

/// A document freshly opened: no history, no unsaved changes, the brush tool.
pub open spec fn fresh(app: PaintApp) -> bool {
    &&& app.undo_stack.len() == 0
    &&& app.redo_stack.len() == 0
    &&& app.current_changes.len() == 0
    &&& app.current_tool == Tool::Brush
    &&& !app.using_secondary_color
    &&& !app.has_unsaved_changes
    &&& app.tracking()
}

impl PaintApp {
    /// What a project file keeps of this document.
    pub fn save_as_rustiq(&self) -> (f: ProjectFile)
        requires
            self.wf(),
        ensures
            file_document(f) == document(*self),
    {
        let mut layers: Vec<LayerData> = Vec::with_capacity(self.current_state.layers.len());
        let mut i: usize = 0;
        while i < self.current_state.layers.len()
            invariant
                i <= self.current_state.layers.len(),
                layers.len() == i,
                forall|k: int|
                    0 <= k < i ==> layer_data_view(#[trigger] layers@[k]) == layer_view(
                        self.current_state.layers@[k],
                    ),
            decreases self.current_state.layers.len() - i,
        {
            let layer = &self.current_state.layers[i];
            layers.push(
                LayerData {
                    name: layer.name.clone(),
                    data: copy_pixels(&layer.data),
                    visible: layer.visible,
                },
            );
            i = i + 1;
        }
        assert(layers@.map_values(|l: LayerData| layer_data_view(l)) =~= self.current_state.layers@.map_values(
            |l: Layer| layer_view(l),
        ));
        let f = ProjectFile {
            width: self.current_state.width,
            height: self.current_state.height,
            layers,
            active_layer_index: self.current_state.active_layer_index,
            primary_color: self.primary_color,
            secondary_color: self.secondary_color,
            saved_colors: copy_colors(&self.saved_colors),
            brush_size: self.brush_size,
            eraser_size: self.eraser_size,
        };
        assert(file_document(f) =~= document(*self));
        f
    }

    /// The document a project file holds, with fresh history and tools; an
    /// error where the file is malformed (see `doc_problem`).
    pub fn from_rustiq_file(file: ProjectFile) -> (r: Result<PaintApp, LoadError>)
        ensures
            match r {
                Ok(app) => doc_problem(file_document(file)).is_none() && app.wf() && fresh(app)
                    && document(app) == file_document(file),
                Err(e) => doc_problem(file_document(file)) == Some(e),
            },
    {
        let ghost d = file_document(file);
        if file.layers.len() == 0 {
            return Err(LoadError::NoLayers);
        }
        if file.width > 0 && file.height > usize::MAX / file.width {
            proof {
                assert(file.width * file.height > usize::MAX) by (nonlinear_arith)
                    requires
                        file.width > 0,
                        file.height > usize::MAX / file.width,
                ;
            }
            return Err(LoadError::TooLarge);
        }
        proof {
            if file.width > 0 {
                assert(file.width * file.height <= usize::MAX) by (nonlinear_arith)
                    requires
                        file.width > 0,
                        file.height <= usize::MAX / file.width,
                ;
            }
        }
        let n = file.width * file.height;
        let mut layers: Vec<Layer> = Vec::with_capacity(file.layers.len());
        let mut i: usize = 0;
        while i < file.layers.len()
            invariant
                i <= file.layers.len(),
                n == file.width * file.height,
                d == file_document(file),
                forall|k: int| 0 <= k < i ==> (#[trigger] d.2[k]).1.len() == n,
                layers.len() == i,
                forall|k: int|
                    0 <= k < i ==> layer_view(#[trigger] layers@[k]) == layer_data_view(
                        file.layers@[k],
                    ),
            decreases file.layers.len() - i,
        {
            let ld = &file.layers[i];
            if ld.data.len() != n {
                proof {
                    assert(d.2[i as int].1.len() != d.0 * d.1);
                }
                return Err(LoadError::LayerSize);
            }
            layers.push(Layer { name: ld.name.clone(), data: copy_pixels(&ld.data), visible: ld.visible });
            i = i + 1;
        }
        assert(layers@.map_values(|l: Layer| layer_view(l)) =~= file.layers@.map_values(
            |l: LayerData| layer_data_view(l),
        ));
        if file.active_layer_index >= file.layers.len() {
            return Err(LoadError::ActiveLayer);
        }
        if file.brush_size < 0 || file.brush_size > MAX_BRUSH_SIZE as i32 || file.eraser_size < 0
            || file.eraser_size > MAX_BRUSH_SIZE as i32 {
            return Err(LoadError::ToolSize);
        }
        let state = CanvasState {
            width: file.width,
            height: file.height,
            layers,
            active_layer_index: file.active_layer_index,
        };
        assert forall|k: int| 0 <= k < state.layers.len() implies #[trigger] state.layers[k].data.len()
            == state.width * state.height by {
            assert(layer_view(state.layers@[k]) == layer_data_view(file.layers@[k]));
            assert(d.2[k] == layer_data_view(file.layers@[k]));
        }
        let app = PaintApp {
            current_state: state,
            undo_stack: Vec::new(),
            redo_stack: Vec::new(),
            current_changes: Vec::new(),
            current_tool: Tool::Brush,
            primary_color: file.primary_color,
            secondary_color: file.secondary_color,
            using_secondary_color: false,
            saved_colors: copy_colors(&file.saved_colors),
            brush_size: file.brush_size,
            eraser_size: file.eraser_size,
            brush_manager: BrushManager::new(),
            texture_dirty: true,
            has_unsaved_changes: false,
            pressure_enabled: false,
            current_pressure: 1000,
            pressure_smoothing: 800,
            velocity_sensitivity: 900,
            max_velocity_for_min_pressure: 1900,
            gesture_start: Ghost(state.grids()),
        };
        assert(document(app) =~= file_document(file));
        Ok(app)
    }

    /// The flattened picture: for each position row by row, the topmost
    /// visible painted pixel, `None` where nothing visible is painted.
    pub fn composite_pixels(&self) -> (v: Vec<Option<Rgba>>)
        requires
            self.wf(),
        ensures
            v@.len() == self.current_state.width * self.current_state.height,
            forall|x: int, y: int|
                0 <= x < self.current_state.width && 0 <= y < self.current_state.height
                    ==> #[trigger] v@[cell(self.current_state.width as int, x, y)]
                    == self.current_state.composite(x, y),
    {
        let w = self.current_state.width;
        let h = self.current_state.height;
        let mut v: Vec<Option<Rgba>> = Vec::new();
        let mut y: usize = 0;
        while y < h
            invariant
                self.wf(),
                w == self.current_state.width,
                h == self.current_state.height,
                y <= h,
                v@.len() == y * w,
                forall|xx: int, yy: int|
                    0 <= xx < w && 0 <= yy < y ==> #[trigger] v@[cell(w as int, xx, yy)]
                        == self.current_state.composite(xx, yy),
            decreases h - y,
        {
            let mut x: usize = 0;
            while x < w
                invariant
                    self.wf(),
                    w == self.current_state.width,
                    h == self.current_state.height,
                    y < h,
                    x <= w,
                    v@.len() == y * w + x,
                    forall|xx: int, yy: int|
                        0 <= xx < w && 0 <= yy < y ==> #[trigger] v@[cell(w as int, xx, yy)]
                            == self.current_state.composite(xx, yy),
                    forall|xx: int|
                        0 <= xx < x ==> #[trigger] v@[cell(w as int, xx, y as int)]
                            == self.current_state.composite(xx, y as int),
                decreases w - x,
            {
                let p = self.current_state.get(x, y);
                let ghost before = v@;
                proof {
                    lemma_cell_in_bounds(w as int, h as int, x as int, y as int);
                }
                v.push(p);
                proof {
                    assert forall|xx: int, yy: int| 0 <= xx < w && 0 <= yy < y implies
                        #[trigger] v@[cell(w as int, xx, yy)] == self.current_state.composite(xx, yy) by {
                        crate::mask::lemma_earlier_row(xx, yy, w as int, y as int);
                        assert(v@[cell(w as int, xx, yy)] == before[cell(w as int, xx, yy)]);
                    }
                }
                x = x + 1;
            }
            proof {
                assert((y + 1) * w == y * w + w) by (nonlinear_arith);
            }
            y = y + 1;
        }
        assert(h * w == w * h) by (nonlinear_arith);
        v
    }

    /// A single-layer document from an RGBA image, four bytes per pixel row
    /// by row: a pixel with non-zero alpha becomes painted, the others stay
    /// unpainted. Pressure simulation starts switched on.
    pub fn from_image(width: usize, height: usize, rgba: &Vec<u8>) -> (r: Result<PaintApp, LoadError>)
        ensures
            match r {
                Ok(app) => {
                    &&& width * height <= usize::MAX
                    &&& rgba@.len() == 4 * (width * height)
                    &&& app.wf()
                    &&& fresh(app)
                    &&& app.current_state.width == width
                    &&& app.current_state.height == height
                    &&& app.current_state.layers.len() == 1
                    &&& app.current_state.layers[0].visible
                    &&& app.current_state.layers[0].data@ == image_pixels(rgba@, (width * height) as nat)
                    &&& app.saved_colors@.len() == 0
                    &&& app.pressure_enabled
                },
                Err(e) => {
                    &&& e == LoadError::TooLarge ==> width * height > usize::MAX / 4
                    &&& e == LoadError::BufferSize ==> width * height <= usize::MAX / 4 && rgba@.len()
                        != 4 * (width * height)
                    &&& (e == LoadError::TooLarge || e == LoadError::BufferSize)
                },
            },
    {
        if width > 0 && height > (usize::MAX / 4) / width {
            proof {
                assert(width * height > usize::MAX / 4) by (nonlinear_arith)
                    requires
                        width > 0,
                        height > (usize::MAX / 4) / width,
                ;
            }
            return Err(LoadError::TooLarge);
        }
        proof {
            if width > 0 {
                assert(width * height <= usize::MAX / 4) by (nonlinear_arith)
                    requires
                        width > 0,
                        height <= (usize::MAX / 4) / width,
                ;
            }
        }
        let n = width * height;
        if rgba.len() != 4 * n {
            return Err(LoadError::BufferSize);
        }
        let mut app = PaintApp::new(width, height);
        let mut data: Vec<Option<Rgba>> = Vec::with_capacity(n);
        let mut i: usize = 0;
        while i < n
            invariant
                i <= n,
                n <= usize::MAX / 4,
                rgba@.len() == 4 * n,
                data@ == image_pixels(rgba@, i as nat),
            decreases n - i,
        {
            let a = rgba[4 * i + 3];
            if a > 0 {
                data.push(Some(Rgba { r: rgba[4 * i], g: rgba[4 * i + 1], b: rgba[4 * i + 2], a }));
            } else {
                data.push(None);
            }
            i = i + 1;
            assert(data@ =~= image_pixels(rgba@, i as nat));
        }
        app.current_state.layers[0].data = data;
        app.pressure_enabled = true;
        app.pressure_smoothing = 300;
        app.velocity_sensitivity = 800;
        app.max_velocity_for_min_pressure = 800;
        app.gesture_start = Ghost(app.current_state.grids());
        proof {
            assert forall|k: int| 0 <= k < app.current_state.layers.len() implies
                #[trigger] app.current_state.layers[k].data.len() == app.current_state.width
                * app.current_state.height by {
                assert(k == 0);
            }
        }
        Ok(app)
    }
}

/// Pixel `i` of an RGBA buffer: painted where its alpha is not zero.
pub open spec fn image_pixel(rgba: Seq<u8>, i: int) -> Option<Rgba> {
    if rgba[4 * i + 3] > 0 {
        Some(Rgba { r: rgba[4 * i], g: rgba[4 * i + 1], b: rgba[4 * i + 2], a: rgba[4 * i + 3] })
    } else {
        None
    }
}

/// The first `n` pixels of an RGBA buffer.
pub open spec fn image_pixels(rgba: Seq<u8>, n: nat) -> Seq<Option<Rgba>> {
    Seq::new(n, |i: int| image_pixel(rgba, i))
}

/// Project round trip: what a project file keeps of a well-formed document
/// is free of problems, so loading it gives back a document with the same
/// size, layers (names, pixels, visibility), active layer, colours, saved
/// colours and tool sizes.
pub proof fn lemma_project_round_trip(app: PaintApp, f: ProjectFile)
    requires
        app.wf(),
        file_document(f) == document(app),
    ensures
        doc_problem(file_document(f)).is_none(),
{
    let d = document(app);
    assert forall|i: int| 0 <= i < d.2.len() implies (#[trigger] d.2[i]).1.len() == d.0 * d.1 by {
        assert(app.current_state.layers[i].data.len() == app.current_state.width
            * app.current_state.height);
    }
}

} // verus!
