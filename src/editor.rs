use vstd::prelude::*;
use crate::canvas::{lemma_cell_in_bounds, blank_pixels, CanvasState, Layer};
use crate::brush::{BrushManager, MAX_BRUSH_SIZE};
use crate::color::{Rgba, same_pixel};
use crate::history::{
    apply_frame, fits, frame_valid, lemma_undo_redo_round_trip, put, read, redo_record, rewind,
    CanvasChange, Grids,
};

verus! {

/// How many committed gestures the undo history keeps.
pub const MAX_UNDO_STEPS: usize = 20;

/// How many colours the palette of saved colours holds.
pub const MAX_SAVED_COLORS: usize = 16;

/// The tool that pointer input is routed to.
#[derive(Clone, Copy, Debug, PartialEq, Eq, Structural)]
pub enum Tool {
    Brush,
    Eraser,
    PaintBucket,
    ColorPicker,
    Line,
}

/// A document being edited: the canvas, the gesture in progress, the undo
/// and redo histories, the colours in use and the palette of saved colours.
pub struct PaintApp {
    pub current_state: CanvasState,
    pub undo_stack: Vec<Vec<CanvasChange>>,
    pub redo_stack: Vec<Vec<CanvasChange>>,
    pub current_changes: Vec<CanvasChange>,
    pub current_tool: Tool,
    pub primary_color: Rgba,
    pub secondary_color: Rgba,
    pub using_secondary_color: bool,
    pub saved_colors: Vec<Rgba>,
    pub brush_size: i32,
    pub eraser_size: i32,
    pub brush_manager: BrushManager,
    pub texture_dirty: bool,
    pub has_unsaved_changes: bool,
    /// Simulated pressure, in thousandths, and its settings: the smoothing
    /// weight of a new reading, how much speed lowers pressure, and the
    /// speed (pixels per second) at which it is lowest.
    pub pressure_enabled: bool,
    pub current_pressure: u32,
    pub pressure_smoothing: u32,
    pub velocity_sensitivity: u32,
    pub max_velocity_for_min_pressure: u32,
    /// The grids as they stood when the gesture in progress began.
    pub gesture_start: Ghost<Grids>,
}

/// `s` after saving `c`: a colour already there changes nothing; otherwise
/// `c` goes at the end, and the oldest entry leaves when the palette is full.
pub open spec fn palette_add(s: Seq<Rgba>, c: Rgba) -> Seq<Rgba> {
    if s.contains(c) {
        s
    } else if s.len() >= MAX_SAVED_COLORS {
        s.subrange(1, s.len() as int).push(c)
    } else {
        s.push(c)
    }
}

/// Undo/redo round trip for a document: the gesture in progress, once
/// committed by `save_state` as the newest undo frame, is undone by `undo`
/// back to the grids at the start of the gesture; `redo` of the frame that
/// undo keeps brings back the grids at its end and records the same frame
/// again.
pub proof fn lemma_gesture_round_trip(app: PaintApp)
    requires
        app.wf(),
        app.tracking(),
    ensures
        rewind(app.grids(), app.width(), app.current_changes@, false) == app.gesture_start@,
        rewind(app.gesture_start@, app.width(), app.current_changes@.reverse(), true)
            == app.grids(),
        redo_record(app.gesture_start@, app.width(), app.current_changes@.reverse())
            == app.current_changes@,
{
    lemma_undo_redo_round_trip(app.gesture_start@, app.width(), app.current_changes@);
}

/// The undo frames after committing frame `f`: `f` goes on top, and the
/// oldest frame leaves when that exceeds the bound.
pub open spec fn commit_frame(u: Seq<Seq<CanvasChange>>, f: Seq<CanvasChange>) -> Seq<Seq<CanvasChange>> {
    let pushed = u.push(f);
    if pushed.len() > MAX_UNDO_STEPS {
        pushed.subrange(1, pushed.len() as int)
    } else {
        pushed
    }
}

/// The undo frames after committing the frames of `fs` in order.
pub open spec fn commit_all(u: Seq<Seq<CanvasChange>>, fs: Seq<Seq<CanvasChange>>) -> Seq<Seq<CanvasChange>>
    decreases fs.len(),
{
    if fs.len() == 0 {
        u
    } else {
        commit_frame(commit_all(u, fs.drop_last()), fs.last())
    }
}

/// Bounded history: from an undo stack within the bound, committing any
/// number of gestures leaves as many frames as were there and committed,
/// but never more than `MAX_UNDO_STEPS`, the newest on top; each `undo`
/// takes one frame, so undo runs at most that many times before the stack
/// is empty.
pub proof fn lemma_bounded_history(u: Seq<Seq<CanvasChange>>, fs: Seq<Seq<CanvasChange>>)
    requires
        u.len() <= MAX_UNDO_STEPS,
    ensures
        commit_all(u, fs).len() == if u.len() + fs.len() > MAX_UNDO_STEPS {
            MAX_UNDO_STEPS as int
        } else {
            (u.len() + fs.len()) as int
        },
        fs.len() > 0 ==> commit_all(u, fs).last() == fs.last(),
    decreases fs.len(),
{
    if fs.len() > 0 {
        lemma_bounded_history(u, fs.drop_last());
    }
}

/// Saved-colour cap: on a full palette, saving a colour it lacks drops the
/// oldest entry and keeps the length at the capacity; saving a colour it
/// holds changes nothing.
pub proof fn lemma_palette_cap(s: Seq<Rgba>, c: Rgba)
    requires
        s.len() == MAX_SAVED_COLORS,
    ensures
        !s.contains(c) ==> palette_add(s, c).len() == MAX_SAVED_COLORS && palette_add(s, c)
            == s.subrange(1, MAX_SAVED_COLORS as int).push(c),
        s.contains(c) ==> palette_add(s, c) == s,
{
}

/// Under a well-formed canvas, a change names a pixel exactly when its layer
/// exists and its position lies on the canvas, and `read` and `put` are the
/// canvas's own reads and writes.
pub proof fn lemma_access(c: CanvasState, ch: CanvasChange)
    requires
        c.wf(),
    ensures
        fits(c.grids(), c.width as int, ch) == (c.in_canvas(ch.x as int, ch.y as int)
            && ch.layer_index < c.layers.len()),
        fits(c.grids(), c.width as int, ch) ==> read(c.grids(), c.width as int, ch) == c.pixel(
            ch.layer_index as int,
            ch.x as int,
            ch.y as int,
        ),
{
    let w = c.width as int;
    let h = c.height as int;
    let x = ch.x as int;
    let y = ch.y as int;
    if ch.layer_index < c.layers.len() {
        assert(c.layers[ch.layer_index as int].data.len() == w * h);
        if x < w && y < h {
            lemma_cell_in_bounds(w, h, x, y);
        }
        if x < w && y >= h {
            assert(y * w + x >= w * h) by (nonlinear_arith)
                requires
                    0 <= x < w,
                    y >= h,
                    h >= 0,
            ;
        }
    }
}

impl PaintApp {
    pub open spec fn wf(&self) -> bool {
        &&& self.current_state.wf()
        &&& self.undo_stack.len() + self.redo_stack.len() <= MAX_UNDO_STEPS
        &&& self.brush_manager.wf()
        &&& 0 <= self.brush_size <= MAX_BRUSH_SIZE
        &&& 0 <= self.eraser_size <= MAX_BRUSH_SIZE
        &&& self.current_pressure <= 1000
        &&& self.pressure_smoothing <= 1000
        &&& self.velocity_sensitivity <= 1000
        &&& self.max_velocity_for_min_pressure > 0
    }

    pub open spec fn grids(&self) -> Grids {
        self.current_state.grids()
    }

    pub open spec fn width(&self) -> int {
        self.current_state.width as int
    }

    pub open spec fn undo_frames(&self) -> Seq<Seq<CanvasChange>> {
        self.undo_stack@.map_values(|v: Vec<CanvasChange>| v@)
    }

    pub open spec fn redo_frames(&self) -> Seq<Seq<CanvasChange>> {
        self.redo_stack@.map_values(|v: Vec<CanvasChange>| v@)
    }

    /// The gesture in progress is a faithful record of the writes that led
    /// from the grids at its start to the grids now.
    pub open spec fn tracking(&self) -> bool {
        &&& frame_valid(self.gesture_start@, self.width(), self.current_changes@)
        &&& apply_frame(self.gesture_start@, self.width(), self.current_changes@) == self.grids()
    }

    /// What does not change when pixels change.
    pub open spec fn same_frame(&self, other: &PaintApp) -> bool {
        &&& self.current_state.width == other.current_state.width
        &&& self.current_state.height == other.current_state.height
        &&& self.current_state.active_layer_index == other.current_state.active_layer_index
        &&& self.current_state.layers.len() == other.current_state.layers.len()
        &&& forall|k: int|
            0 <= k < other.current_state.layers.len() ==> (#[trigger] self.current_state.layers[k]).visible
                == other.current_state.layers[k].visible && self.current_state.layers[k].name
                == other.current_state.layers[k].name
        &&& self.current_tool == other.current_tool
        &&& self.primary_color == other.primary_color
        &&& self.secondary_color == other.secondary_color
        &&& self.using_secondary_color == other.using_secondary_color
        &&& self.saved_colors@ == other.saved_colors@
        &&& self.brush_size == other.brush_size
        &&& self.eraser_size == other.eraser_size
        &&& self.pressure_enabled == other.pressure_enabled
        &&& self.current_pressure == other.current_pressure
        &&& self.pressure_smoothing == other.pressure_smoothing
        &&& self.velocity_sensitivity == other.velocity_sensitivity
        &&& self.max_velocity_for_min_pressure == other.max_velocity_for_min_pressure
        &&& self.brush_manager == other.brush_manager
    }

    /// A blank document of the given size: one layer, black on white, empty
    /// histories and palette.
    pub fn new(width: usize, height: usize) -> (app: PaintApp)
        requires
            width * height <= usize::MAX,
        ensures
            app.wf(),
            app.tracking(),
            app.gesture_start@ == app.grids(),
            !app.has_unsaved_changes,
            app.current_state.width == width,
            app.current_state.height == height,
            app.current_state.layers.len() == 1,
            app.current_state.layers[0].visible,
            app.current_state.layers[0].name@ == "Background"@,
            app.current_state.active_layer_index == 0,
            app.grids() == seq![Seq::new((width * height) as nat, |i: int| None::<Rgba>)],
            app.undo_stack.len() == 0,
            app.redo_stack.len() == 0,
            app.current_changes.len() == 0,
            app.saved_colors.len() == 0,
            app.primary_color == (Rgba { r: 0, g: 0, b: 0, a: 255 }),
            app.secondary_color == (Rgba { r: 255, g: 255, b: 255, a: 255 }),
            app.current_tool == Tool::Brush,
            !app.using_secondary_color,
            !app.pressure_enabled,
            app.brush_size == 3,
            app.eraser_size == 3,
    {
        let state = CanvasState::new(width, height);
        let app = PaintApp {
            current_state: state,
            undo_stack: Vec::new(),
            redo_stack: Vec::new(),
            current_changes: Vec::new(),
            current_tool: Tool::Brush,
            primary_color: Rgba::black(),
            secondary_color: Rgba::white(),
            using_secondary_color: false,
            saved_colors: Vec::new(),
            brush_size: 3,
            eraser_size: 3,
            brush_manager: BrushManager::new(),
            texture_dirty: true,
            has_unsaved_changes: false,
            pressure_enabled: false,
            current_pressure: 1000,
            pressure_smoothing: 800,
            velocity_sensitivity: 900,
            max_velocity_for_min_pressure: 1900,
            gesture_start: Ghost(state.grids()),
        };
        assert(app.grids() =~= seq![Seq::new((width * height) as nat, |i: int| None::<Rgba>)]);
        app
    }

    /// Records one pixel write of the gesture in progress on the active
    /// layer: where the pixel already holds `new_color`, or lies off the
    /// canvas, nothing happens; otherwise the change is appended to the
    /// gesture and written at once.
    pub fn record_change(&mut self, x: usize, y: usize, new_color: Option<Rgba>)
        requires
            old(self).wf(),
        ensures
            final(self).wf(),
            final(self).same_frame(old(self)),
            final(self).undo_frames() == old(self).undo_frames(),
            final(self).redo_frames() == old(self).redo_frames(),
            final(self).gesture_start == old(self).gesture_start,
            old(self).tracking() ==> final(self).tracking(),
            ({
                let ch = CanvasChange {
                    x,
                    y,
                    layer_index: old(self).current_state.active_layer_index,
                    old_color: read(old(self).grids(), old(self).width(), ch0(x, y, old(self))),
                    new_color,
                };
                if old(self).current_state.in_canvas(x as int, y as int) && ch.old_color
                    != new_color {
                    &&& final(self).has_unsaved_changes
                    &&& final(self).current_changes@ == old(self).current_changes@.push(ch)
                    &&& final(self).grids() == put(
                        old(self).grids(),
                        old(self).width(),
                        ch,
                        new_color,
                    )
                } else {
                    &&& final(self).current_changes@ == old(self).current_changes@
                    &&& final(self).current_state == old(self).current_state
                    &&& final(self).has_unsaved_changes == old(self).has_unsaved_changes
                }
            }),
    {
        let active = self.current_state.active_layer_index;
        let ghost ch = ch0(x, y, old(self));
        proof {
            lemma_access(self.current_state, ch);
        }
        if x < self.current_state.width && y < self.current_state.height {
            let old_color = self.current_state.get_from_active_layer(x, y);
            if !same_pixel(old_color, new_color) {
                let change = CanvasChange { x, y, layer_index: active, old_color, new_color };
                self.current_changes.push(change);
                self.current_state.set(x, y, new_color);
                self.has_unsaved_changes = true;
                proof {
                    assert(self.current_changes@.drop_last() =~= old(self).current_changes@);
                }
            }
        }
    }

    /// Commits the gesture in progress: a non-empty one becomes the newest
    /// undo frame (the oldest frame leaves beyond the bound) and clears the
    /// redo history; an empty one changes nothing. A new gesture begins.
    pub fn save_state(&mut self)
        requires
            old(self).wf(),
        ensures
            final(self).wf(),
            final(self).same_frame(old(self)),
            final(self).current_state == old(self).current_state,
            final(self).grids() == old(self).grids(),
            final(self).tracking(),
            final(self).current_changes.len() == 0,
            old(self).current_changes.len() == 0 ==> final(self).undo_frames() == old(self).undo_frames() && final(self).redo_frames() == old(self).redo_frames(),
            old(self).current_changes.len() > 0 ==> {
                &&& final(self).undo_frames() == commit_frame(
                    old(self).undo_frames(),
                    old(self).current_changes@,
                )
                &&& final(self).redo_frames() == Seq::<Seq<CanvasChange>>::empty()
            },
    {
        if self.current_changes.len() > 0 {
            let mut frame: Vec<CanvasChange> = Vec::new();
            std::mem::swap(&mut frame, &mut self.current_changes);
            self.undo_stack.push(frame);
            if self.undo_stack.len() > MAX_UNDO_STEPS {
                self.undo_stack.remove(0);
            }
            self.redo_stack = Vec::new();
            self.has_unsaved_changes = true;
            proof {
                let pushed = old(self).undo_frames().push(old(self).current_changes@);
                if pushed.len() > MAX_UNDO_STEPS {
                    assert(self.undo_frames() =~= pushed.subrange(1, pushed.len() as int));
                } else {
                    assert(self.undo_frames() =~= pushed);
                }
                assert(self.redo_frames() =~= Seq::<Seq<CanvasChange>>::empty());
            }
        }
        self.gesture_start = Ghost(self.current_state.grids());
        assert(self.current_changes@ =~= Seq::<CanvasChange>::empty());
    }

    /// Undoes the newest committed gesture: its changes are written back with
    /// their old colours from the last to the first, and the frame moves,
    /// reversed, to the redo history. With nothing to undo, nothing happens.
    pub fn undo(&mut self)
        requires
            old(self).wf(),
        ensures
            final(self).wf(),
            final(self).same_frame(old(self)),
            final(self).current_changes@ == old(self).current_changes@,
            old(self).undo_stack.len() == 0 ==> final(self).current_state == old(self).current_state
                && final(self).undo_frames() == old(self).undo_frames() && final(self).redo_frames() == old(self).redo_frames(),
            old(self).undo_stack.len() > 0 ==> {
                let f = old(self).undo_frames().last();
                &&& final(self).texture_dirty && final(self).has_unsaved_changes
                &&& final(self).grids() == rewind(old(self).grids(), old(self).width(), f, false)
                &&& final(self).undo_frames() == old(self).undo_frames().drop_last()
                &&& final(self).redo_frames() == old(self).redo_frames().push(f.reverse())
            },
    {
        if let Some(changes) = self.undo_stack.pop() {
            let ghost g0 = self.grids();
            let ghost w = self.width();
            let ghost f = changes@;
            let n = changes.len();
            let mut redo_changes: Vec<CanvasChange> = Vec::with_capacity(n);
            let mut i: usize = n;
            while i > 0
                invariant
                    i <= n,
                    n == f.len(),
                    changes@ == f,
                    self.current_state.wf(),
                    self.width() == w,
                    self.same_frame(old(self)),
                    self.grids() == rewind(g0, w, f.subrange(i as int, n as int), false),
                    redo_changes@ == f.subrange(i as int, n as int).reverse(),
                    self.undo_stack@ == old(self).undo_stack@.drop_last(),
                    self.redo_stack@ == old(self).redo_stack@,
                    self.current_changes@ == old(self).current_changes@,
                decreases i,
            {
                i = i - 1;
                let change = changes[i];
                redo_changes.push(change);
                proof {
                    lemma_access(self.current_state, change);
                }
                self.current_state.write_to_layer(
                    change.layer_index,
                    change.x,
                    change.y,
                    change.old_color,
                );
                proof {
                    let s = f.subrange(i as int, n as int);
                    assert(s.subrange(1, s.len() as int) =~= f.subrange(i + 1, n as int));
                    assert(redo_changes@ =~= s.reverse());
                }
            }
            self.redo_stack.push(redo_changes);
            self.texture_dirty = true;
            self.has_unsaved_changes = true;
            proof {
                assert(f.subrange(0, n as int) =~= f);
                assert(self.undo_frames() =~= old(self).undo_frames().drop_last());
                assert(self.redo_frames() =~= old(self).redo_frames().push(f.reverse()));
            }
        }
    }

    /// Redoes the newest undone gesture: its changes are written again with
    /// their new colours from the last to the first, each recorded with the
    /// colour it replaces, and that record becomes the newest undo frame.
    /// With nothing to redo, nothing happens.
    pub fn redo(&mut self)
        requires
            old(self).wf(),
        ensures
            final(self).wf(),
            final(self).same_frame(old(self)),
            final(self).current_changes@ == old(self).current_changes@,
            old(self).redo_stack.len() == 0 ==> final(self).current_state == old(self).current_state
                && final(self).undo_frames() == old(self).undo_frames() && final(self).redo_frames() == old(self).redo_frames(),
            old(self).redo_stack.len() > 0 ==> {
                let r = old(self).redo_frames().last();
                &&& final(self).texture_dirty && final(self).has_unsaved_changes
                &&& final(self).grids() == rewind(old(self).grids(), old(self).width(), r, true)
                &&& final(self).redo_frames() == old(self).redo_frames().drop_last()
                &&& final(self).undo_frames() == old(self).undo_frames().push(
                    redo_record(old(self).grids(), old(self).width(), r),
                )
            },
    {
        if let Some(changes) = self.redo_stack.pop() {
            let ghost g0 = self.grids();
            let ghost w = self.width();
            let ghost r = changes@;
            let n = changes.len();
            let mut undo_changes: Vec<CanvasChange> = Vec::with_capacity(n);
            let mut i: usize = n;
            while i > 0
                invariant
                    i <= n,
                    n == r.len(),
                    changes@ == r,
                    self.current_state.wf(),
                    self.width() == w,
                    self.same_frame(old(self)),
                    self.grids() == rewind(g0, w, r.subrange(i as int, n as int), true),
                    undo_changes@ == redo_record(g0, w, r).take(n - i),
                    self.undo_stack@ == old(self).undo_stack@,
                    self.redo_stack@ == old(self).redo_stack@.drop_last(),
                    self.current_changes@ == old(self).current_changes@,
                decreases i,
            {
                i = i - 1;
                let change = changes[i];
                proof {
                    lemma_access(self.current_state, change);
                }
                let current_color = self.current_state.get_from_layer(
                    change.layer_index,
                    change.x,
                    change.y,
                );
                undo_changes.push(
                    CanvasChange {
                        x: change.x,
                        y: change.y,
                        layer_index: change.layer_index,
                        old_color: current_color,
                        new_color: change.new_color,
                    },
                );
                self.current_state.write_to_layer(
                    change.layer_index,
                    change.x,
                    change.y,
                    change.new_color,
                );
                proof {
                    let s = r.subrange(i as int, n as int);
                    assert(s.subrange(1, s.len() as int) =~= r.subrange(i + 1, n as int));
                    let k = (n - 1 - i) as int;
                    assert(r.subrange(r.len() - k, r.len() as int) =~= r.subrange(i + 1, n as int));
                    assert(undo_changes@ =~= redo_record(g0, w, r).take(n - i));
                }
            }
            self.undo_stack.push(undo_changes);
            self.texture_dirty = true;
            self.has_unsaved_changes = true;
            proof {
                assert(r.subrange(0, n as int) =~= r);
                assert(redo_record(g0, w, r).take(n as int) =~= redo_record(g0, w, r));
                assert(self.redo_frames() =~= old(self).redo_frames().drop_last());
                assert(self.undo_frames() =~= old(self).undo_frames().push(
                    redo_record(g0, w, r),
                ));
            }
        }
    }
}

impl PaintApp {
    /// What layer edits leave alone: the size, the histories and the colours.
    pub open spec fn same_document(&self, other: &PaintApp) -> bool {
        &&& self.current_state.width == other.current_state.width
        &&& self.current_state.height == other.current_state.height
        &&& self.undo_frames() == other.undo_frames()
        &&& self.redo_frames() == other.redo_frames()
        &&& self.current_changes@ == other.current_changes@
        &&& self.primary_color == other.primary_color
        &&& self.secondary_color == other.secondary_color
        &&& self.saved_colors@ == other.saved_colors@
    }

    /// Adds a visible, unpainted layer on top of the stack and makes it active.
    pub fn add_layer(&mut self, name: String)
        requires
            old(self).wf(),
        ensures
            final(self).wf(),
            final(self).same_document(old(self)),
            final(self).current_state.layers@.drop_last() == old(self).current_state.layers@,
            final(self).current_state.layers.len() == old(self).current_state.layers.len() + 1,
            final(self).current_state.layers@.last().name@ == name@,
            final(self).current_state.layers@.last().visible,
            final(self).current_state.layers@.last().data@ == Seq::new(
                (old(self).current_state.width * old(self).current_state.height) as nat,
                |i: int| None::<Rgba>,
            ),
            final(self).current_state.active_layer_index == old(self).current_state.layers.len(),
            final(self).texture_dirty,
            final(self).has_unsaved_changes,
    {
        let n = self.current_state.width * self.current_state.height;
        let layer = Layer { name, data: blank_pixels(n), visible: true };
        self.current_state.layers.push(layer);
        self.current_state.active_layer_index = self.current_state.layers.len() - 1;
        self.texture_dirty = true;
        self.has_unsaved_changes = true;
        proof {
            assert(self.current_state.layers@.drop_last() =~= old(self).current_state.layers@);
            assert forall|i: int| 0 <= i < self.current_state.layers.len() implies
                #[trigger] self.current_state.layers[i].data.len() == self.current_state.width
                * self.current_state.height by {
                if i < old(self).current_state.layers.len() {
                    assert(self.current_state.layers[i] == old(self).current_state.layers[i]);
                }
            }
        }
    }

    /// Removes layer `index`, unless it is the only one or does not exist.
    /// The active index stays, moved down only where it would fall off the stack.
    pub fn remove_layer(&mut self, index: usize)
        requires
            old(self).wf(),
        ensures
            final(self).wf(),
            final(self).same_document(old(self)),
            ({
                let n = old(self).current_state.layers.len();
                if n > 1 && index < n {
                    &&& final(self).texture_dirty && final(self).has_unsaved_changes
                    &&& final(self).current_state.layers@ == old(self).current_state.layers@.remove(
                        index as int,
                    )
                    &&& final(self).current_state.active_layer_index == (if old(self).current_state.active_layer_index >= n - 1 {
                        (n - 2) as usize
                    } else {
                        old(self).current_state.active_layer_index
                    })
                } else {
                    &&& final(self).current_state.layers@ == old(self).current_state.layers@
                    &&& final(self).current_state.active_layer_index == old(self).current_state.active_layer_index
                }
            }),
    {
        if self.current_state.layers.len() > 1 && index < self.current_state.layers.len() {
            self.current_state.layers.remove(index);
            if self.current_state.active_layer_index >= self.current_state.layers.len() {
                self.current_state.active_layer_index = self.current_state.layers.len() - 1;
            }
            self.texture_dirty = true;
            self.has_unsaved_changes = true;
            proof {
                assert forall|i: int| 0 <= i < self.current_state.layers.len() implies
                    #[trigger] self.current_state.layers[i].data.len() == self.current_state.width
                    * self.current_state.height by {
                    if i < index {
                        assert(self.current_state.layers[i] == old(self).current_state.layers[i]);
                    } else {
                        assert(self.current_state.layers[i] == old(self).current_state.layers[i
                            + 1]);
                    }
                }
            }
        }
    }

    /// Exchanges layers `i` and `i + 1`, carrying the active index along.
    fn swap_with_next(&mut self, i: usize)
        requires
            old(self).wf(),
            i + 1 < old(self).current_state.layers.len(),
        ensures
            final(self).wf(),
            final(self).same_document(old(self)),
            final(self).current_state.layers@ == old(self).current_state.layers@.update(
                i as int,
                old(self).current_state.layers@[i + 1],
            ).update(i + 1, old(self).current_state.layers@[i as int]),
            final(self).current_state.active_layer_index == (if old(self).current_state.active_layer_index == i {
                (i + 1) as usize
            } else if old(self).current_state.active_layer_index == i + 1 {
                i
            } else {
                old(self).current_state.active_layer_index
            }),
            final(self).texture_dirty,
            final(self).has_unsaved_changes,
    {
        let layer = self.current_state.layers.remove(i + 1);
        self.current_state.layers.insert(i, layer);
        if self.current_state.active_layer_index == i {
            self.current_state.active_layer_index = i + 1;
        } else if self.current_state.active_layer_index == i + 1 {
            self.current_state.active_layer_index = i;
        }
        self.texture_dirty = true;
        self.has_unsaved_changes = true;
        proof {
            let o = old(self).current_state.layers@;
            assert(self.current_state.layers@ =~= o.update(i as int, o[i + 1]).update(
                i + 1,
                o[i as int],
            ));
            assert forall|k: int| 0 <= k < self.current_state.layers.len() implies
                #[trigger] self.current_state.layers[k].data.len() == self.current_state.width
                * self.current_state.height by {
                if k == i {
                    assert(self.current_state.layers[k] == o[i + 1]);
                } else if k == i + 1 {
                    assert(self.current_state.layers[k] == o[i as int]);
                } else {
                    assert(self.current_state.layers[k] == o[k]);
                }
            }
        }
    }

    /// Moves layer `index` one place up the stack (towards index 0).
    pub fn move_layer_up(&mut self, index: usize)
        requires
            old(self).wf(),
        ensures
            final(self).wf(),
            final(self).same_document(old(self)),
            ({
                let o = old(self).current_state.layers@;
                let a = old(self).current_state.active_layer_index;
                if 0 < index < o.len() {
                    &&& final(self).texture_dirty && final(self).has_unsaved_changes
                    &&& final(self).current_state.layers@ == o.update(index - 1, o[index as int]).update(
                        index as int,
                        o[index - 1],
                    )
                    &&& final(self).current_state.active_layer_index == (if a == index {
                        (index - 1) as usize
                    } else if a == index - 1 {
                        index
                    } else {
                        a
                    })
                } else {
                    &&& final(self).current_state.layers@ == o
                    &&& final(self).current_state.active_layer_index == a
                }
            }),
    {
        if index > 0 && index < self.current_state.layers.len() {
            self.swap_with_next(index - 1);
        }
    }

    /// Moves layer `index` one place down the stack (towards the top index).
    pub fn move_layer_down(&mut self, index: usize)
        requires
            old(self).wf(),
        ensures
            final(self).wf(),
            final(self).same_document(old(self)),
            ({
                let o = old(self).current_state.layers@;
                let a = old(self).current_state.active_layer_index;
                if index + 1 < o.len() {
                    &&& final(self).texture_dirty && final(self).has_unsaved_changes
                    &&& final(self).current_state.layers@ == o.update(index as int, o[index + 1]).update(
                        index + 1,
                        o[index as int],
                    )
                    &&& final(self).current_state.active_layer_index == (if a == index {
                        (index + 1) as usize
                    } else if a == index + 1 {
                        index
                    } else {
                        a
                    })
                } else {
                    &&& final(self).current_state.layers@ == o
                    &&& final(self).current_state.active_layer_index == a
                }
            }),
    {
        if index < self.current_state.layers.len() - 1 {
            self.swap_with_next(index);
        }
    }

    /// Shows a hidden layer or hides a shown one.
    pub fn toggle_layer_visibility(&mut self, index: usize)
        requires
            old(self).wf(),
        ensures
            final(self).wf(),
            final(self).same_document(old(self)),
            final(self).current_state.active_layer_index == old(self).current_state.active_layer_index,
            index < old(self).current_state.layers.len() ==> final(self).texture_dirty
                && final(self).has_unsaved_changes,
            final(self).current_state.layers@ == (if index < old(self).current_state.layers.len() {
                old(self).current_state.layers@.update(
                    index as int,
                    Layer {
                        visible: !old(self).current_state.layers@[index as int].visible,
                        ..old(self).current_state.layers@[index as int]
                    },
                )
            } else {
                old(self).current_state.layers@
            }),
    {
        if index < self.current_state.layers.len() {
            let v = self.current_state.layers[index].visible;
            self.current_state.layers[index].visible = !v;
            self.texture_dirty = true;
            self.has_unsaved_changes = true;
            proof {
                assert(self.current_state.layers@ =~= old(self).current_state.layers@.update(
                    index as int,
                    Layer {
                        visible: !old(self).current_state.layers@[index as int].visible,
                        ..old(self).current_state.layers@[index as int]
                    },
                ));
                assert forall|k: int| 0 <= k < self.current_state.layers.len() implies
                    #[trigger] self.current_state.layers[k].data.len() == self.current_state.width
                    * self.current_state.height by {
                    assert(self.current_state.layers[k].data == old(self).current_state.layers[k].data);
                }
            }
        }
    }

    /// Makes layer `index` the one that painting writes to, if it exists.
    pub fn set_active_layer(&mut self, index: usize)
        requires
            old(self).wf(),
        ensures
            final(self).wf(),
            final(self).same_document(old(self)),
            final(self).current_state.layers@ == old(self).current_state.layers@,
            final(self).current_state.active_layer_index == (if index < old(self).current_state.layers.len() {
                index
            } else {
                old(self).current_state.active_layer_index
            }),
    {
        if index < self.current_state.layers.len() {
            self.current_state.active_layer_index = index;
        }
    }

    /// Gives layer `index` a new name, if it exists.
    pub fn rename_layer(&mut self, index: usize, name: String)
        requires
            old(self).wf(),
        ensures
            final(self).wf(),
            final(self).same_document(old(self)),
            final(self).current_state.active_layer_index == old(self).current_state.active_layer_index,
            final(self).current_state.layers.len() == old(self).current_state.layers.len(),
            index < old(self).current_state.layers.len() ==> final(self).has_unsaved_changes,
            forall|k: int|
                0 <= k < old(self).current_state.layers.len() ==> {
                    &&& (#[trigger] final(self).current_state.layers[k]).data == old(self).current_state.layers[k].data
                    &&& final(self).current_state.layers[k].visible == old(self).current_state.layers[k].visible
                    &&& final(self).current_state.layers[k].name@ == (if k == index {
                        name@
                    } else {
                        old(self).current_state.layers[k].name@
                    })
                },
    {
        if index < self.current_state.layers.len() {
            self.current_state.layers[index].name = name;
            self.has_unsaved_changes = true;
        }
    }

    /// Saves `color` in the palette: a colour already there changes nothing;
    /// otherwise it is appended, and the oldest entry leaves when the
    /// palette is full.
    pub fn add_saved_color(&mut self, color: Rgba)
        requires
            old(self).wf(),
        ensures
            final(self).wf(),
            final(self).same_frame_but_palette(old(self)),
            final(self).saved_colors@ == palette_add(old(self).saved_colors@, color),
    {
        let mut found = false;
        let mut i: usize = 0;
        while i < self.saved_colors.len()
            invariant
                i <= self.saved_colors.len(),
                self.saved_colors@ == old(self).saved_colors@,
                found <==> (exists|j: int| 0 <= j < i && #[trigger] self.saved_colors@[j] == color),
            decreases self.saved_colors.len() - i,
        {
            if self.saved_colors[i] == color {
                found = true;
            }
            i = i + 1;
        }
        if !found {
            if self.saved_colors.len() >= MAX_SAVED_COLORS {
                self.saved_colors.remove(0);
            }
            self.saved_colors.push(color);
            proof {
                let s = old(self).saved_colors@;
                if s.len() >= MAX_SAVED_COLORS {
                    assert(self.saved_colors@ =~= s.subrange(1, s.len() as int).push(color));
                }
            }
        }
    }

    /// Drops palette entry `index`, if it exists.
    pub fn remove_saved_color(&mut self, index: usize)
        requires
            old(self).wf(),
        ensures
            final(self).wf(),
            final(self).same_frame_but_palette(old(self)),
            final(self).saved_colors@ == (if index < old(self).saved_colors.len() {
                old(self).saved_colors@.remove(index as int)
            } else {
                old(self).saved_colors@
            }),
    {
        if index < self.saved_colors.len() {
            self.saved_colors.remove(index);
        }
    }

    /// Everything but the palette and the flags stays.
    pub open spec fn same_frame_but_palette(&self, other: &PaintApp) -> bool {
        &&& self.current_state == other.current_state
        &&& self.undo_stack == other.undo_stack
        &&& self.redo_stack == other.redo_stack
        &&& self.current_changes == other.current_changes
        &&& self.gesture_start == other.gesture_start
        &&& self.current_tool == other.current_tool
        &&& self.primary_color == other.primary_color
        &&& self.secondary_color == other.secondary_color
        &&& self.using_secondary_color == other.using_secondary_color
        &&& self.brush_size == other.brush_size
        &&& self.eraser_size == other.eraser_size
        &&& self.brush_manager == other.brush_manager
        &&& self.pressure_enabled == other.pressure_enabled
        &&& self.current_pressure == other.current_pressure
        &&& self.pressure_smoothing == other.pressure_smoothing
        &&& self.velocity_sensitivity == other.velocity_sensitivity
        &&& self.max_velocity_for_min_pressure == other.max_velocity_for_min_pressure
    }

    /// Takes the colour shown at `(x, y)` as the colour in use: the
    /// secondary one when `using_secondary_color` selects it (the last
    /// argument does not decide). An unpainted pixel changes nothing.
    pub fn pick_color(&mut self, x: usize, y: usize, _use_secondary: bool)
        requires
            old(self).wf(),
        ensures
            final(self).wf(),
            final(self).current_state == old(self).current_state,
            final(self).undo_stack == old(self).undo_stack,
            final(self).redo_stack == old(self).redo_stack,
            final(self).saved_colors == old(self).saved_colors,
            final(self).brush_manager == old(self).brush_manager,
            final(self).brush_size == old(self).brush_size,
            final(self).eraser_size == old(self).eraser_size,
            final(self).current_pressure == old(self).current_pressure,
            ({
                let shown = old(self).current_state.composite(x as int, y as int);
                match shown {
                    Some(c) => if old(self).using_secondary_color {
                        final(self).secondary_color == c && final(self).primary_color == old(self).primary_color
                    } else {
                        final(self).primary_color == c && final(self).secondary_color == old(self).secondary_color
                    },
                    None => final(self).primary_color == old(self).primary_color && final(self).secondary_color == old(self).secondary_color,
                }
            }),
    {
        if let Some(color) = self.current_state.get(x, y) {
            if self.using_secondary_color {
                self.secondary_color = color;
            } else {
                self.primary_color = color;
            }
        }
    }
}

/// The change that a write of `(x, y)` on the active layer would record,
/// whatever its colours.
pub open spec fn ch0(x: usize, y: usize, app: &PaintApp) -> CanvasChange {
    CanvasChange {
        x,
        y,
        layer_index: app.current_state.active_layer_index,
        old_color: None,
        new_color: None,
    }
}

} // verus!
