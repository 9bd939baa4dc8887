use vstd::prelude::*;
use crate::brush::{smooth_mask_size, stamp_color, stamp_diameter, stamp_opacity, stamps_upto, Stamp};
use crate::color::Rgba;
use crate::editor::{lemma_access, PaintApp, Tool};
use crate::history::{fits, put, read, CanvasChange, Grids};
use crate::mask::Rotation;

verus! {

/// The change that names pixel `(x, y)` of layer `layer`.
pub open spec fn at_pixel(layer: int, x: usize, y: usize) -> CanvasChange {
    CanvasChange { x, y, layer_index: layer as usize, old_color: None, new_color: None }
}

/// The grids after writing each stamp of `s` in order on layer `layer`
/// (nothing where `erase`), skipping stamps off the canvas.
pub open spec fn paint_writes(g: Grids, w: int, layer: int, s: Seq<Stamp>, erase: bool) -> Grids
    decreases s.len(),
{
    if s.len() == 0 {
        g
    } else {
        put(
            paint_writes(g, w, layer, s.drop_last(), erase),
            w,
            at_pixel(layer, s.last().0, s.last().1),
            if erase {
                None
            } else {
                s.last().2
            },
        )
    }
}

/// The changes that writing the stamps of `s` in order on layer `layer`
/// records (nothing written where `erase`): one per stamp that lands on the
/// canvas and alters its pixel, holding the colour before and after.
pub open spec fn stamp_record(g: Grids, w: int, layer: int, s: Seq<Stamp>, erase: bool) -> Seq<
    CanvasChange,
>
    decreases s.len(),
{
    if s.len() == 0 {
        Seq::empty()
    } else {
        let prev = s.drop_last();
        let gi = paint_writes(g, w, layer, prev, erase);
        let col = if erase {
            None
        } else {
            s.last().2
        };
        let ch = CanvasChange {
            x: s.last().0,
            y: s.last().1,
            layer_index: layer as usize,
            old_color: read(gi, w, at_pixel(layer, s.last().0, s.last().1)),
            new_color: col,
        };
        if fits(gi, w, ch) && ch.old_color != col {
            stamp_record(g, w, layer, prev, erase).push(ch)
        } else {
            stamp_record(g, w, layer, prev, erase)
        }
    }
}

/// Writing a pixel with the colour it holds changes nothing.
pub proof fn lemma_put_same(g: Grids, w: int, ch: CanvasChange, c: Option<Rgba>)
    requires
        read(g, w, ch) == c,
    ensures
        put(g, w, ch, c) == g,
{
    if fits(g, w, ch) {
        let i = ch.layer_index as int;
        assert(put(g, w, ch, c)[i] =~= g[i]);
        assert(put(g, w, ch, c) =~= g);
    }
}

/// The simulated pressure after a pointer sample moving at `speed` pixels
/// per second (`None` for the first sample of a stroke): faster is lighter,
/// between 0.1 and 1, blended into the previous pressure.
pub open spec fn next_pressure(app: PaintApp, speed: Option<u64>) -> int {
    let base = match speed {
        Some(v) => {
            let n = if v >= app.max_velocity_for_min_pressure {
                1000
            } else {
                v * 1000 / (app.max_velocity_for_min_pressure as int)
            };
            let b = 1000 - n * app.velocity_sensitivity / 1000;
            if b < 100 {
                100
            } else {
                b
            }
        },
        None => 1000,
    };
    (app.current_pressure * (1000 - app.pressure_smoothing) + base * app.pressure_smoothing) / 1000
}

/// The changes that the first `k` corner stamps of a sub-pixel stamp record
/// (see `smooth_writes`).
pub open spec fn smooth_record(
    app: PaintApp,
    g: Grids,
    x0: int,
    y0: int,
    wx: int,
    wy: int,
    c: Rgba,
    rot: Rotation,
    k: int,
) -> Seq<CanvasChange>
    decreases k,
{
    if k <= 0 {
        Seq::empty()
    } else {
        let prev = smooth_record(app, g, x0, y0, wx, wy, c, rot, k - 1);
        let g1 = smooth_writes(app, g, x0, y0, wx, wy, c, rot, k - 1);
        let wt = corner_weight(k - 1, wx, wy);
        if wt > 0 {
            let p = corner(k - 1, x0, y0);
            prev + weighted_record(app, g1, p.0, p.1, Rgba { a: (c.a * wt / 65536) as u8, ..c }, rot)
        } else {
            prev
        }
    }
}

/// Positions in sub-pixel units: this many to a pixel.
pub const SUBPIXEL: i64 = 256;

/// The grids `g` after one stamp of `app`'s brush at `(x, y)` in colour
/// `c`, the mask sized for sub-pixel stamping: every painted cell takes `c`
/// (nothing with the eraser or where `c` has no alpha). A hidden active
/// layer is left as it is.
pub open spec fn weighted_writes(app: PaintApp, g: Grids, x: int, y: int, c: Rgba, rot: Rotation) -> Grids {
    let t = app.brush_manager.active().brush_type;
    let ms = smooth_mask_size(t, app.tool_size());
    let col = if app.current_tool == Tool::Eraser {
        None
    } else if c.a > 0 {
        Some(c)
    } else {
        None
    };
    if app.active_visible() {
        paint_writes(
            g,
            app.width(),
            app.current_state.active_layer_index as int,
            stamps_upto(t, ms, rot, x, y, col, ms, 0),
            false,
        )
    } else {
        g
    }
}

/// The changes that one such stamp records (see `weighted_writes`).
pub open spec fn weighted_record(app: PaintApp, g: Grids, x: int, y: int, c: Rgba, rot: Rotation) -> Seq<
    CanvasChange,
> {
    let t = app.brush_manager.active().brush_type;
    let ms = smooth_mask_size(t, app.tool_size());
    let col = if app.current_tool == Tool::Eraser {
        None
    } else if c.a > 0 {
        Some(c)
    } else {
        None
    };
    if app.active_visible() {
        stamp_record(
            g,
            app.width(),
            app.current_state.active_layer_index as int,
            stamps_upto(t, ms, rot, x, y, col, ms, 0),
            false,
        )
    } else {
        Seq::empty()
    }
}

/// Corner `i` of the pixel square whose top-left pixel is `(x0, y0)`:
/// top-left, top-right, bottom-left, bottom-right.
pub open spec fn corner(i: int, x0: int, y0: int) -> (int, int) {
    if i == 0 {
        (x0, y0)
    } else if i == 1 {
        (x0 + 1, y0)
    } else if i == 2 {
        (x0, y0 + 1)
    } else {
        (x0 + 1, y0 + 1)
    }
}

/// The bilinear weight of corner `i` for the fractional offsets `(wx, wy)`,
/// in 1/65536.
pub open spec fn corner_weight(i: int, wx: int, wy: int) -> int {
    if i == 0 {
        (256 - wx) * (256 - wy)
    } else if i == 1 {
        wx * (256 - wy)
    } else if i == 2 {
        (256 - wx) * wy
    } else {
        wx * wy
    }
}

/// The grids `g` after the first `k` corner stamps of a sub-pixel stamp of
/// colour `c` at `(x0 + wx/256, y0 + wy/256)`: each corner with a positive
/// weight is stamped with `c`'s alpha scaled by that weight (rounded down).
pub open spec fn smooth_writes(
    app: PaintApp,
    g: Grids,
    x0: int,
    y0: int,
    wx: int,
    wy: int,
    c: Rgba,
    rot: Rotation,
    k: int,
) -> Grids
    decreases k,
{
    if k <= 0 {
        g
    } else {
        let g1 = smooth_writes(app, g, x0, y0, wx, wy, c, rot, k - 1);
        let wt = corner_weight(k - 1, wx, wy);
        if wt > 0 {
            let p = corner(k - 1, x0, y0);
            weighted_writes(app, g1, p.0, p.1, Rgba { a: (c.a * wt / 65536) as u8, ..c }, rot)
        } else {
            g1
        }
    }
}

/// A stamp depends only on what stamping leaves alone.
pub proof fn lemma_weighted_same(a: PaintApp, b: PaintApp, g: Grids, x: int, y: int, c: Rgba, rot: Rotation)
    requires
        b == a || b.stamp_frame(&a),
    ensures
        weighted_writes(b, g, x, y, c, rot) == weighted_writes(a, g, x, y, c, rot),
        weighted_record(b, g, x, y, c, rot) == weighted_record(a, g, x, y, c, rot),
{
    if b != a {
        let k = a.current_state.active_layer_index as int;
        assert(b.current_state.layers[k].visible == a.current_state.layers[k].visible);
    }
}

pub proof fn lemma_stamp_frame_trans(a: PaintApp, b: PaintApp, c: PaintApp)
    requires
        b.stamp_frame(&a),
        c.stamp_frame(&b),
    ensures
        c.stamp_frame(&a),
{
    assert forall|k: int| 0 <= k < a.current_state.layers.len() implies (#[trigger] c.current_state.layers[k]).visible
        == a.current_state.layers[k].visible by {
        assert(b.current_state.layers[k].visible == a.current_state.layers[k].visible);
    }
}

impl PaintApp {
    /// The live size of the tool in use: the eraser's or the brush's.
    pub open spec fn tool_size(&self) -> int {
        if self.current_tool == Tool::Eraser {
            self.eraser_size as int
        } else {
            self.brush_size as int
        }
    }

    /// The colour in use: the secondary one when it is selected.
    pub open spec fn paint_color(&self) -> Rgba {
        if self.using_secondary_color {
            self.secondary_color
        } else {
            self.primary_color
        }
    }

    pub open spec fn active_visible(&self) -> bool {
        self.current_state.layers[self.current_state.active_layer_index as int].visible
    }

    /// Writes the stamps in order on the active layer, each as one recorded
    /// change of the gesture in progress (nothing where `erase`).
    pub fn apply_stamps(&mut self, stamps: &Vec<Stamp>, erase: bool)
        requires
            old(self).wf(),
        ensures
            final(self).wf(),
            final(self).same_frame(old(self)),
            final(self).undo_frames() == old(self).undo_frames(),
            final(self).redo_frames() == old(self).redo_frames(),
            old(self).tracking() ==> final(self).tracking(),
            final(self).grids() == paint_writes(
                old(self).grids(),
                old(self).width(),
                old(self).current_state.active_layer_index as int,
                stamps@,
                erase,
            ),
            final(self).current_changes@ == old(self).current_changes@ + stamp_record(
                old(self).grids(),
                old(self).width(),
                old(self).current_state.active_layer_index as int,
                stamps@,
                erase,
            ),
    {
        let ghost layer = self.current_state.active_layer_index as int;
        let mut i: usize = 0;
        while i < stamps.len()
            invariant
                i <= stamps.len(),
                self.wf(),
                self.same_frame(old(self)),
                self.undo_frames() == old(self).undo_frames(),
                self.redo_frames() == old(self).redo_frames(),
                old(self).tracking() ==> self.tracking(),
                layer == self.current_state.active_layer_index,
                self.grids() == paint_writes(
                    old(self).grids(),
                    old(self).width(),
                    layer,
                    stamps@.take(i as int),
                    erase,
                ),
                self.current_changes@ == old(self).current_changes@ + stamp_record(
                    old(self).grids(),
                    old(self).width(),
                    layer,
                    stamps@.take(i as int),
                    erase,
                ),
            decreases stamps.len() - i,
        {
            let (x, y, c) = stamps[i];
            let color = if erase {
                None
            } else {
                c
            };
            let ghost before = self.grids();
            proof {
                lemma_access(self.current_state, at_pixel(layer, x, y));
                if read(before, self.width(), at_pixel(layer, x, y)) == color {
                    lemma_put_same(before, self.width(), at_pixel(layer, x, y), color);
                }
            }
            let ghost cc = self.current_changes@;
            self.record_change(x, y, color);
            proof {
                assert(stamps@.take(i + 1).drop_last() =~= stamps@.take(i as int));
                let prev = stamp_record(old(self).grids(), old(self).width(), layer, stamps@.take(i as int), erase);
                assert(cc == old(self).current_changes@ + prev);
                if self.current_changes@ != cc {
                    assert(self.current_changes@ =~= old(self).current_changes@ + prev.push(self.current_changes@.last()));
                } else {
                    assert(self.current_changes@ =~= old(self).current_changes@ + prev);
                }
            }
            i = i + 1;
        }
        proof {
            assert(stamps@.take(stamps.len() as int) =~= stamps@);
        }
    }

    /// One stamp of the brush at `(x, y)` on the active layer, turned by
    /// `rot`, in the colour in use (nothing with the eraser), at the live
    /// size of the tool in use and the current pressure. The brush takes the
    /// tool's size first; a hidden active layer is left as it is.
    pub fn draw_point(&mut self, x: i32, y: i32, rot: Rotation)
        requires
            old(self).wf(),
            rot.wf(),
        ensures
            final(self).stamp_frame(old(self)),
            ({
                let bm = old(self).brush_manager.active();
                let size = stamp_diameter(bm, old(self).tool_size(), old(self).effective_pressure() as int);
                let stamps = stamps_upto(
                    bm.brush_type,
                    size,
                    rot,
                    x as int,
                    y as int,
                    stamp_color(old(self).paint_color(), stamp_opacity(bm, old(self).effective_pressure() as int)),
                    size,
                    0,
                );
                let a = old(self).current_state.active_layer_index as int;
                let erase = old(self).current_tool == Tool::Eraser;
                if old(self).active_visible() {
                    &&& final(self).grids() == paint_writes(old(self).grids(), old(self).width(), a, stamps, erase)
                    &&& final(self).current_changes@ == old(self).current_changes@ + stamp_record(
                        old(self).grids(),
                        old(self).width(),
                        a,
                        stamps,
                        erase,
                    )
                } else {
                    &&& final(self).current_state == old(self).current_state
                    &&& final(self).current_changes@ == old(self).current_changes@
                }
            }),
    {
        let color = if self.using_secondary_color {
            self.secondary_color
        } else {
            self.primary_color
        };
        let size = if self.current_tool == Tool::Eraser {
            self.eraser_size
        } else {
            self.brush_size
        };
        self.brush_manager.current_size = size as u32;
        if !self.current_state.layers[self.current_state.active_layer_index].visible {
            return;
        }
        let pressure = self.get_effective_pressure();
        let stamps = self.brush_manager.draw_point(x, y, color, pressure, rot);
        let erase = self.current_tool == Tool::Eraser;
        self.apply_stamps(&stamps, erase);
        self.texture_dirty = true;
    }

    /// The pressure that strokes use, in thousandths: the simulated one when
    /// simulation is on, full pressure otherwise.
    pub open spec fn effective_pressure(&self) -> u32 {
        if self.pressure_enabled {
            self.current_pressure
        } else {
            1000
        }
    }

    pub fn get_effective_pressure(&self) -> (p: u32)
        ensures
            p == self.effective_pressure(),
    {
        if self.pressure_enabled {
            self.current_pressure
        } else {
            1000
        }
    }

    /// Updates the simulated pressure from a pointer sample moving at
    /// `speed` pixels per second (`None` for the first sample of a stroke).
    /// With simulation off the pressure is pinned to full.
    pub fn update_pressure_from_velocity(&mut self, speed: Option<u64>)
        requires
            old(self).wf(),
        ensures
            final(self).wf(),
            final(self).current_pressure == (if old(self).pressure_enabled {
                next_pressure(*old(self), speed)
            } else {
                1000
            }),
            final(self).same_frame_but_pressure(old(self)),
    {
        if !self.pressure_enabled {
            self.current_pressure = 1000;
            return;
        }
        let max_v = self.max_velocity_for_min_pressure as u64;
        let base: u64 = match speed {
            Some(v) => {
                let n: u64 = if v >= max_v {
                    1000
                } else {
                    assert((v as int) * 1000 / (max_v as int) <= 1000) by (nonlinear_arith)
                        requires
                            v < max_v,
                            max_v > 0,
                    ;
                    v * 1000 / max_v
                };
                let sens = self.velocity_sensitivity as u64;
                assert(n * sens / 1000 <= 1000) by (nonlinear_arith)
                    requires
                        n <= 1000,
                        sens <= 1000,
                ;
                let b = 1000 - n * sens / 1000;
                if b < 100 {
                    100
                } else {
                    b
                }
            },
            None => 1000,
        };
        let cur = self.current_pressure as u64;
        let sm = self.pressure_smoothing as u64;
        assert(cur * (1000 - sm) + base * sm <= 1000000) by (nonlinear_arith)
            requires
                cur <= 1000,
                sm <= 1000,
                base <= 1000,
        ;
        let next = (cur * (1000 - sm) + base * sm) / 1000;
        self.current_pressure = next as u32;
    }

    /// Everything but the current pressure stays.
    pub open spec fn same_frame_but_pressure(&self, other: &PaintApp) -> bool {
        &&& self.current_state == other.current_state
        &&& self.undo_stack == other.undo_stack
        &&& self.redo_stack == other.redo_stack
        &&& self.current_changes == other.current_changes
        &&& self.gesture_start == other.gesture_start
        &&& self.saved_colors == other.saved_colors
        &&& self.brush_manager == other.brush_manager
        &&& self.pressure_enabled == other.pressure_enabled
    }
    /// What stamping leaves alone.
    pub open spec fn stamp_frame(&self, other: &PaintApp) -> bool {
        &&& self.wf()
        &&& self.undo_frames() == other.undo_frames()
        &&& self.redo_frames() == other.redo_frames()
        &&& (other.tracking() ==> self.tracking())
        &&& self.brush_manager.current_size == other.tool_size()
        &&& self.brush_manager.brushes == other.brush_manager.brushes
        &&& self.brush_manager.active_brush_index == other.brush_manager.active_brush_index
        &&& self.brush_manager.current_angle == other.brush_manager.current_angle
        &&& self.brush_manager.last_position == other.brush_manager.last_position
        &&& self.current_state.width == other.current_state.width
        &&& self.current_state.height == other.current_state.height
        &&& self.current_state.active_layer_index == other.current_state.active_layer_index
        &&& self.current_state.layers.len() == other.current_state.layers.len()
        &&& forall|k: int|
            0 <= k < other.current_state.layers.len() ==> (#[trigger] self.current_state.layers[k]).visible
                == other.current_state.layers[k].visible && self.current_state.layers[k].name
                == other.current_state.layers[k].name
        &&& self.current_tool == other.current_tool
        &&& self.brush_size == other.brush_size
        &&& self.eraser_size == other.eraser_size
        &&& self.primary_color == other.primary_color
        &&& self.secondary_color == other.secondary_color
        &&& self.using_secondary_color == other.using_secondary_color
    }

    /// One stamp at `(x, y)` in the given colour, its mask sized for
    /// sub-pixel stamping and turned by `rot` (see `weighted_writes`).
    pub fn draw_weighted_point(&mut self, x: i32, y: i32, weighted_color: Rgba, rot: Rotation)
        requires
            old(self).wf(),
            rot.wf(),
        ensures
            final(self).stamp_frame(old(self)),
            final(self).grids() == weighted_writes(*old(self), old(self).grids(), x as int, y as int, weighted_color, rot),
            final(self).current_changes@ == old(self).current_changes@ + weighted_record(
                *old(self),
                old(self).grids(),
                x as int,
                y as int,
                weighted_color,
                rot,
            ),
            !old(self).active_visible() ==> final(self).current_state == old(self).current_state,
    {
        let size = if self.current_tool == Tool::Eraser {
            self.eraser_size
        } else {
            self.brush_size
        };
        self.brush_manager.current_size = size as u32;
        if !self.current_state.layers[self.current_state.active_layer_index].visible {
            return;
        }
        let ms = self.brush_manager.smooth_mask_size();
        let col = if self.current_tool == Tool::Eraser {
            None
        } else if weighted_color.a > 0 {
            Some(weighted_color)
        } else {
            None
        };
        let stamps = self.brush_manager.stamp_mask(x, y, ms, col, rot);
        self.apply_stamps(&stamps, false);
        self.texture_dirty = true;
    }

    /// A stamp at the sub-pixel position `(fx, fy)` (in 1/256 pixel), spread
    /// over the four pixels around it with bilinear weights: each of them
    /// with a positive weight is stamped (see `draw_weighted_point`) in the
    /// primary colour (the secondary one where `use_secondary`), its alpha
    /// scaled by the weight.
    pub fn draw_smooth_point(&mut self, fx: i64, fy: i64, use_secondary: bool, rot: Rotation)
        requires
            old(self).wf(),
            rot.wf(),
            i32::MIN as i64 * SUBPIXEL <= fx < (i32::MAX as i64) * SUBPIXEL,
            i32::MIN as i64 * SUBPIXEL <= fy < (i32::MAX as i64) * SUBPIXEL,
        ensures
            final(self).stamp_frame(old(self)),
            final(self).grids() == smooth_writes(
                *old(self),
                old(self).grids(),
                (fx as int) / 256,
                (fy as int) / 256,
                (fx as int) % 256,
                (fy as int) % 256,
                if use_secondary {
                    old(self).secondary_color
                } else {
                    old(self).primary_color
                },
                rot,
                4,
            ),
            final(self).current_changes@ == old(self).current_changes@ + smooth_record(
                *old(self),
                old(self).grids(),
                (fx as int) / 256,
                (fy as int) / 256,
                (fx as int) % 256,
                (fy as int) % 256,
                if use_secondary {
                    old(self).secondary_color
                } else {
                    old(self).primary_color
                },
                rot,
                4,
            ),
    {
        let color = if use_secondary {
            self.secondary_color
        } else {
            self.primary_color
        };
        let x0: i64 = if fx >= 0 {
            fx / SUBPIXEL
        } else {
            -((-fx + SUBPIXEL - 1) / SUBPIXEL)
        };
        let y0: i64 = if fy >= 0 {
            fy / SUBPIXEL
        } else {
            -((-fy + SUBPIXEL - 1) / SUBPIXEL)
        };
        let wx = fx - x0 * SUBPIXEL;
        let wy = fy - y0 * SUBPIXEL;
        assert(x0 == (fx as int) / 256 && wx == (fx as int) % 256);
        assert(y0 == (fy as int) / 256 && wy == (fy as int) % 256);
        let mut i: usize = 0;
        while i < 4
            invariant
                i <= 4,
                rot.wf(),
                0 <= wx < 256,
                0 <= wy < 256,
                i32::MIN <= x0 < i32::MAX,
                i32::MIN <= y0 < i32::MAX,
                i == 0 ==> *self == *old(self),
                i > 0 ==> self.stamp_frame(old(self)),
                self.wf(),
                self.grids() == smooth_writes(*old(self), old(self).grids(), x0 as int, y0 as int, wx as int, wy as int, color, rot, i as int),
                self.current_changes@ == old(self).current_changes@ + smooth_record(*old(self), old(self).grids(), x0 as int, y0 as int, wx as int, wy as int, color, rot, i as int),
            decreases 4 - i,
        {
            let (px, py): (i64, i64) = if i == 0 {
                (x0, y0)
            } else if i == 1 {
                (x0 + 1, y0)
            } else if i == 2 {
                (x0, y0 + 1)
            } else {
                (x0 + 1, y0 + 1)
            };
            assert(0 <= wx * wy <= 65536 && 0 <= (SUBPIXEL - wx) * (SUBPIXEL - wy) <= 65536 && 0 <= wx * (SUBPIXEL - wy) <= 65536 && 0 <= (SUBPIXEL - wx) * wy <= 65536) by (nonlinear_arith)
                requires
                    0 <= wx < 256,
                    0 <= wy < 256,
                    SUBPIXEL == 256,
            ;
            let wt: i64 = if i == 0 {
                (SUBPIXEL - wx) * (SUBPIXEL - wy)
            } else if i == 1 {
                wx * (SUBPIXEL - wy)
            } else if i == 2 {
                (SUBPIXEL - wx) * wy
            } else {
                wx * wy
            };
            assert(0 <= wt <= 65536) by (nonlinear_arith)
                requires
                    0 <= wx < 256,
                    0 <= wy < 256,
                    wt == corner_weight(i as int, wx as int, wy as int),
            ;
            assert(i == 0 ==> wt > 0) by (nonlinear_arith)
                requires
                    0 <= wx < 256,
                    0 <= wy < 256,
                    wt == corner_weight(i as int, wx as int, wy as int),
            ;
            if wt > 0 {
                assert(color.a as i64 * wt <= 255 * 65536) by (nonlinear_arith)
                    requires
                        0 <= wt <= 65536,
                        color.a <= 255,
                ;
                let alpha = (color.a as i64 * wt / 65536) as u8;
                proof {
                    assert(color.a as i64 * wt / 65536 <= 255) by (nonlinear_arith)
                        requires
                            0 <= color.a as i64 * wt <= 255 * 65536,
                    ;
                }
                let ghost prev = *self;
                let c = color.with_alpha(alpha);
                self.draw_weighted_point(px as i32, py as i32, c, rot);
                proof {
                    lemma_weighted_same(*old(self), prev, prev.grids(), px as int, py as int, c, rot);
                    let r0 = smooth_record(*old(self), old(self).grids(), x0 as int, y0 as int, wx as int, wy as int, color, rot, i as int);
                    let wr = weighted_record(*old(self), prev.grids(), px as int, py as int, c, rot);
                    assert(self.current_changes@ =~= old(self).current_changes@ + (r0 + wr));
                    if i > 0 {
                        lemma_stamp_frame_trans(*old(self), prev, *self);
                    }
                }
            }
            i = i + 1;
        }
    }
}

} // verus!
