use vstd::prelude::*;
use crate::color::Rgba;
use crate::mask::{centre, mask_cell, mask_cell_at, generate_mask, Rotation, MAX_MASK_SIZE};

verus! {

/// Fractions (pressure, opacity, spacing, hardness, ...) are held in thousandths.
pub const PERMILLE: u32 = 1000;

/// Angles are held in milliradians; this is pi, rounded.
pub const PI_MRAD: i32 = 3142;

/// The largest live brush size (the stamp radius before pressure).
pub const MAX_BRUSH_SIZE: u32 = 1000;

/// The eight brush shapes.
#[derive(Clone, Copy, Debug, PartialEq, Eq, Structural)]
pub enum BrushType {
    Round,
    Flat,
    Bright,
    Filbert,
    Fan,
    Angle,
    Mop,
    Rigger,
}

/// How a stroke would combine with the pixels below it. Only `Normal`
/// (replacement) is performed when pixels are written; the others are kept
/// as configuration.
#[derive(Clone, Copy, Debug, PartialEq, Eq, Structural)]
pub enum BlendMode {
    Normal,
    Add,
    Multiply,
    Screen,
    Overlay,
}

/// All brush types, in their fixed order.
pub open spec fn brush_types() -> Seq<BrushType> {
    seq![
        BrushType::Round,
        BrushType::Flat,
        BrushType::Bright,
        BrushType::Filbert,
        BrushType::Fan,
        BrushType::Angle,
        BrushType::Mop,
        BrushType::Rigger,
    ]
}

/// The key under which the display layer finds a brush type's name.
pub open spec fn name_key(t: BrushType) -> Seq<char> {
    match t {
        BrushType::Round => "brush_round"@,
        BrushType::Flat => "brush_flat"@,
        BrushType::Bright => "brush_bright"@,
        BrushType::Filbert => "brush_filbert"@,
        BrushType::Fan => "brush_fan"@,
        BrushType::Angle => "brush_angle"@,
        BrushType::Mop => "brush_mop"@,
        BrushType::Rigger => "brush_rigger"@,
    }
}

impl BrushType {
    /// The text key of this brush type's display name; the display layer
    /// looks it up in the language in use.
    pub fn get_name(&self) -> (s: String)
        ensures
            s@ == name_key(*self),
    {
        match self {
            BrushType::Round => "brush_round".to_owned(),
            BrushType::Flat => "brush_flat".to_owned(),
            BrushType::Bright => "brush_bright".to_owned(),
            BrushType::Filbert => "brush_filbert".to_owned(),
            BrushType::Fan => "brush_fan".to_owned(),
            BrushType::Angle => "brush_angle".to_owned(),
            BrushType::Mop => "brush_mop".to_owned(),
            BrushType::Rigger => "brush_rigger".to_owned(),
        }
    }

    /// All brush types, in their fixed order.
    pub fn all_types() -> (v: Vec<BrushType>)
        ensures
            v@ == brush_types(),
    {
        let mut v: Vec<BrushType> = Vec::new();
        v.push(BrushType::Round);
        v.push(BrushType::Flat);
        v.push(BrushType::Bright);
        v.push(BrushType::Filbert);
        v.push(BrushType::Fan);
        v.push(BrushType::Angle);
        v.push(BrushType::Mop);
        v.push(BrushType::Rigger);
        assert(v@ =~= brush_types());
        v
    }
}

/// The settings of one brush. Fractions are in thousandths, angles in
/// milliradians.
#[derive(Clone, Copy, Debug, PartialEq, Eq, Structural)]
pub struct BrushProperties {
    pub brush_type: BrushType,
    pub size: u32,
    pub stretch_factor: u32,
    pub angle_sensitivity: u32,
    pub pressure_sensitivity: u32,
    pub blend_mode: BlendMode,
    pub spacing: u32,
    pub hardness: u32,
    pub base_rotation: i32,
    pub pressure_affects_size: bool,
    pub pressure_affects_opacity: bool,
    pub pressure_size_min: u32,
    pub pressure_opacity_min: u32,
}

/// The settings every brush starts from.
pub open spec fn default_properties() -> BrushProperties {
    BrushProperties {
        brush_type: BrushType::Round,
        size: 10,
        stretch_factor: 1000,
        angle_sensitivity: 0,
        pressure_sensitivity: 500,
        blend_mode: BlendMode::Normal,
        spacing: 50,
        hardness: 1000,
        base_rotation: 0,
        pressure_affects_size: true,
        pressure_affects_opacity: true,
        pressure_size_min: 200,
        pressure_opacity_min: 100,
    }
}

/// The settings of each brush type: shape stretch, angle sensitivity,
/// hardness, spacing and rotation, over the defaults.
pub open spec fn properties_of(t: BrushType) -> BrushProperties {
    let d = default_properties();
    match t {
        BrushType::Round => BrushProperties { brush_type: t, ..d },
        BrushType::Flat => BrushProperties {
            brush_type: t,
            stretch_factor: 4000,
            angle_sensitivity: 800,
            ..d
        },
        BrushType::Bright => BrushProperties {
            brush_type: t,
            stretch_factor: 3000,
            angle_sensitivity: 700,
            ..d
        },
        BrushType::Filbert => BrushProperties {
            brush_type: t,
            stretch_factor: 2500,
            angle_sensitivity: 600,
            hardness: 800,
            ..d
        },
        BrushType::Fan => BrushProperties {
            brush_type: t,
            stretch_factor: 3000,
            angle_sensitivity: 800,
            spacing: 80,
            ..d
        },
        BrushType::Angle => BrushProperties {
            brush_type: t,
            stretch_factor: 2000,
            angle_sensitivity: 800,
            base_rotation: (PI_MRAD / 4) as i32,
            ..d
        },
        BrushType::Mop => BrushProperties {
            brush_type: t,
            stretch_factor: 1200,
            angle_sensitivity: 100,
            hardness: 500,
            spacing: 30,
            ..d
        },
        BrushType::Rigger => BrushProperties {
            brush_type: t,
            stretch_factor: 500,
            angle_sensitivity: 200,
            spacing: 20,
            ..d
        },
    }
}

impl BrushProperties {
    /// The fractions lie in range: the pressure minimums in [0, 1], the
    /// hardness in (0, 1], the spacing above 0.
    pub open spec fn wf(&self) -> bool {
        &&& self.pressure_size_min <= PERMILLE
        &&& self.pressure_opacity_min <= PERMILLE
        &&& 0 < self.hardness <= PERMILLE
        &&& 0 < self.spacing <= PERMILLE
        &&& -2 * PI_MRAD <= self.base_rotation <= 2 * PI_MRAD
    }

    /// The settings of brush type `brush_type`.
    pub fn from_type(brush_type: BrushType) -> (p: BrushProperties)
        ensures
            p == properties_of(brush_type),
            p.wf(),
    {
        let mut p = BrushProperties::default();
        p.brush_type = brush_type;
        match brush_type {
            BrushType::Round => {
                p.stretch_factor = 1000;
                p.angle_sensitivity = 0;
                p.hardness = 1000;
                p.spacing = 50;
            },
            BrushType::Flat => {
                p.stretch_factor = 4000;
                p.angle_sensitivity = 800;
                p.hardness = 1000;
                p.spacing = 50;
            },
            BrushType::Bright => {
                p.stretch_factor = 3000;
                p.angle_sensitivity = 700;
                p.hardness = 1000;
                p.spacing = 50;
            },
            BrushType::Filbert => {
                p.stretch_factor = 2500;
                p.angle_sensitivity = 600;
                p.hardness = 800;
                p.spacing = 50;
            },
            BrushType::Fan => {
                p.stretch_factor = 3000;
                p.angle_sensitivity = 800;
                p.hardness = 1000;
                p.spacing = 80;
            },
            BrushType::Angle => {
                p.stretch_factor = 2000;
                p.angle_sensitivity = 800;
                p.base_rotation = PI_MRAD / 4;
                p.hardness = 1000;
                p.spacing = 50;
            },
            BrushType::Mop => {
                p.stretch_factor = 1200;
                p.angle_sensitivity = 100;
                p.hardness = 500;
                p.spacing = 30;
            },
            BrushType::Rigger => {
                p.stretch_factor = 500;
                p.angle_sensitivity = 200;
                p.hardness = 1000;
                p.spacing = 20;
            },
        }
        p
    }
}

impl Default for BrushProperties {
    fn default() -> (p: BrushProperties)
        ensures
            p == default_properties(),
    {
        BrushProperties {
            brush_type: BrushType::Round,
            size: 10,
            stretch_factor: 1000,
            angle_sensitivity: 0,
            pressure_sensitivity: 500,
            blend_mode: BlendMode::Normal,
            spacing: 50,
            hardness: 1000,
            base_rotation: 0,
            pressure_affects_size: true,
            pressure_affects_opacity: true,
            pressure_size_min: 200,
            pressure_opacity_min: 100,
        }
    }
}

/// One stamped pixel: its position and the colour written there.
pub type Stamp = (usize, usize, Option<Rgba>);

/// Live brush state: the eight brushes, the one in use, the smoothed stroke
/// direction (milliradians), the last stamped position and the live size.
pub struct BrushManager {
    pub brushes: Vec<BrushProperties>,
    pub active_brush_index: usize,
    pub current_angle: i32,
    pub last_position: Option<(i32, i32)>,
    pub current_size: u32,
}

/// `a / 5`, rounded towards zero.
pub open spec fn fifth(a: int) -> int {
    if a >= 0 {
        a / 5
    } else {
        -((-a) / 5)
    }
}

/// The signed turn from one direction to another, brought into [-pi, pi]
/// by one full turn where it lies outside.
pub open spec fn wrap_turn(d: int) -> int {
    if d > PI_MRAD {
        d - 2 * PI_MRAD
    } else if d < -PI_MRAD {
        d + 2 * PI_MRAD
    } else {
        d
    }
}

/// The smoothed direction after moving along `heading`: a fifth of the way
/// along the shortest turn.
pub open spec fn smoothed_angle(current: int, heading: int) -> int {
    current + fifth(wrap_turn(heading - current))
}

/// The stamp size factor for a pressure, in millionths: from the brush's
/// minimum at no pressure to 1 at full pressure.
pub open spec fn size_factor(p: BrushProperties, pressure: int) -> int {
    1000 * p.pressure_size_min + (1000 - p.pressure_size_min) * pressure
}

pub open spec fn clamp_pressure(pressure: int) -> int {
    if pressure > 1000 {
        1000
    } else {
        pressure
    }
}

/// The side of the stamp: twice the effective radius plus one, so odd and
/// at least 3. The radius is the live size, scaled by pressure where the
/// brush lets pressure drive its size (rounded), and at least 1.
pub open spec fn stamp_diameter(p: BrushProperties, current_size: int, pressure: int) -> int {
    if p.pressure_affects_size {
        let r = (current_size * size_factor(p, clamp_pressure(pressure)) + 500000) / 1000000;
        2 * (if r < 1 {
            1
        } else {
            r
        }) + 1
    } else {
        2 * (if current_size < 1 {
            1
        } else {
            current_size
        }) + 1
    }
}

/// The mask side used when stamping at sub-pixel positions: about twice
/// the live size (1.5 times for the rigger, 2.5 times for the mop), at
/// least 7 (5, 9), made odd.
pub open spec fn smooth_mask_size(t: BrushType, s: int) -> int {
    let base = match t {
        BrushType::Rigger => if 3 * s / 2 < 5 {
            5
        } else {
            3 * s / 2
        },
        BrushType::Mop => if 5 * s / 2 < 9 {
            9
        } else {
            5 * s / 2
        },
        _ => if 2 * s < 7 {
            7
        } else {
            2 * s
        },
    };
    if base % 2 == 0 {
        base + 1
    } else {
        base
    }
}

/// The stamp opacity for a pressure, in millionths.
pub open spec fn stamp_opacity(p: BrushProperties, pressure: int) -> int {
    if p.pressure_affects_opacity {
        1000 * p.pressure_opacity_min + (1000 - p.pressure_opacity_min) * clamp_pressure(pressure)
    } else {
        1000000
    }
}

/// What a stamp writes: the colour with its alpha scaled by the opacity
/// (rounded down), or nothing where that alpha is zero.
pub open spec fn stamp_color(color: Rgba, opacity: int) -> Option<Rgba> {
    let a = (color.a * opacity) / 1000000;
    if a > 0 {
        Some(Rgba { a: a as u8, ..color })
    } else {
        None
    }
}

/// The stamp written at mask cell `(cx, cy)` for a mask centred on `(x, y)`:
/// one where the cell is painted and lands at non-negative coordinates.
pub open spec fn stamp_at(
    t: BrushType,
    size: int,
    rot: Rotation,
    x: int,
    y: int,
    col: Option<Rgba>,
    cx: int,
    cy: int,
) -> Seq<Stamp> {
    let nx = x + cx - centre(size);
    let ny = y + cy - centre(size);
    if mask_cell(t, size, rot, cx, cy) && nx >= 0 && ny >= 0 {
        seq![(nx as usize, ny as usize, col)]
    } else {
        Seq::empty()
    }
}

/// The stamps of the mask cells in the rows above `row`, then those of row
/// `row` left of column `col_end`, in row-major order.
pub open spec fn stamps_upto(
    t: BrushType,
    size: int,
    rot: Rotation,
    x: int,
    y: int,
    col: Option<Rgba>,
    row: int,
    col_end: int,
) -> Seq<Stamp>
    decreases row, col_end,
{
    if col_end <= 0 {
        if row <= 0 {
            Seq::empty()
        } else {
            stamps_upto(t, size, rot, x, y, col, row - 1, size)
        }
    } else {
        stamps_upto(t, size, rot, x, y, col, row, col_end - 1) + stamp_at(
            t,
            size,
            rot,
            x,
            y,
            col,
            col_end - 1,
            row,
        )
    }
}

/// The squared length of a step of at most one pixel along each axis.
pub open spec fn step_len(a: int, b: int) -> int {
    (if a != 0 {
        1int
    } else {
        0int
    }) + (if b != 0 {
        1int
    } else {
        0int
    })
}

pub open spec fn dist(x: int, y: int, x1: int, y1: int) -> int {
    crate::mask::abs(x1 - x) + crate::mask::abs(y1 - y)
}

/// The stamp centres that the integer line walk emits after position
/// `(x, y)` on its way to `(x1, y1)`. Each step moves one pixel along one or
/// both axes as the error term `err` decides (`dx = |x1 - x0|`,
/// `dy = -|y1 - y0|`, `sx`/`sy` the directions); the squared step lengths
/// add up in `acc`, and a position is emitted, and `acc` cleared, once
/// `1000 * acc` reaches the threshold `thr`.
pub open spec fn line_walk(
    x: int,
    y: int,
    x1: int,
    y1: int,
    dx: int,
    dy: int,
    sx: int,
    sy: int,
    err: int,
    acc: int,
    thr: int,
) -> Seq<(i32, i32)>
    decreases dist(x, y, x1, y1),
{
    let e2 = 2 * err;
    if e2 >= dy && x == x1 {
        Seq::empty()
    } else {
        let nx = if e2 >= dy {
            x + sx
        } else {
            x
        };
        let err2 = if e2 >= dy {
            err + dy
        } else {
            err
        };
        if e2 <= dx && y == y1 {
            Seq::empty()
        } else {
            let ny = if e2 <= dx {
                y + sy
            } else {
                y
            };
            let err3 = if e2 <= dx {
                err2 + dx
            } else {
                err2
            };
            let acc2 = acc + step_len(nx - x, ny - y);
            if dist(nx, ny, x1, y1) < dist(x, y, x1, y1) {
                if 1000 * acc2 >= thr {
                    seq![(nx as i32, ny as i32)] + line_walk(
                        nx,
                        ny,
                        x1,
                        y1,
                        dx,
                        dy,
                        sx,
                        sy,
                        err3,
                        0,
                        thr,
                    )
                } else {
                    line_walk(nx, ny, x1, y1, dx, dy, sx, sy, err3, acc2, thr)
                }
            } else {
                Seq::empty()
            }
        }
    }
}

/// The stamp centres of a line from `(x0, y0)` to `(x1, y1)`: the start,
/// the positions the walk emits, and the end where the walk did not emit it.
pub open spec fn line_points(x0: int, y0: int, x1: int, y1: int, thr: int) -> Seq<(i32, i32)> {
    let dx = crate::mask::abs(x1 - x0);
    let dy = -crate::mask::abs(y1 - y0);
    let sx = if x0 < x1 {
        1int
    } else {
        -1int
    };
    let sy = if y0 < y1 {
        1int
    } else {
        -1int
    };
    let s = seq![(x0 as i32, y0 as i32)] + line_walk(x0, y0, x1, y1, dx, dy, sx, sy, dx + dy, 0, thr);
    if s.last() == (x1 as i32, y1 as i32) {
        s
    } else {
        s.push((x1 as i32, y1 as i32))
    }
}

pub open spec fn between(a: int, lo_or_hi: int, b: int, dir: int) -> bool {
    if dir == 1 {
        lo_or_hi <= a <= b
    } else {
        b <= a <= lo_or_hi
    }
}

/// The sample spacing of a smooth line, in 1/10000 pixel: the brush's
/// spacing times the live size (at least 0.1 pixel), scaled by a factor for
/// the brush type (0.2 for flat and bright, 0.1 for the rigger, 0.6 for the
/// fan, 0.3 otherwise).
pub open spec fn smooth_spacing(p: BrushProperties, size: int) -> int {
    let base = p.spacing * size;
    let f = match p.brush_type {
        BrushType::Flat | BrushType::Bright => 2int,
        BrushType::Rigger => 1int,
        BrushType::Fan => 6int,
        _ => 3int,
    };
    f * (if base < 1000 {
        1000
    } else {
        base as int
    })
}

/// The number of steps of a smooth line of squared length `d2` (pixels):
/// the least `n` whose `n` spacings `sp` (1/10000 pixel) reach its length.
pub open spec fn is_step_count(n: int, sp: int, d2: int) -> bool {
    &&& n >= 0
    &&& (n * sp) * (n * sp) >= 100000000 * d2
    &&& n > 0 ==> ((n - 1) * sp) * ((n - 1) * sp) < 100000000 * d2
}

/// `a / b` rounded down.
pub open spec fn floor_div(a: int, b: int) -> int {
    a / b
}

/// Sample `i` of `n` along the segment from `(x0, y0)` by `(dx, dy)`, in
/// 1/256 pixel, rounded down.
pub open spec fn smooth_sample(x0: int, y0: int, dx: int, dy: int, i: int, n: int) -> (i64, i64) {
    ((256 * x0 + floor_div(256 * dx * i, n)) as i64, (256 * y0 + floor_div(256 * dy * i, n)) as i64)
}

/// The least `r` with `r * r >= x`.
fn ceil_sqrt(x: u128) -> (r: u128)
    requires
        x <= 0x1_0000_0000_0000_0000_0000_0000,
    ensures
        r * r >= x,
        r == 0 || (r - 1) * (r - 1) < x,
        r <= 0x1_0000_0000_0000,
{
    let mut lo: u128 = 0;
    let mut hi: u128 = 0x1_0000_0000_0000;
    assert(hi * hi >= x) by (nonlinear_arith)
        requires
            hi == 0x1_0000_0000_0000u128,
            x <= 0x1_0000_0000_0000_0000_0000_0000u128,
    ;
    while lo < hi
        invariant
            lo <= hi <= 0x1_0000_0000_0000,
            hi * hi >= x,
            lo == 0 || (lo - 1) * (lo - 1) < x,
        decreases hi - lo,
    {
        let mid = lo + (hi - lo) / 2;
        assert(mid * mid <= 0x1_0000_0000_0000_0000_0000_0000u128) by (nonlinear_arith)
            requires
                mid <= 0x1_0000_0000_0000u128,
        ;
        if mid * mid >= x {
            hi = mid;
        } else {
            lo = mid + 1;
        }
    }
    lo
}

fn floor_div128(a: i128, b: i128) -> (q: i128)
    requires
        0 < b <= 0x1_0000_0000_0000_0000,
        -0x1000_0000_0000_0000_0000_0000_0000 <= a <= 0x1000_0000_0000_0000_0000_0000_0000,
    ensures
        q == floor_div(a as int, b as int),
{
    if a >= 0 {
        a / b
    } else {
        let m = -a + b - 1;
        let q = m / b;
        proof {
            let r = (m as int) % (b as int);
            vstd::arithmetic::div_mod::lemma_fundamental_div_mod(m as int, b as int);
            assert(a == (-q) * b + (b - 1 - r)) by (nonlinear_arith)
                requires
                    m == b * q + r,
                    m == -a + b - 1,
            ;
            vstd::arithmetic::div_mod::lemma_fundamental_div_mod_converse(
                a as int,
                b as int,
                -q,
                b - 1 - r,
            );
        }
        -q
    }
}

impl BrushManager {
    pub open spec fn wf(&self) -> bool {
        &&& self.brushes.len() == 8
        &&& self.active_brush_index < 8
        &&& forall|i: int| 0 <= i < 8 ==> (#[trigger] self.brushes[i]).wf()
        &&& -3 * PI_MRAD <= self.current_angle <= 3 * PI_MRAD
        &&& self.current_size <= MAX_BRUSH_SIZE
    }

    pub open spec fn active(&self) -> BrushProperties {
        self.brushes[self.active_brush_index as int]
    }

    /// The eight brushes with their type's settings, the round one in use,
    /// no direction yet, live size 3.
    pub fn new() -> (m: BrushManager)
        ensures
            m.wf(),
            m.brushes@ == brush_types().map_values(|t: BrushType| properties_of(t)),
            m.active_brush_index == 0,
            m.current_angle == 0,
            m.last_position.is_none(),
            m.current_size == 3,
    {
        let types = BrushType::all_types();
        let mut brushes: Vec<BrushProperties> = Vec::new();
        let mut i: usize = 0;
        while i < types.len()
            invariant
                types@ == brush_types(),
                i <= types.len(),
                brushes@ == types@.take(i as int).map_values(|t: BrushType| properties_of(t)),
            decreases types.len() - i,
        {
            brushes.push(BrushProperties::from_type(types[i]));
            i = i + 1;
            assert(brushes@ =~= types@.take(i as int).map_values(|t: BrushType| properties_of(t)));
        }
        assert(types@.take(8) =~= types@);
        let m = BrushManager {
            brushes,
            active_brush_index: 0,
            current_angle: 0,
            last_position: None,
            current_size: 3,
        };
        assert forall|i: int| 0 <= i < 8 implies (#[trigger] m.brushes[i]).wf() by {
            assert(m.brushes[i] == properties_of(brush_types()[i]));
        }
        m
    }

    /// The settings of the brush in use.
    pub fn active_brush(&self) -> (p: &BrushProperties)
        requires
            self.wf(),
        ensures
            *p == self.active(),
    {
        &self.brushes[self.active_brush_index]
    }

    /// The settings of the brush in use, for editing in place.
    pub fn active_brush_mut(&mut self) -> (p: &mut BrushProperties)
        requires
            old(self).wf(),
        ensures
            *p == old(self).active(),
            final(self).brushes@ == old(self).brushes@.update(
                old(self).active_brush_index as int,
                *final(p),
            ),
            final(self).active_brush_index == old(self).active_brush_index,
            final(self).current_angle == old(self).current_angle,
            final(self).last_position == old(self).last_position,
            final(self).current_size == old(self).current_size,
    {
        &mut self.brushes[self.active_brush_index]
    }

    /// Follows the pointer to `(x, y)`. Where a previous position is known
    /// and differs, the smoothed direction turns a fifth of the way towards
    /// `heading`, the direction of the move (`atan2(dy, dx)` in
    /// milliradians); the position is then remembered.
    pub fn update_angle(&mut self, x: i32, y: i32, heading: i32)
        requires
            old(self).wf(),
            -PI_MRAD <= heading <= PI_MRAD,
        ensures
            final(self).wf(),
            final(self).brushes == old(self).brushes,
            final(self).active_brush_index == old(self).active_brush_index,
            final(self).current_size == old(self).current_size,
            final(self).last_position == Some((x, y)),
            final(self).current_angle == (match old(self).last_position {
                Some(prev) => if prev != (x, y) {
                    smoothed_angle(old(self).current_angle as int, heading as int)
                } else {
                    old(self).current_angle as int
                },
                None => old(self).current_angle as int,
            }),
    {
        if let Some((px, py)) = self.last_position {
            if px != x || py != y {
                let diff = heading - self.current_angle;
                let turn = if diff > PI_MRAD {
                    diff - 2 * PI_MRAD
                } else if diff < -PI_MRAD {
                    diff + 2 * PI_MRAD
                } else {
                    diff
                };
                self.current_angle = self.current_angle + turn / 5;
            }
        }
        self.last_position = Some((x, y));
    }

    /// Forgets the last position: the next stroke starts without a direction.
    pub fn end_stroke(&mut self)
        requires
            old(self).wf(),
        ensures
            final(self).wf(),
            final(self).last_position.is_none(),
            final(self).brushes == old(self).brushes,
            final(self).active_brush_index == old(self).active_brush_index,
            final(self).current_angle == old(self).current_angle,
            final(self).current_size == old(self).current_size,
    {
        self.last_position = None;
    }

    /// The move from the last position to `(x, y)`, if one is known and differs.
    pub fn movement(&self, x: i32, y: i32) -> (d: Option<(i64, i64)>)
        ensures
            d == (match self.last_position {
                Some(prev) => if prev != (x, y) {
                    Some(((x - prev.0) as i64, (y - prev.1) as i64))
                } else {
                    None
                },
                None => None,
            }),
    {
        match self.last_position {
            Some((px, py)) => if px != x || py != y {
                Some((x as i64 - px as i64, y as i64 - py as i64))
            } else {
                None
            },
            None => None,
        }
    }

    /// The direction the shape is turned to: the smoothed stroke direction
    /// plus the brush's own rotation, in milliradians.
    pub fn effective_angle(&self) -> (a: i32)
        requires
            self.wf(),
        ensures
            a == self.current_angle + self.active().base_rotation,
    {
        self.current_angle + self.brushes[self.active_brush_index].base_rotation
    }

    /// The side of the stamp for a pressure in thousandths (above 1000
    /// counts as 1000).
    pub fn stamp_size(&self, pressure: u32) -> (d: usize)
        requires
            self.wf(),
        ensures
            d == stamp_diameter(self.active(), self.current_size as int, pressure as int),
            3 <= d <= MAX_MASK_SIZE,
            d % 2 == 1,
    {
        let b = self.brushes[self.active_brush_index];
        let p: u64 = if pressure > 1000 {
            1000
        } else {
            pressure as u64
        };
        if b.pressure_affects_size {
            let min = b.pressure_size_min as u64;
            assert(self.brushes[self.active_brush_index as int].wf());
            assert(1000 * min + (1000 - min) * p <= 1000000) by (nonlinear_arith)
                requires
                    min <= 1000,
                    p <= 1000,
            ;
            let factor = 1000 * min + (1000 - min) * p;
            let cs = self.current_size as u64;
            assert(cs * factor <= 1000000000) by (nonlinear_arith)
                requires
                    cs <= 1000,
                    factor <= 1000000,
            ;
            let r = (cs * factor + 500000) / 1000000;
            let r = if r < 1 {
                1
            } else {
                r
            };
            (2 * r + 1) as usize
        } else {
            let r = if self.current_size < 1 {
                1
            } else {
                self.current_size
            };
            (2 * r + 1) as usize
        }
    }

    /// The mask side for stamps at sub-pixel positions (see `smooth_mask_size`).
    pub fn smooth_mask_size(&self) -> (d: usize)
        requires
            self.wf(),
        ensures
            d == smooth_mask_size(self.active().brush_type, self.current_size as int),
            1 <= d <= MAX_MASK_SIZE,
    {
        let s = self.current_size as usize;
        let base = match self.brushes[self.active_brush_index].brush_type {
            BrushType::Rigger => if 3 * s / 2 < 5 {
                5
            } else {
                3 * s / 2
            },
            BrushType::Mop => if 5 * s / 2 < 9 {
                9
            } else {
                5 * s / 2
            },
            _ => if 2 * s < 7 {
                7
            } else {
                2 * s
            },
        };
        if base % 2 == 0 {
            base + 1
        } else {
            base
        }
    }

    /// The stamp opacity for a pressure, in millionths.
    pub fn stamp_opacity(&self, pressure: u32) -> (o: u64)
        requires
            self.wf(),
        ensures
            o == stamp_opacity(self.active(), pressure as int),
            o <= 1000000,
    {
        let b = self.brushes[self.active_brush_index];
        if b.pressure_affects_opacity {
            let p: u64 = if pressure > 1000 {
                1000
            } else {
                pressure as u64
            };
            let min = b.pressure_opacity_min as u64;
            assert(self.brushes[self.active_brush_index as int].wf());
            assert(1000 * min + (1000 - min) * p <= 1000000) by (nonlinear_arith)
                requires
                    min <= 1000,
                    p <= 1000,
            ;
            let o = 1000 * min + (1000 - min) * p;
            o
        } else {
            1000000
        }
    }

    /// The mask of the brush in use, `size` cells wide, turned by `rot`.
    pub fn generate_brush_mask(&self, size: usize, rot: Rotation) -> (mask: Vec<bool>)
        requires
            self.wf(),
            1 <= size <= MAX_MASK_SIZE,
            rot.wf(),
        ensures
            mask@.len() == size * size,
            forall|x: int, y: int|
                0 <= x < size && 0 <= y < size ==> #[trigger] mask@[y * size + x] == mask_cell(
                    self.active().brush_type,
                    size as int,
                    rot,
                    x,
                    y,
                ),
    {
        generate_mask(self.brushes[self.active_brush_index].brush_type, size, rot)
    }

    /// One stamp of the brush in use centred on `(x, y)`: for each painted
    /// mask cell landing at non-negative coordinates, in row-major order,
    /// the pixel and the colour to write there. The stamp's side and opacity
    /// follow the pressure (thousandths); the shape is turned by `rot`.
    pub fn draw_point(&self, x: i32, y: i32, color: Rgba, pressure: u32, rot: Rotation) -> (s: Vec<
        Stamp,
    >)
        requires
            self.wf(),
            rot.wf(),
        ensures
            ({
                let size = stamp_diameter(self.active(), self.current_size as int, pressure as int);
                s@ == stamps_upto(
                    self.active().brush_type,
                    size,
                    rot,
                    x as int,
                    y as int,
                    stamp_color(color, stamp_opacity(self.active(), pressure as int)),
                    size,
                    0,
                )
            }),
    {
        let size = self.stamp_size(pressure);
        let opacity = self.stamp_opacity(pressure);
        assert(color.a as u64 * opacity <= 255000000) by (nonlinear_arith)
            requires
                opacity <= 1000000,
                color.a <= 255,
        ;
        let a64 = color.a as u64 * opacity;
        let alpha = a64 / 1000000;
        let col = if alpha > 0 {
            Some(color.with_alpha(alpha as u8))
        } else {
            None
        };
        assert(col == stamp_color(color, stamp_opacity(self.active(), pressure as int)));
        self.stamp_mask(x, y, size, col, rot)
    }

    /// The stamps of the brush in use for a mask `size` cells wide centred
    /// on `(x, y)`, every painted cell writing `col`: one per painted cell
    /// landing at non-negative coordinates, in row-major order.
    pub fn stamp_mask(&self, x: i32, y: i32, size: usize, col: Option<Rgba>, rot: Rotation) -> (s: Vec<Stamp>)
        requires
            self.wf(),
            1 <= size <= MAX_MASK_SIZE,
            rot.wf(),
        ensures
            s@ == stamps_upto(self.active().brush_type, size as int, rot, x as int, y as int, col, size as int, 0),
    {
        let t = self.brushes[self.active_brush_index].brush_type;
        let c = ((size - 1) / 2) as i64;
        let mut out: Vec<Stamp> = Vec::new();
        let mut cy: usize = 0;
        while cy < size
            invariant
                1 <= size <= MAX_MASK_SIZE,
                rot.wf(),
                cy <= size,
                c == centre(size as int),
                out@ == stamps_upto(t, size as int, rot, x as int, y as int, col, cy as int, 0),
            decreases size - cy,
        {
            let mut cx: usize = 0;
            while cx < size
                invariant
                    1 <= size <= MAX_MASK_SIZE,
                    rot.wf(),
                    cy < size,
                    cx <= size,
                    c == centre(size as int),
                    out@ == stamps_upto(t, size as int, rot, x as int, y as int, col, cy as int, cx as int),
                decreases size - cx,
            {
                let inside = mask_cell_at(t, size, rot, cx, cy);
                let nx = x as i64 + cx as i64 - c;
                let ny = y as i64 + cy as i64 - c;
                if inside && nx >= 0 && ny >= 0 {
                    out.push((nx as usize, ny as usize, col));
                }
                proof {
                    let e = stamp_at(t, size as int, rot, x as int, y as int, col, cx as int, cy as int);
                    assert(out@ =~= stamps_upto(t, size as int, rot, x as int, y as int, col, cy as int, cx as int) + e);
                }
                cx = cx + 1;
            }
            cy = cy + 1;
        }
        out
    }

    /// The stamp spacing threshold in thousandths of a pixel: the brush's
    /// spacing times the live size, at least one pixel.
    pub open spec fn spacing_threshold(&self) -> int {
        let t = self.active().spacing * self.current_size;
        if t < 1000 {
            1000
        } else {
            t as int
        }
    }
    /// The centres at which a line from `start` to `end` is stamped: an
    /// integer walk from one end to the other, keeping a position each time
    /// the squared step lengths since the last kept one reach the spacing
    /// (the brush's spacing times the live size, at least one pixel), and
    /// always the first and the last position.
    pub fn draw_line(&self, start: (i32, i32), end: (i32, i32)) -> (pts: Vec<(i32, i32)>)
        requires
            self.wf(),
        ensures
            pts@ == line_points(
                start.0 as int,
                start.1 as int,
                end.0 as int,
                end.1 as int,
                self.spacing_threshold(),
            ),
    {
        let x0 = start.0 as i64;
        let y0 = start.1 as i64;
        let x1 = end.0 as i64;
        let y1 = end.1 as i64;
        let dx: i64 = if x1 >= x0 {
            x1 - x0
        } else {
            x0 - x1
        };
        let dy: i64 = if y1 >= y0 {
            -(y1 - y0)
        } else {
            -(y0 - y1)
        };
        let sx: i64 = if x0 < x1 {
            1
        } else {
            -1
        };
        let sy: i64 = if y0 < y1 {
            1
        } else {
            -1
        };
        let b = self.brushes[self.active_brush_index];
        assert(self.brushes[self.active_brush_index as int].wf());
        assert(b.spacing as u64 * self.current_size as u64 <= 1000000) by (nonlinear_arith)
            requires
                b.spacing <= 1000,
                self.current_size <= 1000,
        ;
        let t = b.spacing as u64 * self.current_size as u64;
        let thr: i64 = if t < 1000 {
            1000
        } else {
            t as i64
        };
        assert(thr == self.spacing_threshold());
        let mut err: i64 = dx + dy;
        let mut x: i64 = x0;
        let mut y: i64 = y0;
        let mut acc: i64 = 0;
        let mut pts: Vec<(i32, i32)> = Vec::new();
        pts.push(start);
        let ghost whole = seq![(x0 as i32, y0 as i32)] + line_walk(
            x0 as int,
            y0 as int,
            x1 as int,
            y1 as int,
            dx as int,
            dy as int,
            sx as int,
            sy as int,
            (dx + dy) as int,
            0,
            thr as int,
        );
        let mut done = false;
        while !done
            invariant
                dx == crate::mask::abs(x1 - x0),
                dy == -crate::mask::abs(y1 - y0),
                sx == (if x0 < x1 { 1int } else { -1int }),
                sy == (if y0 < y1 { 1int } else { -1int }),
                between(x as int, x0 as int, x1 as int, sx as int),
                between(y as int, y0 as int, y1 as int, sy as int),
                -2147483648 <= x0 <= 2147483647,
                -2147483648 <= x1 <= 2147483647,
                -2147483648 <= y0 <= 2147483647,
                -2147483648 <= y1 <= 2147483647,
                2 * dy <= err <= 2 * dx,
                1000 <= thr <= 1000000,
                0 <= acc,
                1000 * acc < thr,
                pts@.len() >= 1,
                whole == pts@ + (if done {
                    Seq::empty()
                } else {
                    line_walk(
                        x as int,
                        y as int,
                        x1 as int,
                        y1 as int,
                        dx as int,
                        dy as int,
                        sx as int,
                        sy as int,
                        err as int,
                        acc as int,
                        thr as int,
                    )
                }),
            decreases (if done {
                0int
            } else {
                1 + dist(x as int, y as int, x1 as int, y1 as int)
            }),
        {
            let ox = x;
            let oy = y;
            let e2 = 2 * err;
            if e2 >= dy && x == x1 {
                done = true;
            } else {
                let mut nerr = err;
                if e2 >= dy {
                    nerr = nerr + dy;
                    x = x + sx;
                }
                if e2 <= dx && y == y1 {
                    x = ox;
                    done = true;
                } else {
                    if e2 <= dx {
                        nerr = nerr + dx;
                        y = y + sy;
                    }
                    err = nerr;
                    let seg: i64 = (if x != ox {
                        1
                    } else {
                        0
                    }) + (if y != oy {
                        1
                    } else {
                        0
                    });
                    acc = acc + seg;
                    if acc * 1000 >= thr {
                        pts.push((x as i32, y as i32));
                        acc = 0;
                    }
                }
            }
        }
        let last = pts[pts.len() - 1];
        if last.0 != end.0 || last.1 != end.1 {
            pts.push(end);
        }
        pts
    }
    /// The sub-pixel sample positions (1/256 pixel) of a smooth line from
    /// `start` to `end`: the segment cut into the least number `n` of equal
    /// steps no longer than the smooth spacing (see `smooth_spacing`), and
    /// its `n + 1` step ends, rounded down. `None` for a segment shorter than
    /// a pixel, which is stamped as a single point instead.
    pub fn smooth_line_points(&self, start: (i32, i32), end: (i32, i32)) -> (r: Option<Vec<(i64, i64)>>)
        requires
            self.wf(),
        ensures
            ({
                let dx = end.0 as int - start.0 as int;
                let dy = end.1 as int - start.1 as int;
                match r {
                    None => dx == 0 && dy == 0,
                    Some(v) => {
                        &&& !(dx == 0 && dy == 0)
                        &&& is_step_count(
                            v@.len() - 1,
                            smooth_spacing(self.active(), self.current_size as int),
                            dx * dx + dy * dy,
                        )
                        &&& forall|i: int|
                            0 <= i < v@.len() ==> #[trigger] v@[i] == smooth_sample(
                                start.0 as int,
                                start.1 as int,
                                dx,
                                dy,
                                i,
                                v@.len() - 1,
                            )
                    },
                }
            }),
    {
        let dx = end.0 as i64 - start.0 as i64;
        let dy = end.1 as i64 - start.1 as i64;
        if dx == 0 && dy == 0 {
            return None;
        }
        let b = self.brushes[self.active_brush_index];
        assert(self.brushes[self.active_brush_index as int].wf());
        assert(b.spacing as u64 * self.current_size as u64 <= 1000000) by (nonlinear_arith)
            requires
                b.spacing <= 1000,
                self.current_size <= 1000,
        ;
        let base = b.spacing as u64 * self.current_size as u64;
        let f: u64 = match b.brush_type {
            BrushType::Flat | BrushType::Bright => 2,
            BrushType::Rigger => 1,
            BrushType::Fan => 6,
            _ => 3,
        };
        let sp: u128 = (f * (if base < 1000 {
            1000
        } else {
            base
        })) as u128;
        assert(dx * dx <= 0x1_0000_0000_0000_0000 && dy * dy <= 0x1_0000_0000_0000_0000) by (nonlinear_arith)
            requires
                -0x1_0000_0000 <= dx <= 0x1_0000_0000,
                -0x1_0000_0000 <= dy <= 0x1_0000_0000,
        ;
        let dxw = dx as i128;
        let dyw = dy as i128;
        assert(dxw * dxw <= 0x1_0000_0000_0000_0000 && dyw * dyw <= 0x1_0000_0000_0000_0000 && dxw * dxw >= 0 && dyw * dyw >= 0) by (nonlinear_arith)
            requires
                -0x1_0000_0000 <= dxw <= 0x1_0000_0000,
                -0x1_0000_0000 <= dyw <= 0x1_0000_0000,
        ;
        let d2: u128 = (dxw * dxw + dyw * dyw) as u128;
        assert(d2 >= 1) by (nonlinear_arith)
            requires
                d2 == dx * dx + dy * dy,
                !(dx == 0 && dy == 0),
        ;
        let x = 100000000u128 * d2;
        let root = ceil_sqrt(x);
        // the least n with n * sp >= root
        let n: u128 = (root + sp - 1) / sp;
        proof {
            assert(n * sp >= root && (n == 0 || (n - 1) * sp < root)) by (nonlinear_arith)
                requires
                    n as int == (root as int + sp as int - 1) / (sp as int),
                    sp > 0,
            ;
            assert((n * sp) * (n * sp) >= x) by (nonlinear_arith)
                requires
                    n * sp >= root,
                    root * root >= x,
            ;
            if n > 0 {
                assert(((n - 1) * sp) * ((n - 1) * sp) < x) by (nonlinear_arith)
                    requires
                        (n - 1) * sp < root,
                        root == 0 || (root - 1) * (root - 1) < x,
                        n > 0,
                        sp > 0,
                ;
            }
        }
        assert(n >= 1) by (nonlinear_arith)
            requires
                (n * sp) * (n * sp) >= x,
                x >= 100000000,
        ;
        assert(n <= root) by (nonlinear_arith)
            requires
                n as int == (root as int + sp as int - 1) / (sp as int),
                sp >= 1000,
        ;
        let mut v: Vec<(i64, i64)> = Vec::new();
        let mut i: u128 = 0;
        while i <= n
            invariant
                1 <= n <= 0x1_0000_0000_0000,
                i <= n + 1,
                -0x1_0000_0000 <= dx <= 0x1_0000_0000,
                -0x1_0000_0000 <= dy <= 0x1_0000_0000,
                v@.len() == i,
                forall|k: int|
                    0 <= k < i ==> #[trigger] v@[k] == smooth_sample(
                        start.0 as int,
                        start.1 as int,
                        dx as int,
                        dy as int,
                        k,
                        n as int,
                    ),
            decreases n + 1 - i,
        {
            assert(-0x1_0000_0000_0000_0000_0000_0000 <= 256 * dx * i <= 0x1_0000_0000_0000_0000_0000_0000
                && -0x1_0000_0000_0000_0000_0000_0000 <= 256 * dy * i <= 0x1_0000_0000_0000_0000_0000_0000)
                by (nonlinear_arith)
                requires
                    -0x1_0000_0000 <= dx <= 0x1_0000_0000,
                    -0x1_0000_0000 <= dy <= 0x1_0000_0000,
                    0 <= i <= 0x1_0000_0000_0000,
            ;
            let ox = floor_div128(256 * dx as i128 * i as i128, n as i128);
            let oy = floor_div128(256 * dy as i128 * i as i128, n as i128);
            proof {
                assert(floor_div(256 * dx * i, n as int) == (256 * dx * i) / (n as int));
                assert(-256 * 0x1_0000_0000 <= ox <= 256 * 0x1_0000_0000 && -256 * 0x1_0000_0000 <= oy <= 256 * 0x1_0000_0000) by (nonlinear_arith)
                    requires
                        ox == (256 * dx * i) / (n as int),
                        oy == (256 * dy * i) / (n as int),
                        -0x1_0000_0000 <= dx <= 0x1_0000_0000,
                        -0x1_0000_0000 <= dy <= 0x1_0000_0000,
                        0 <= i <= n,
                        n >= 1,
                ;
            }
            let px = 256 * start.0 as i64 + ox as i64;
            let py = 256 * start.1 as i64 + oy as i64;
            v.push((px, py));
            i = i + 1;
        }
        Some(v)
    }
}

} // verus!
