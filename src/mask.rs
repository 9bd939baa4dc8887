use vstd::prelude::*;
use crate::brush::BrushType;

verus! {

/// Rotations are held as a cosine and a sine scaled by this factor.
pub const ROT_ONE: i64 = 4096;

/// The largest mask side, in cells.
pub const MAX_MASK_SIZE: usize = 4001;

/// A rotation of the brush shape, as its cosine and sine times `ROT_ONE`.
#[derive(Clone, Copy, Debug, PartialEq, Eq, Structural)]
pub struct Rotation {
    pub cos: i64,
    pub sin: i64,
}

impl Rotation {
    pub open spec fn wf(&self) -> bool {
        &&& -ROT_ONE <= self.cos <= ROT_ONE
        &&& -ROT_ONE <= self.sin <= ROT_ONE
    }

    /// No rotation.
    pub fn identity() -> (r: Rotation)
        ensures
            r == (Rotation { cos: ROT_ONE, sin: 0 }),
            r.wf(),
    {
        Rotation { cos: ROT_ONE, sin: 0 }
    }
}

pub open spec fn abs(a: int) -> int {
    if a < 0 {
        -a
    } else {
        a
    }
}

/// The first rotated coordinate of the offset `(dx, dy)`, times `ROT_ONE`.
pub open spec fn rot_u(rot: Rotation, dx: int, dy: int) -> int {
    dx * rot.cos - dy * rot.sin
}

/// The second rotated coordinate of the offset `(dx, dy)`, times `ROT_ONE`.
pub open spec fn rot_v(rot: Rotation, dx: int, dy: int) -> int {
    dx * rot.sin + dy * rot.cos
}

/// The edges of the fan's five bristle sectors: for sector `i`, a direction
/// on each side of it, times `ROT_ONE`. The sectors are centred 0.18 pi
/// apart from 0.55 pi on, each 0.144 pi wide.
pub open spec fn fan_edges(i: int) -> (int, int, int, int) {
    if i == 0 {
        (283, 4086, -1532, 3799)
    } else if i == 1 {
        (-1951, 3602, -3329, 2387)
    } else if i == 2 {
        (-3577, 1996, -4089, 231)
    } else if i == 3 {
        (-4089, -231, -3577, -1996)
    } else {
        (-3329, -2387, -1951, -3602)
    }
}

/// Whether the direction `(px, py)` lies strictly inside bristle sector `i`.
pub open spec fn in_sector(i: int, px: int, py: int) -> bool {
    let (ax, ay, bx, by) = fan_edges(i);
    ax * py - ay * px > 0 && px * by - py * bx > 0
}

/// Whether the offset `(dx, dy)` from the centre of a mask `size` cells wide
/// lies inside the shape of brush type `t` turned by `rot`. The offset is
/// measured in cells; the shape's unit is half the mask width.
pub open spec fn covers(t: BrushType, size: int, rot: Rotation, dx: int, dy: int) -> bool {
    let d = size * ROT_ONE;
    let u = rot_u(rot, dx, dy);
    let v = rot_v(rot, dx, dy);
    match t {
        BrushType::Round | BrushType::Mop => 4 * (dx * dx + dy * dy) <= size * size,
        BrushType::Flat => 10 * abs(u) <= d && 2 * abs(v) <= d,
        BrushType::Bright => 20 * abs(u) <= 3 * d && 10 * abs(v) <= 4 * d,
        BrushType::Filbert => 100 * (u * u) + 36 * (v * v) <= 9 * (d * d),
        BrushType::Fan => 4 * (dx * dx + dy * dy) <= size * size && (in_sector(0, -dx, -dy)
            || in_sector(1, -dx, -dy) || in_sector(2, -dx, -dy) || in_sector(3, -dx, -dy)
            || in_sector(4, -dx, -dy)),
        BrushType::Angle => 20 * abs(v) <= 7 * d && -4 * d <= 10 * u && 5 * u <= d,
        BrushType::Rigger => 25 * abs(u) <= d && 20 * abs(v) <= 9 * d,
    }
}

/// The cell of the centre of a mask `size` cells wide.
pub open spec fn centre(size: int) -> int {
    (size - 1) / 2
}

/// Whether cell `(x, y)` of a mask `size` cells wide is painted.
pub open spec fn mask_cell(t: BrushType, size: int, rot: Rotation, x: int, y: int) -> bool {
    covers(t, size, rot, x - centre(size), y - centre(size))
}

proof fn lemma_mul_bound(a: int, b: int, ba: int, bb: int)
    requires
        -ba <= a <= ba,
        -bb <= b <= bb,
    ensures
        -(ba * bb) <= a * b <= ba * bb,
{
    assert(-(ba * bb) <= a * b <= ba * bb) by (nonlinear_arith)
        requires
            -ba <= a <= ba,
            -bb <= b <= bb,
    ;
}

proof fn lemma_square_bound(a: int, ba: int)
    requires
        -ba <= a <= ba,
    ensures
        0 <= a * a <= ba * ba,
{
    assert(0 <= a * a <= ba * ba) by (nonlinear_arith)
        requires
            -ba <= a <= ba,
    ;
}

fn abs64(a: i64) -> (r: i64)
    requires
        a > i64::MIN,
    ensures
        r == abs(a as int),
{
    if a < 0 {
        -a
    } else {
        a
    }
}

fn in_sector_exec(i: usize, px: i64, py: i64) -> (r: bool)
    requires
        -4001 <= px <= 4001,
        -4001 <= py <= 4001,
    ensures
        r == in_sector(i as int, px as int, py as int) || (i > 4 && r == in_sector(
            4,
            px as int,
            py as int,
        )),
{
    let (ax, ay, bx, by): (i64, i64, i64, i64) = if i == 0 {
        (283, 4086, -1532, 3799)
    } else if i == 1 {
        (-1951, 3602, -3329, 2387)
    } else if i == 2 {
        (-3577, 1996, -4089, 231)
    } else if i == 3 {
        (-4089, -231, -3577, -1996)
    } else {
        (-3329, -2387, -1951, -3602)
    };
    proof {
        lemma_mul_bound(ax as int, py as int, 4096, 4001);
        lemma_mul_bound(ay as int, px as int, 4096, 4001);
        lemma_mul_bound(px as int, by as int, 4001, 4096);
        lemma_mul_bound(py as int, bx as int, 4001, 4096);
    }
    ax * py - ay * px > 0 && px * by - py * bx > 0
}

/// Whether the offset `(dx, dy)` lies inside the shape; the executable
/// form of `covers`.
pub fn covers_offset(t: BrushType, size: usize, rot: Rotation, dx: i64, dy: i64) -> (r: bool)
    requires
        size <= MAX_MASK_SIZE,
        rot.wf(),
        -4001 <= dx <= 4001,
        -4001 <= dy <= 4001,
    ensures
        r == covers(t, size as int, rot, dx as int, dy as int),
{
    let s = size as i64;
    let d = s * ROT_ONE;
    proof {
        lemma_mul_bound(dx as int, rot.cos as int, 4001, 4096);
        lemma_mul_bound(dy as int, rot.sin as int, 4001, 4096);
        lemma_mul_bound(dx as int, rot.sin as int, 4001, 4096);
        lemma_mul_bound(dy as int, rot.cos as int, 4001, 4096);
        lemma_square_bound(dx as int, 4001);
        lemma_square_bound(dy as int, 4001);
        lemma_square_bound(s as int, 4001);
        lemma_mul_bound(s as int, ROT_ONE as int, 4001, 4096);
    }
    let u = dx * rot.cos - dy * rot.sin;
    let v = dx * rot.sin + dy * rot.cos;
    proof {
        lemma_square_bound(u as int, 32776192);
        lemma_square_bound(v as int, 32776192);
        lemma_square_bound(d as int, 16388096);
    }
    match t {
        BrushType::Round | BrushType::Mop => 4 * (dx * dx + dy * dy) <= s * s,
        BrushType::Flat => 10 * abs64(u) <= d && 2 * abs64(v) <= d,
        BrushType::Bright => 20 * abs64(u) <= 3 * d && 10 * abs64(v) <= 4 * d,
        BrushType::Filbert => 100 * (u * u) + 36 * (v * v) <= 9 * (d * d),
        BrushType::Fan => {
            4 * (dx * dx + dy * dy) <= s * s && (in_sector_exec(0, -dx, -dy) || in_sector_exec(
                1,
                -dx,
                -dy,
            ) || in_sector_exec(2, -dx, -dy) || in_sector_exec(3, -dx, -dy) || in_sector_exec(
                4,
                -dx,
                -dy,
            ))
        },
        BrushType::Angle => 20 * abs64(v) <= 7 * d && 10 * u + 4 * d >= 0 && 5 * u <= d,
        BrushType::Rigger => 25 * abs64(u) <= d && 20 * abs64(v) <= 9 * d,
    }
}

/// Whether cell `(x, y)` of a mask `size` cells wide is painted; the
/// executable form of `mask_cell`.
pub fn mask_cell_at(t: BrushType, size: usize, rot: Rotation, x: usize, y: usize) -> (r: bool)
    requires
        1 <= size <= MAX_MASK_SIZE,
        rot.wf(),
        x < size,
        y < size,
    ensures
        r == mask_cell(t, size as int, rot, x as int, y as int),
{
    let c = ((size - 1) / 2) as i64;
    covers_offset(t, size, rot, x as i64 - c, y as i64 - c)
}

pub proof fn lemma_earlier_row(xx: int, yy: int, size: int, y: int)
    requires
        0 <= xx < size,
        0 <= yy < y,
    ensures
        0 <= yy * size + xx < y * size,
{
    assert(0 <= yy * size + xx < y * size) by (nonlinear_arith)
        requires
            0 <= xx < size,
            0 <= yy < y,
    ;
}

/// The mask of brush type `t`, `size` cells wide, turned by `rot`: a cell
/// row by row for each position, painted or not. The shapes have hard edges,
/// so a cell is either fully painted or not at all.
pub fn generate_mask(t: BrushType, size: usize, rot: Rotation) -> (mask: Vec<bool>)
    requires
        1 <= size <= MAX_MASK_SIZE,
        rot.wf(),
    ensures
        mask@.len() == size * size,
        forall|x: int, y: int|
            0 <= x < size && 0 <= y < size ==> #[trigger] mask@[y * size + x] == mask_cell(
                t,
                size as int,
                rot,
                x,
                y,
            ),
{
    let mut mask: Vec<bool> = Vec::new();
    let mut y: usize = 0;
    while y < size
        invariant
            1 <= size <= MAX_MASK_SIZE,
            rot.wf(),
            y <= size,
            mask@.len() == y * size,
            forall|xx: int, yy: int|
                0 <= xx < size && 0 <= yy < y ==> #[trigger] mask@[yy * size + xx] == mask_cell(
                    t,
                    size as int,
                    rot,
                    xx,
                    yy,
                ),
        decreases size - y,
    {
        let mut x: usize = 0;
        while x < size
            invariant
                1 <= size <= MAX_MASK_SIZE,
                rot.wf(),
                y < size,
                x <= size,
                mask@.len() == y * size + x,
                forall|xx: int, yy: int|
                    0 <= xx < size && 0 <= yy < y ==> #[trigger] mask@[yy * size + xx]
                        == mask_cell(t, size as int, rot, xx, yy),
                forall|xx: int|
                    0 <= xx < x ==> #[trigger] mask@[y * size + xx] == mask_cell(
                        t,
                        size as int,
                        rot,
                        xx,
                        y as int,
                    ),
            decreases size - x,
        {
            let b = mask_cell_at(t, size, rot, x, y);
            let ghost before = mask@;
            mask.push(b);
            proof {
                assert forall|xx: int, yy: int| 0 <= xx < size && 0 <= yy < y implies
                    #[trigger] mask@[yy * size + xx] == mask_cell(t, size as int, rot, xx, yy) by {
                    lemma_earlier_row(xx, yy, size as int, y as int);
                    assert(mask@[yy * size + xx] == before[yy * size + xx]);
                }
            }
            x = x + 1;
        }
        proof {
            assert((y + 1) * size == y * size + size) by (nonlinear_arith);
        }
        y = y + 1;
    }
    mask
}

/// Mask symmetry: a round mask of odd width is unchanged by a quarter turn,
/// cell `(x, y)` matching cell `(size - 1 - y, x)`.
pub proof fn lemma_round_mask_quarter_turn(size: int, x: int, y: int)
    requires
        size >= 1,
        size % 2 == 1,
        0 <= x < size,
        0 <= y < size,
    ensures
        mask_cell(BrushType::Round, size, Rotation { cos: ROT_ONE, sin: 0 }, x, y) == mask_cell(
            BrushType::Round,
            size,
            Rotation { cos: ROT_ONE, sin: 0 },
            size - 1 - y,
            x,
        ),
{
    let c = centre(size);
    assert(2 * c == size - 1);
    let dx = x - c;
    let dy = y - c;
    assert((size - 1 - y) - c == -dy);
    assert((-dy) * (-dy) == dy * dy) by (nonlinear_arith);
}

} // verus!
