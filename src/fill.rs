use vstd::prelude::*;
use crate::canvas::{cell, lemma_cell_in_bounds};
use crate::color::{Rgba, same_pixel};
use crate::editor::{lemma_access, PaintApp, Tool};
use crate::history::{CanvasChange, Grids};
use crate::mask::abs;
use crate::paint::at_pixel;

verus! {

/// A position on a canvas.
pub type Pos = (usize, usize);

pub open spec fn on_grid(w: int, h: int, p: Pos) -> bool {
    p.0 < w && p.1 < h
}

/// Whether two positions are 4-neighbours.
pub open spec fn adjacent(p: Pos, q: Pos) -> bool {
    abs(p.0 as int - q.0 as int) + abs(p.1 as int - q.1 as int) == 1
}

/// The pixel at `p` of a layer whose rows are `w` wide.
pub open spec fn at(l: Seq<Option<Rgba>>, w: int, p: Pos) -> Option<Rgba> {
    l[cell(w, p.0 as int, p.1 as int)]
}

pub open spec fn seen(v: Seq<bool>, w: int, p: Pos) -> bool {
    v[cell(w, p.0 as int, p.1 as int)]
}

/// `order` lists the 4-connected region of `start` in layer `l` (a `w` by
/// `h` grid): it begins at `start`, each later position neighbours an
/// earlier one, all hold the colour of `start`, and every neighbour of a
/// listed position that holds that colour is listed too.
pub open spec fn flood_region(l: Seq<Option<Rgba>>, w: int, h: int, start: Pos, order: Seq<Pos>) -> bool {
    &&& order.len() > 0
    &&& order[0] == start
    &&& forall|k: int|
        0 <= k < order.len() ==> on_grid(w, h, #[trigger] order[k]) && at(l, w, order[k]) == at(
            l,
            w,
            start,
        )
    &&& forall|k: int|
        1 <= k < order.len() ==> exists|j: int| 0 <= j < k && adjacent(order[j], #[trigger] order[k])
    &&& forall|k: int, q: Pos|
        0 <= k < order.len() && on_grid(w, h, q) && #[trigger] adjacent(order[k], q) && at(l, w, q)
            == at(l, w, start) ==> order.contains(q)
}

/// Flood fill containment: any two listings of the region of `start` hold
/// the same positions, so the region a fill changes is exactly the
/// 4-connected region of pixels of the start colour around `start`.
pub proof fn lemma_region_unique(
    l: Seq<Option<Rgba>>,
    w: int,
    h: int,
    start: Pos,
    o1: Seq<Pos>,
    o2: Seq<Pos>,
)
    requires
        flood_region(l, w, h, start, o1),
        flood_region(l, w, h, start, o2),
    ensures
        forall|p: Pos| o1.contains(p) <==> o2.contains(p),
{
    lemma_region_included(l, w, h, start, o1, o2, o1.len() as int);
    lemma_region_included(l, w, h, start, o2, o1, o2.len() as int);
    assert forall|p: Pos| o1.contains(p) implies o2.contains(p) by {
        let k = choose|k: int| 0 <= k < o1.len() && o1[k] == p;
    }
    assert forall|p: Pos| o2.contains(p) implies o1.contains(p) by {
        let k = choose|k: int| 0 <= k < o2.len() && o2[k] == p;
    }
}

proof fn lemma_region_included(
    l: Seq<Option<Rgba>>,
    w: int,
    h: int,
    start: Pos,
    o1: Seq<Pos>,
    o2: Seq<Pos>,
    n: int,
)
    requires
        flood_region(l, w, h, start, o1),
        flood_region(l, w, h, start, o2),
        0 <= n <= o1.len(),
    ensures
        forall|k: int| 0 <= k < n ==> o2.contains(#[trigger] o1[k]),
    decreases n,
{
    if n > 0 {
        lemma_region_included(l, w, h, start, o1, o2, n - 1);
        let k = n - 1;
        if k == 0 {
            assert(o2[0] == o1[0]);
        } else {
            let j = choose|j: int| 0 <= j < k && adjacent(o1[j], #[trigger] o1[k]);
            assert(o2.contains(o1[j]));
            let i = choose|i: int| 0 <= i < o2.len() && o2[i] == o1[j];
            assert(on_grid(w, h, o1[k]));
            assert(at(l, w, o1[k]) == at(l, w, start));
            assert(adjacent(o2[i], o1[k]));
        }
    }
}

/// The changes a fill records: one per position of `order`, in order, on
/// layer `a`, each from `target` to `fill`.
pub open spec fn fill_changes(order: Seq<Pos>, a: int, target: Option<Rgba>, fill: Option<Rgba>) -> Seq<
    CanvasChange,
> {
    Seq::new(
        order.len(),
        |k: int|
            CanvasChange {
                x: order[k].0,
                y: order[k].1,
                layer_index: a as usize,
                old_color: target,
                new_color: fill,
            },
    )
}

/// `g2` is `g` with, on layer `a`, exactly the positions of `order` set to `fill`.
pub open spec fn filled_as(
    g2: Grids,
    g: Grids,
    a: int,
    w: int,
    h: int,
    order: Seq<Pos>,
    fill: Option<Rgba>,
) -> bool {
    &&& g2.len() == g.len()
    &&& g2[a].len() == g[a].len()
    &&& forall|k: int| 0 <= k < g.len() && k != a ==> #[trigger] g2[k] == g[k]
    &&& forall|p: Pos|
        on_grid(w, h, p) ==> #[trigger] at(g2[a], w, p) == if order.contains(p) {
            fill
        } else {
            at(g[a], w, p)
        }
}

/// How many entries of `v` are false.
pub open spec fn count_false(v: Seq<bool>) -> nat
    decreases v.len(),
{
    if v.len() == 0 {
        0
    } else {
        count_false(v.drop_last()) + if v.last() {
            0nat
        } else {
            1nat
        }
    }
}

proof fn lemma_count_false_set(v: Seq<bool>, i: int)
    requires
        0 <= i < v.len(),
        !v[i],
    ensures
        count_false(v.update(i, true)) + 1 == count_false(v),
    decreases v.len(),
{
    let u = v.update(i, true);
    if i == v.len() - 1 {
        assert(u.drop_last() =~= v.drop_last());
    } else {
        assert(u.drop_last() =~= v.drop_last().update(i, true));
        lemma_count_false_set(v.drop_last(), i);
    }
}

/// Distinct positions of a grid lie at distinct indices.
pub proof fn lemma_cell_injective(w: int, h: int, p: Pos, q: Pos)
    requires
        on_grid(w, h, p),
        on_grid(w, h, q),
        p != q,
    ensures
        cell(w, p.0 as int, p.1 as int) != cell(w, q.0 as int, q.1 as int),
{
    let (px, py) = (p.0 as int, p.1 as int);
    let (qx, qy) = (q.0 as int, q.1 as int);
    if py < qy {
        assert(py * w + px < qy * w + qx) by (nonlinear_arith)
            requires
                py < qy,
                0 <= px < w,
                0 <= qx,
        ;
    } else if py > qy {
        assert(qy * w + qx < py * w + px) by (nonlinear_arith)
            requires
                qy < py,
                0 <= qx < w,
                0 <= px,
        ;
    }
}

fn blank_flags(n: usize) -> (v: Vec<bool>)
    ensures
        v@ == Seq::new(n as nat, |i: int| false),
{
    let mut v: Vec<bool> = Vec::with_capacity(n);
    let mut i: usize = 0;
    while i < n
        invariant
            i <= n,
            v@ == Seq::new(i as nat, |k: int| false),
        decreases n - i,
    {
        v.push(false);
        i = i + 1;
        assert(v@ =~= Seq::new(i as nat, |k: int| false));
    }
    v
}

/// Whether `q` waits in the queue at or after `head`.
pub open spec fn queued(queue: Seq<Pos>, head: int, q: Pos) -> bool {
    exists|k: int| head <= k < queue.len() && queue[k] == q
}

proof fn lemma_neighbours(q: Pos, r: Pos)
    requires
        adjacent(q, r),
    ensures
        (r.0 + 1 == q.0 && r.1 == q.1) || (r.0 == q.0 + 1 && r.1 == q.1) || (r.0 == q.0 && r.1 + 1
            == q.1) || (r.0 == q.0 && r.1 == q.1 + 1),
{
}

/// One filling step keeps the loop's facts: position `q`, taken from the
/// queue at `hd`, is filled, listed and marked, and its neighbours queued.
proof fn lemma_fill_step(
    w: int,
    h: int,
    l0: Seq<Option<Rgba>>,
    target: Option<Rgba>,
    fill: Option<Rgba>,
    q: Pos,
    hd: int,
    vis0: Seq<bool>,
    vis: Seq<bool>,
    order0: Seq<Pos>,
    queue0: Seq<Pos>,
    qs: Seq<Pos>,
    lay0: Seq<Option<Rgba>>,
    lay: Seq<Option<Rgba>>,
)
    requires
        0 <= hd < queue0.len(),
        queue0[hd] == q,
        on_grid(w, h, q),
        !seen(vis0, w, q),
        seen(vis, w, q),
        at(l0, w, q) == target,
        at(lay, w, q) == fill,
        hd == 0 <==> order0.len() == 0,
        forall|p: Pos|
            on_grid(w, h, p) && p != q ==> seen(vis, w, p) == seen(vis0, w, p) && at(lay, w, p)
                == at(lay0, w, p),
        forall|p: Pos|
            on_grid(w, h, p) ==> #[trigger] at(lay0, w, p) == if seen(vis0, w, p) {
                fill
            } else {
                at(l0, w, p)
            },
        forall|k: int|
            0 <= k < order0.len() ==> on_grid(w, h, #[trigger] order0[k]) && seen(vis0, w, order0[k])
                && at(l0, w, order0[k]) == target,
        forall|p: Pos| on_grid(w, h, p) && #[trigger] seen(vis0, w, p) ==> order0.contains(p),
        forall|k: int|
            1 <= k < order0.len() ==> exists|j: int|
                0 <= j < k && adjacent(order0[j], #[trigger] order0[k]),
        forall|k: int|
            1 <= k < queue0.len() ==> exists|j: int|
                0 <= j < order0.len() && adjacent(order0[j], #[trigger] queue0[k]),
        forall|j: int, r: Pos|
            0 <= j < order0.len() && on_grid(w, h, r) && #[trigger] adjacent(order0[j], r) ==> seen(
                vis0,
                w,
                r,
            ) || at(l0, w, r) != target || queued(queue0, hd, r),
        qs.len() >= queue0.len(),
        forall|k: int| 0 <= k < queue0.len() ==> qs[k] == queue0[k],
        forall|k: int| queue0.len() <= k < qs.len() ==> adjacent(q, #[trigger] qs[k]),
        forall|r: Pos| on_grid(w, h, r) && adjacent(q, r) ==> queued(qs, queue0.len() as int, r),
    ensures
        ({
            let order = order0.push(q);
            &&& forall|p: Pos|
                on_grid(w, h, p) ==> #[trigger] at(lay, w, p) == if seen(vis, w, p) {
                    fill
                } else {
                    at(l0, w, p)
                }
            &&& forall|k: int|
                0 <= k < order.len() ==> on_grid(w, h, #[trigger] order[k]) && seen(vis, w, order[k])
                    && at(l0, w, order[k]) == target
            &&& forall|p: Pos| on_grid(w, h, p) && #[trigger] seen(vis, w, p) ==> order.contains(p)
            &&& forall|k: int|
                1 <= k < order.len() ==> exists|j: int|
                    0 <= j < k && adjacent(order[j], #[trigger] order[k])
            &&& forall|k: int|
                1 <= k < qs.len() ==> exists|j: int|
                    0 <= j < order.len() && adjacent(order[j], #[trigger] qs[k])
            &&& forall|j: int, r: Pos|
                0 <= j < order.len() && on_grid(w, h, r) && #[trigger] adjacent(order[j], r)
                    ==> seen(vis, w, r) || at(l0, w, r) != target || queued(qs, hd + 1, r)
        }),
{
    let order = order0.push(q);
    let n0 = order0.len() as int;
    assert(order[n0] == q);
    assert forall|k: int| 0 <= k < n0 implies #[trigger] order[k] == order0[k] by {}
    assert forall|p: Pos| on_grid(w, h, p) implies #[trigger] at(lay, w, p) == if seen(vis, w, p) {
        fill
    } else {
        at(l0, w, p)
    } by {
        if p != q {
            assert(at(lay0, w, p) == if seen(vis0, w, p) { fill } else { at(l0, w, p) });
        }
    }
    assert forall|k: int| 0 <= k < order.len() implies on_grid(w, h, #[trigger] order[k]) && seen(
        vis,
        w,
        order[k],
    ) && at(l0, w, order[k]) == target by {
        if k < n0 {
            assert(order0[k] == order[k]);
            if order[k] != q {
                assert(seen(vis0, w, order0[k]));
            }
        }
    }
    assert forall|p: Pos| on_grid(w, h, p) && #[trigger] seen(vis, w, p) implies order.contains(p) by {
        if p == q {
            assert(order[n0] == p);
        } else {
            assert(seen(vis0, w, p));
            assert(order0.contains(p));
            let k = choose|k: int| 0 <= k < n0 && order0[k] == p;
            assert(order[k] == p);
        }
    }
    assert forall|k: int| 1 <= k < order.len() implies exists|j: int|
        0 <= j < k && adjacent(order[j], #[trigger] order[k]) by {
        if k < n0 {
            assert(order0[k] == order[k]);
            let j = choose|j: int| 0 <= j < k && adjacent(order0[j], order0[k]);
            assert(order[j] == order0[j]);
        } else {
            assert(hd > 0);
            assert(queue0[hd] == q);
            let j = choose|j: int| 0 <= j < n0 && adjacent(order0[j], queue0[hd]);
            assert(order[j] == order0[j]);
        }
    }
    assert forall|k: int| 1 <= k < qs.len() implies exists|j: int|
        0 <= j < order.len() && adjacent(order[j], #[trigger] qs[k]) by {
        if k < queue0.len() {
            assert(qs[k] == queue0[k]);
            let j = choose|j: int| 0 <= j < n0 && adjacent(order0[j], queue0[k]);
            assert(order[j] == order0[j]);
        } else {
            assert(adjacent(q, qs[k]));
            assert(order[n0] == q);
        }
    }
    assert forall|j: int, r: Pos|
        0 <= j < order.len() && on_grid(w, h, r) && #[trigger] adjacent(order[j], r) implies seen(
        vis,
        w,
        r,
    ) || at(l0, w, r) != target || queued(qs, hd + 1, r) by {
        if j == n0 {
            assert(queued(qs, queue0.len() as int, r));
            let k = choose|k: int| queue0.len() <= k < qs.len() && qs[k] == r;
            assert(hd + 1 <= k);
        } else {
            assert(order[j] == order0[j]);
            if r == q {
            } else if !seen(vis0, w, r) && at(l0, w, r) == target {
                assert(queued(queue0, hd, r));
                let k = choose|k: int| hd <= k < queue0.len() && queue0[k] == r;
                assert(k != hd);
                assert(qs[k] == r);
            }
        }
    }
}

/// The facts a flood fill keeps while its queue is worked through, from
/// `start` over layer `l0` (now `lay`), with `vis` marking the filled
/// positions, `order` listing them, and the queue worked up to `head`.
#[verifier::opaque]
pub open spec fn fill_state(
    w: int,
    h: int,
    l0: Seq<Option<Rgba>>,
    target: Option<Rgba>,
    fill: Option<Rgba>,
    start: Pos,
    lay: Seq<Option<Rgba>>,
    vis: Seq<bool>,
    order: Seq<Pos>,
    queue: Seq<Pos>,
    head: int,
) -> bool {
    &&& 0 <= head <= queue.len()
    &&& queue.len() >= 1
    &&& queue[0] == start
    &&& (head == 0 <==> order.len() == 0)
    &&& (order.len() > 0 ==> order[0] == start)
    &&& order.no_duplicates()
    &&& forall|k: int| 0 <= k < queue.len() ==> on_grid(w, h, #[trigger] queue[k])
    &&& forall|p: Pos|
        on_grid(w, h, p) ==> #[trigger] at(lay, w, p) == if seen(vis, w, p) {
            fill
        } else {
            at(l0, w, p)
        }
    &&& forall|k: int|
        0 <= k < order.len() ==> on_grid(w, h, #[trigger] order[k]) && seen(vis, w, order[k]) && at(
            l0,
            w,
            order[k],
        ) == target
    &&& forall|p: Pos| on_grid(w, h, p) && #[trigger] seen(vis, w, p) ==> order.contains(p)
    &&& forall|k: int|
        1 <= k < order.len() ==> exists|j: int| 0 <= j < k && adjacent(order[j], #[trigger] order[k])
    &&& forall|k: int|
        1 <= k < queue.len() ==> exists|j: int|
            0 <= j < order.len() && adjacent(order[j], #[trigger] queue[k])
    &&& forall|j: int, r: Pos|
        0 <= j < order.len() && on_grid(w, h, r) && #[trigger] adjacent(order[j], r) ==> seen(
            vis,
            w,
            r,
        ) || at(l0, w, r) != target || queued(queue, head, r)
}

proof fn lemma_fill_start(
    w: int,
    h: int,
    l0: Seq<Option<Rgba>>,
    target: Option<Rgba>,
    fill: Option<Rgba>,
    start: Pos,
    lay: Seq<Option<Rgba>>,
    vis: Seq<bool>,
    queue: Seq<Pos>,
)
    requires
        w >= 0,
        h >= 0,
        on_grid(w, h, start),
        lay == l0,
        vis == Seq::new((w * h) as nat, |i: int| false),
        queue == seq![start],
    ensures
        fill_state(w, h, l0, target, fill, start, lay, vis, Seq::empty(), queue, 0),
{
    reveal(fill_state);
    assert forall|p: Pos| on_grid(w, h, p) implies !seen(vis, w, p) by {
        lemma_cell_in_bounds(w, h, p.0 as int, p.1 as int);
    }
}

proof fn lemma_fill_state_queue(
    w: int,
    h: int,
    l0: Seq<Option<Rgba>>,
    target: Option<Rgba>,
    fill: Option<Rgba>,
    start: Pos,
    lay: Seq<Option<Rgba>>,
    vis: Seq<bool>,
    order: Seq<Pos>,
    queue: Seq<Pos>,
    head: int,
)
    requires
        fill_state(w, h, l0, target, fill, start, lay, vis, order, queue, head),
        head < queue.len(),
    ensures
        on_grid(w, h, queue[head]),
        at(lay, w, queue[head]) == if seen(vis, w, queue[head]) {
            fill
        } else {
            at(l0, w, queue[head])
        },
{
    reveal(fill_state);
}

proof fn lemma_skip_step(
    w: int,
    h: int,
    l0: Seq<Option<Rgba>>,
    target: Option<Rgba>,
    fill: Option<Rgba>,
    start: Pos,
    lay: Seq<Option<Rgba>>,
    vis: Seq<bool>,
    order: Seq<Pos>,
    queue: Seq<Pos>,
    head: int,
)
    requires
        fill_state(w, h, l0, target, fill, start, lay, vis, order, queue, head),
        head < queue.len(),
        target != fill,
        seen(vis, w, queue[head]) || at(lay, w, queue[head]) != target,
        target == at(l0, w, start),
    ensures
        fill_state(w, h, l0, target, fill, start, lay, vis, order, queue, head + 1),
{
    reveal(fill_state);
    let q = queue[head];
    assert(head > 0) by {
        if head == 0 {
            assert(q == start);
            if seen(vis, w, start) {
                assert(order.contains(start));
            }
        }
    }
    assert forall|j: int, r: Pos|
        0 <= j < order.len() && on_grid(w, h, r) && #[trigger] adjacent(order[j], r) implies seen(
        vis,
        w,
        r,
    ) || at(l0, w, r) != target || queued(queue, head + 1, r) by {
        if !seen(vis, w, r) && at(l0, w, r) == target {
            let k = choose|k: int| head <= k < queue.len() && queue[k] == r;
            if k == head {
                assert(at(lay, w, r) == at(l0, w, r));
            }
        }
    }
}

/// `qs` is `queue0` followed by neighbours of `q`, all on the grid.
pub open spec fn pushed_ok(w: int, h: int, q: Pos, queue0: Seq<Pos>, qs: Seq<Pos>) -> bool {
    &&& qs.len() >= queue0.len()
    &&& forall|k: int|
        0 <= k < qs.len() ==> (k >= queue0.len() ==> on_grid(w, h, #[trigger] qs[k]) && adjacent(
            q,
            qs[k],
        )) && (k < queue0.len() ==> qs[k] == queue0[k])
}

proof fn lemma_push_ok(w: int, h: int, q: Pos, queue0: Seq<Pos>, qs: Seq<Pos>, r: Pos)
    requires
        pushed_ok(w, h, q, queue0, qs),
        on_grid(w, h, r),
        adjacent(q, r),
    ensures
        pushed_ok(w, h, q, queue0, qs.push(r)),
{
    let qs2 = qs.push(r);
    assert forall|k: int| 0 <= k < qs2.len() implies (k >= queue0.len() ==> on_grid(
        w,
        h,
        #[trigger] qs2[k],
    ) && adjacent(q, qs2[k])) && (k < queue0.len() ==> qs2[k] == queue0[k]) by {
        if k < qs.len() {
            assert(qs2[k] == qs[k]);
        }
    }
}

proof fn lemma_fill_state_step(
    w: int,
    h: int,
    l0: Seq<Option<Rgba>>,
    target: Option<Rgba>,
    fill: Option<Rgba>,
    start: Pos,
    q: Pos,
    hd: int,
    vis0: Seq<bool>,
    vis: Seq<bool>,
    order0: Seq<Pos>,
    queue0: Seq<Pos>,
    qs: Seq<Pos>,
    lay0: Seq<Option<Rgba>>,
    lay: Seq<Option<Rgba>>,
)
    requires
        fill_state(w, h, l0, target, fill, start, lay0, vis0, order0, queue0, hd),
        0 <= hd < queue0.len(),
        queue0[hd] == q,
        !seen(vis0, w, q),
        seen(vis, w, q),
        at(lay0, w, q) == target,
        at(lay, w, q) == fill,
        forall|p: Pos|
            on_grid(w, h, p) && p != q ==> seen(vis, w, p) == seen(vis0, w, p) && at(lay, w, p)
                == at(lay0, w, p),
        pushed_ok(w, h, q, queue0, qs),
        forall|r: Pos| on_grid(w, h, r) && adjacent(q, r) ==> queued(qs, queue0.len() as int, r),
    ensures
        fill_state(w, h, l0, target, fill, start, lay, vis, order0.push(q), qs, hd + 1),
{
    reveal(fill_state);
    assert(on_grid(w, h, q));
    assert(at(l0, w, q) == target);
    assert forall|k: int| 0 <= k < queue0.len() implies #[trigger] qs[k] == queue0[k] by {}
    assert forall|k: int| queue0.len() <= k < qs.len() implies adjacent(q, #[trigger] qs[k]) by {}
    assert forall|k: int| 0 <= k < qs.len() implies on_grid(w, h, #[trigger] qs[k]) by {
        if k < queue0.len() {
            assert(qs[k] == queue0[k]);
        }
    }
    lemma_fill_step(w, h, l0, target, fill, q, hd, vis0, vis, order0, queue0, qs, lay0, lay);
    let order = order0.push(q);
    assert forall|i: int, j: int| 0 <= i < order.len() && 0 <= j < order.len() && i != j implies order[i]
        != order[j] by {
        if i < order0.len() && j < order0.len() {
            assert(order[i] == order0[i] && order[j] == order0[j]);
        } else if i < order0.len() {
            assert(seen(vis0, w, order0[i]));
            assert(order[i] == order0[i]);
        } else {
            assert(seen(vis0, w, order0[j]));
            assert(order[j] == order0[j]);
        }
    }
    if hd == 0 {
        assert(q == start);
        assert(order[0] == start);
    } else {
        assert(order[0] == order0[0]);
    }
}

proof fn lemma_fill_done(
    w: int,
    h: int,
    l0: Seq<Option<Rgba>>,
    target: Option<Rgba>,
    fill: Option<Rgba>,
    start: Pos,
    lay: Seq<Option<Rgba>>,
    vis: Seq<bool>,
    order: Seq<Pos>,
    queue: Seq<Pos>,
    head: int,
)
    requires
        fill_state(w, h, l0, target, fill, start, lay, vis, order, queue, head),
        head == queue.len(),
        target == at(l0, w, start),
        target != fill,
    ensures
        flood_region(l0, w, h, start, order),
        order.no_duplicates(),
        forall|p: Pos|
            on_grid(w, h, p) ==> #[trigger] at(lay, w, p) == if order.contains(p) {
                fill
            } else {
                at(l0, w, p)
            },
{
    reveal(fill_state);
    assert(order.len() > 0);
    assert forall|k: int, r: Pos|
        0 <= k < order.len() && on_grid(w, h, r) && #[trigger] adjacent(order[k], r) && at(l0, w, r)
            == at(l0, w, start) implies order.contains(r) by {
        assert(seen(vis, w, r));
    }
    assert forall|p: Pos| on_grid(w, h, p) implies #[trigger] at(lay, w, p) == if order.contains(p) {
        fill
    } else {
        at(l0, w, p)
    } by {
        if order.contains(p) {
            let k = choose|k: int| 0 <= k < order.len() && order[k] == p;
            assert(seen(vis, w, order[k]));
        }
    }
}

impl PaintApp {
    /// The colour a fill writes: nothing with the eraser, else the colour in use.
    pub open spec fn fill_color(&self) -> Option<Rgba> {
        if self.current_tool == Tool::Eraser {
            None
        } else if self.using_secondary_color {
            Some(self.secondary_color)
        } else {
            Some(self.primary_color)
        }
    }

    /// Flood fill from `(x, y)` on the active layer: the 4-connected region
    /// of pixels holding the colour at `(x, y)` takes the fill colour (none
    /// with the eraser), every pixel of it recorded in the gesture in
    /// progress. Nothing happens off the canvas, on a hidden layer, or where
    /// the region already holds the fill colour.
    pub fn paint_bucket(&mut self, x: usize, y: usize)
        requires
            old(self).wf(),
        ensures
            final(self).wf(),
            final(self).same_frame(old(self)),
            final(self).undo_frames() == old(self).undo_frames(),
            final(self).redo_frames() == old(self).redo_frames(),
            old(self).tracking() ==> final(self).tracking(),
            ({
                let g = old(self).grids();
                let a = old(self).current_state.active_layer_index as int;
                let w = old(self).current_state.width as int;
                let h = old(self).current_state.height as int;
                if !(x < w && y < h) || !g_visible(old(self)) || at(g[a], w, (x, y))
                    == old(self).fill_color() {
                    final(self).current_state == old(self).current_state
                        && final(self).current_changes@ == old(self).current_changes@
                } else {
                    exists|order: Seq<Pos>|
                        flood_region(g[a], w, h, (x, y), order) && order.no_duplicates()
                            && final(self).current_changes@ == old(self).current_changes@
                            + fill_changes(order, a, at(g[a], w, (x, y)), old(self).fill_color())
                            && filled_as(
                            final(self).grids(),
                            g,
                            a,
                            w,
                            h,
                            order,
                            old(self).fill_color(),
                        )
                }
            }),
    {
        let w = self.current_state.width;
        let h = self.current_state.height;
        if x >= w || y >= h {
            return;
        }
        let a = self.current_state.active_layer_index;
        if !self.current_state.layers[a].visible {
            return;
        }
        let target = self.current_state.get_from_active_layer(x, y);
        let color = if self.using_secondary_color {
            self.secondary_color
        } else {
            self.primary_color
        };
        let fill = if self.current_tool == Tool::Eraser {
            None
        } else {
            Some(color)
        };
        if same_pixel(target, fill) {
            return;
        }
        let ghost g0 = self.grids();
        let ghost l0 = g0[a as int];
        let ghost wi = w as int;
        let ghost hi = h as int;
        let ghost start: Pos = (x, y);
        proof {
            assert(self.current_state.layers[a as int].data.len() == w * h);
        }
        let n = w * h;
        let mut visited = blank_flags(n);
        let mut queue: Vec<Pos> = Vec::new();
        queue.push((x, y));
        let mut head: usize = 0;
        let ghost mut order: Seq<Pos> = Seq::empty();
        proof {
            lemma_fill_start(wi, hi, l0, target, fill, start, self.grids()[a as int], visited@, queue@);
        }
        while head < queue.len()
            invariant
                self.wf(),
                self.same_frame(old(self)),
                self.undo_frames() == old(self).undo_frames(),
                self.redo_frames() == old(self).redo_frames(),
                old(self).tracking() ==> self.tracking(),
                w == self.current_state.width,
                h == self.current_state.height,
                wi == w,
                hi == h,
                a == self.current_state.active_layer_index,
                n == w * h,
                g0 == old(self).grids(),
                l0 == g0[a as int],
                l0.len() == n,
                start == (x, y),
                target == at(l0, wi, start),
                target != fill,
                visited@.len() == n,
                head <= queue@.len(),
                self.current_changes@ == old(self).current_changes@ + fill_changes(
                    order,
                    a as int,
                    target,
                    fill,
                ),
                self.grids().len() == g0.len(),
                self.grids()[a as int].len() == n,
                forall|k: int| 0 <= k < g0.len() && k != a ==> #[trigger] self.grids()[k] == g0[k],
                fill_state(
                    wi,
                    hi,
                    l0,
                    target,
                    fill,
                    start,
                    self.grids()[a as int],
                    visited@,
                    order,
                    queue@,
                    head as int,
                ),
            decreases 4 * count_false(visited@) + queue@.len() - head,
        {
            proof {
                lemma_fill_state_queue(wi, hi, l0, target, fill, start, self.grids()[a as int], visited@, order, queue@, head as int);
            }
            let (cx, cy) = queue[head];
            let ghost q: Pos = (cx, cy);
            proof {
                lemma_cell_in_bounds(wi, hi, cx as int, cy as int);
            }
            let idx = cy * w + cx;
            let here = self.current_state.get_from_active_layer(cx, cy);
            if visited[idx] || !same_pixel(here, target) {
                proof {
                    lemma_skip_step(wi, hi, l0, target, fill, start, self.grids()[a as int], visited@, order, queue@, head as int);
                }
                head = head + 1;
            } else {
                let ghost vis0 = visited@;
                let ghost order0 = order;
                let ghost queue0 = queue@;
                let ghost qlen0: int = queue@.len() as int;
                let ghost grid_before = self.grids();
                let ghost hd = head as int;
                proof {
                    lemma_access(self.current_state, at_pixel(a as int, cx, cy));
                }
                self.record_change(cx, cy, fill);
                visited.set(idx, true);
                proof {
                    lemma_count_false_set(vis0, idx as int);
                    assert(fill_changes(order0.push(q), a as int, target, fill) =~= fill_changes(
                        order0,
                        a as int,
                        target,
                        fill,
                    ).push(CanvasChange { x: cx, y: cy, layer_index: a, old_color: target, new_color: fill }));
                    order = order0.push(q);
                    assert forall|p: Pos| on_grid(wi, hi, p) && p != q implies seen(visited@, wi, p)
                        == seen(vis0, wi, p) && at(self.grids()[a as int], wi, p) == at(
                        grid_before[a as int],
                        wi,
                        p,
                    ) by {
                        lemma_cell_injective(wi, hi, p, q);
                        lemma_cell_in_bounds(wi, hi, p.0 as int, p.1 as int);
                    }
                }
                head = head + 1;
                proof {
                    assert(pushed_ok(wi, hi, q, queue0, queue@));
                }
                if cx > 0 {
                    proof {
                        lemma_push_ok(wi, hi, q, queue0, queue@, ((cx - 1) as usize, cy));
                    }
                    queue.push((cx - 1, cy));
                }
                if cx + 1 < w {
                    proof {
                        lemma_push_ok(wi, hi, q, queue0, queue@, ((cx + 1) as usize, cy));
                    }
                    queue.push((cx + 1, cy));
                }
                if cy > 0 {
                    proof {
                        lemma_push_ok(wi, hi, q, queue0, queue@, (cx, (cy - 1) as usize));
                    }
                    queue.push((cx, cy - 1));
                }
                if cy + 1 < h {
                    proof {
                        lemma_push_ok(wi, hi, q, queue0, queue@, (cx, (cy + 1) as usize));
                    }
                    queue.push((cx, cy + 1));
                }
                proof {
                    let qs = queue@;
                    assert forall|r: Pos| on_grid(wi, hi, r) && adjacent(q, r) implies queued(
                        qs,
                        qlen0,
                        r,
                    ) by {
                        lemma_neighbours(q, r);
                        let k: int = if r.0 + 1 == cx && r.1 == cy {
                            qlen0
                        } else if r.0 == cx + 1 && r.1 == cy {
                            qlen0 + (if cx > 0 { 1int } else { 0int })
                        } else if r.0 == cx && r.1 + 1 == cy {
                            qlen0 + (if cx > 0 { 1int } else { 0int }) + (if cx + 1 < w { 1int } else { 0int })
                        } else {
                            qlen0 + (if cx > 0 { 1int } else { 0int }) + (if cx + 1 < w { 1int } else { 0int }) + (if cy > 0 { 1int } else { 0int })
                        };
                        assert(qs[k] == r);
                    }
                    assert(pushed_ok(wi, hi, q, queue0, qs));
                    lemma_fill_state_step(
                        wi,
                        hi,
                        l0,
                        target,
                        fill,
                        start,
                        q,
                        hd,
                        vis0,
                        visited@,
                        order0,
                        queue0,
                        qs,
                        grid_before[a as int],
                        self.grids()[a as int],
                    );
                }
            }
        }
        proof {
            lemma_fill_done(wi, hi, l0, target, fill, start, self.grids()[a as int], visited@, order, queue@, head as int);
            assert(filled_as(self.grids(), g0, a as int, wi, hi, order, fill));
        }
    }
}

pub open spec fn g_visible(app: &PaintApp) -> bool {
    app.current_state.layers[app.current_state.active_layer_index as int].visible
}

} // verus!
