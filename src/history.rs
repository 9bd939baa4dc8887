use vstd::prelude::*;
use crate::canvas::cell;
use crate::color::Rgba;

verus! {

/// The pixel grids of all layers of a canvas, bottom layer first.
pub type Grids = Seq<Seq<Option<Rgba>>>;

/// One altered pixel: where it is, and its colour before and after.
#[derive(Clone, Copy, Debug)]
pub struct CanvasChange {
    pub x: usize,
    pub y: usize,
    pub layer_index: usize,
    pub old_color: Option<Rgba>,
    pub new_color: Option<Rgba>,
}

/// Whether `ch` names a pixel of `g`, a canvas whose rows are `w` wide.
pub open spec fn fits(g: Grids, w: int, ch: CanvasChange) -> bool {
    &&& ch.layer_index < g.len()
    &&& ch.x < w
    &&& cell(w, ch.x as int, ch.y as int) < g[ch.layer_index as int].len()
}

/// The pixel that `ch` names, `None` where it names none.
pub open spec fn read(g: Grids, w: int, ch: CanvasChange) -> Option<Rgba> {
    if fits(g, w, ch) {
        g[ch.layer_index as int][cell(w, ch.x as int, ch.y as int)]
    } else {
        None
    }
}

/// `g` with the pixel that `ch` names set to `c`; unchanged where it names none.
pub open spec fn put(g: Grids, w: int, ch: CanvasChange, c: Option<Rgba>) -> Grids {
    if fits(g, w, ch) {
        g.update(
            ch.layer_index as int,
            g[ch.layer_index as int].update(cell(w, ch.x as int, ch.y as int), c),
        )
    } else {
        g
    }
}

/// `ch` with another colour before.
pub open spec fn with_old(ch: CanvasChange, c: Option<Rgba>) -> CanvasChange {
    CanvasChange { old_color: c, ..ch }
}

/// The grids after writing the new colours of `f` in recorded order.
pub open spec fn apply_frame(g: Grids, w: int, f: Seq<CanvasChange>) -> Grids
    decreases f.len(),
{
    if f.len() == 0 {
        g
    } else {
        put(apply_frame(g, w, f.drop_last()), w, f.last(), f.last().new_color)
    }
}

/// The grids after writing the colours of `f` from its last change to its
/// first: the new colours where `forward`, the old ones otherwise.
pub open spec fn rewind(g: Grids, w: int, f: Seq<CanvasChange>, forward: bool) -> Grids
    decreases f.len(),
{
    if f.len() == 0 {
        g
    } else {
        put(
            rewind(g, w, f.subrange(1, f.len() as int), forward),
            w,
            f[0],
            if forward {
                f[0].new_color
            } else {
                f[0].old_color
            },
        )
    }
}

/// Whether `f` is a faithful record of writes made from `g`: every change
/// names a pixel and holds, as its old colour, what that pixel held just
/// before it was written.
pub open spec fn frame_valid(g: Grids, w: int, f: Seq<CanvasChange>) -> bool
    decreases f.len(),
{
    if f.len() == 0 {
        true
    } else {
        &&& frame_valid(g, w, f.drop_last())
        &&& fits(apply_frame(g, w, f.drop_last()), w, f.last())
        &&& read(apply_frame(g, w, f.drop_last()), w, f.last()) == f.last().old_color
    }
}

/// Writing the old colour back over a freshly written pixel restores the grids.
pub proof fn lemma_put_put(g: Grids, w: int, ch: CanvasChange, c: Option<Rgba>)
    requires
        fits(g, w, ch),
        read(g, w, ch) == ch.old_color,
    ensures
        put(put(g, w, ch, c), w, ch, ch.old_color) == g,
{
    let i = ch.layer_index as int;
    let j = cell(w, ch.x as int, ch.y as int);
    assert(put(put(g, w, ch, c), w, ch, ch.old_color)[i] =~= g[i]);
    assert(put(put(g, w, ch, c), w, ch, ch.old_color) =~= g);
}

/// Rewinding a frame with one more change at its end writes that change first.
pub proof fn lemma_rewind_push(g: Grids, w: int, s: Seq<CanvasChange>, a: CanvasChange, forward: bool)
    ensures
        rewind(g, w, s.push(a), forward) == rewind(
            put(g, w, a, if forward { a.new_color } else { a.old_color }),
            w,
            s,
            forward,
        ),
    decreases s.len(),
{
    let c = if forward { a.new_color } else { a.old_color };
    if s.len() == 0 {
        assert(s.push(a).subrange(1, 1) =~= Seq::<CanvasChange>::empty());
        assert(rewind(g, w, Seq::<CanvasChange>::empty(), forward) == g);
    } else {
        let t = s.subrange(1, s.len() as int);
        assert(s.push(a).subrange(1, s.push(a).len() as int) =~= t.push(a));
        lemma_rewind_push(g, w, t, a, forward);
    }
}

/// Replaying a reversed frame with its new colours applies the frame.
pub proof fn lemma_rewind_reverse(g: Grids, w: int, f: Seq<CanvasChange>)
    ensures
        rewind(g, w, f.reverse(), true) == apply_frame(g, w, f),
    decreases f.len(),
{
    if f.len() > 0 {
        let d = f.drop_last();
        assert(f.reverse().subrange(1, f.len() as int) =~= d.reverse());
        assert(f.reverse()[0] == f.last());
        lemma_rewind_reverse(g, w, d);
    }
}

/// Rewinding a faithful frame with its old colours restores the grids it
/// was recorded from.
pub proof fn lemma_rewind_restores(g: Grids, w: int, f: Seq<CanvasChange>)
    requires
        frame_valid(g, w, f),
    ensures
        rewind(apply_frame(g, w, f), w, f, false) == g,
    decreases f.len(),
{
    if f.len() > 0 {
        let d = f.drop_last();
        let a = f.last();
        let before = apply_frame(g, w, d);
        assert(f =~= d.push(a));
        lemma_rewind_push(apply_frame(g, w, f), w, d, a, false);
        lemma_put_put(before, w, a, a.new_color);
        lemma_rewind_restores(g, w, d);
    }
}

/// A faithful frame holds, in each change, the pixel that the changes before
/// it left.
pub proof fn lemma_frame_valid_at(g: Grids, w: int, f: Seq<CanvasChange>, k: int)
    requires
        frame_valid(g, w, f),
        0 <= k < f.len(),
    ensures
        read(apply_frame(g, w, f.take(k)), w, f[k]) == f[k].old_color,
        frame_valid(g, w, f.take(k)),
    decreases f.len(),
{
    let d = f.drop_last();
    if k == f.len() - 1 {
        assert(f.take(k) =~= d);
    } else {
        lemma_frame_valid_at(g, w, d, k);
        assert(d.take(k) =~= f.take(k));
    }
}

/// Undo/redo round trip. Undoing a faithful frame `f` recorded from `g`
/// (rewinding it with its old colours) gives `g` back. Redoing it afterwards
/// (replaying the reversed frame that undo keeps, with the new colours) gives
/// the grids that `f` produced, and the frame that the redo records again,
/// reading each pixel just before writing it, is `f` itself.
pub proof fn lemma_undo_redo_round_trip(g: Grids, w: int, f: Seq<CanvasChange>)
    requires
        frame_valid(g, w, f),
    ensures
        rewind(apply_frame(g, w, f), w, f, false) == g,
        rewind(g, w, f.reverse(), true) == apply_frame(g, w, f),
        redo_record(g, w, f.reverse()) == f,
{
    lemma_rewind_restores(g, w, f);
    lemma_rewind_reverse(g, w, f);
    let r = f.reverse();
    let m = f.len() as int;
    assert forall|k: int| 0 <= k < m implies #[trigger] redo_record(g, w, r)[k] == f[k] by {
        assert(r.subrange(m - k, m) =~= f.take(k).reverse());
        lemma_rewind_reverse(g, w, f.take(k));
        lemma_frame_valid_at(g, w, f, k);
    }
    assert(redo_record(g, w, r) =~= f);
}

/// The frame that redoing `r` from `g` records: the changes of `r` from last
/// to first, each with the colour its pixel held just before the redo wrote it.
pub open spec fn redo_record(g: Grids, w: int, r: Seq<CanvasChange>) -> Seq<CanvasChange> {
    Seq::new(
        r.len(),
        |k: int|
            with_old(
                r[r.len() - 1 - k],
                read(rewind(g, w, r.subrange(r.len() - k, r.len() as int), true), w, r[r.len() - 1 - k]),
            ),
    )
}

} // verus!
