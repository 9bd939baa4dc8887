use vstd::prelude::*;
use crate::color::Rgba;

verus! {

/// One layer: a name, a visibility flag and a dense grid of pixels stored
/// row by row, where `None` is an unpainted (fully transparent) pixel.
pub struct Layer {
    pub name: String,
    pub data: Vec<Option<Rgba>>,
    pub visible: bool,
}

/// The layered pixel store. Layer 0 is the bottom of the stack.
pub struct CanvasState {
    pub width: usize,
    pub height: usize,
    pub layers: Vec<Layer>,
    pub active_layer_index: usize,
}

/// Index of pixel `(x, y)` in a layer of the given width.
pub open spec fn cell(width: int, x: int, y: int) -> int {
    y * width + x
}

pub proof fn lemma_cell_in_bounds(w: int, h: int, x: int, y: int)
    requires
        0 <= x < w,
        0 <= y < h,
    ensures
        0 <= cell(w, x, y) < w * h,
{
    assert(0 <= y * w + x < w * h) by (nonlinear_arith)
        requires
            0 <= x < w,
            0 <= y < h,
    ;
}

/// A run of `n` unpainted pixels.
pub fn blank_pixels(n: usize) -> (v: Vec<Option<Rgba>>)
    ensures
        v@ == Seq::new(n as nat, |i: int| None::<Rgba>),
{
    let mut v: Vec<Option<Rgba>> = Vec::with_capacity(n);
    let mut i: usize = 0;
    while i < n
        invariant
            i <= n,
            v@ == Seq::new(i as nat, |k: int| None::<Rgba>),
        decreases n - i,
    {
        v.push(None);
        i = i + 1;
        assert(v@ =~= Seq::new(i as nat, |k: int| None::<Rgba>));
    }
    v
}

impl CanvasState {
    pub open spec fn wf(&self) -> bool {
        &&& 1 <= self.layers.len()
        &&& self.active_layer_index < self.layers.len()
        &&& self.width * self.height <= usize::MAX
        &&& forall|i: int|
            0 <= i < self.layers.len() ==> #[trigger] self.layers[i].data.len() == self.width
                * self.height
    }

    pub open spec fn in_canvas(&self, x: int, y: int) -> bool {
        0 <= x < self.width && 0 <= y < self.height
    }

    /// The pixel grids of all layers, bottom first.
    pub open spec fn grids(&self) -> Seq<Seq<Option<Rgba>>> {
        self.layers@.map_values(|l: Layer| l.data@)
    }

    /// The pixel at `(x, y)` of layer `k`.
    pub open spec fn pixel(&self, k: int, x: int, y: int) -> Option<Rgba> {
        self.layers[k].data@[cell(self.width as int, x, y)]
    }

    /// The topmost painted pixel among the visible layers below index `k`.
    pub open spec fn composite_below(&self, k: int, x: int, y: int) -> Option<Rgba>
        decreases k,
    {
        if k <= 0 {
            None
        } else if self.layers[k - 1].visible && self.pixel(k - 1, x, y).is_some() {
            self.pixel(k - 1, x, y)
        } else {
            self.composite_below(k - 1, x, y)
        }
    }

    /// What the canvas shows at `(x, y)`: the topmost visible painted pixel.
    pub open spec fn composite(&self, x: int, y: int) -> Option<Rgba> {
        if self.in_canvas(x, y) {
            self.composite_below(self.layers.len() as int, x, y)
        } else {
            None
        }
    }

    /// A canvas with one visible, unpainted layer named "Background".
    pub fn new(width: usize, height: usize) -> (c: CanvasState)
        requires
            width * height <= usize::MAX,
        ensures
            c.wf(),
            c.width == width,
            c.height == height,
            c.layers.len() == 1,
            c.active_layer_index == 0,
            c.layers[0].visible,
            c.layers[0].name@ == "Background"@,
            c.layers[0].data@ == Seq::new((width * height) as nat, |i: int| None::<Rgba>),
    {
        let layer = Layer {
            name: "Background".to_owned(),
            data: blank_pixels(width * height),
            visible: true,
        };
        let mut layers: Vec<Layer> = Vec::new();
        layers.push(layer);
        CanvasState { width, height, layers, active_layer_index: 0 }
    }

    /// Composite read: the topmost visible layer's painted pixel at `(x, y)`,
    /// `None` where no visible layer paints it or outside the canvas.
    pub fn get(&self, x: usize, y: usize) -> (p: Option<Rgba>)
        requires
            self.wf(),
        ensures
            p == self.composite(x as int, y as int),
    {
        if x < self.width && y < self.height {
            proof {
                lemma_cell_in_bounds(self.width as int, self.height as int, x as int, y as int);
            }
            let idx = y * self.width + x;
            let mut k: usize = self.layers.len();
            while k > 0
                invariant
                    self.wf(),
                    k <= self.layers.len(),
                    idx == cell(self.width as int, x as int, y as int),
                    idx < self.width * self.height,
                    self.composite(x as int, y as int) == self.composite_below(
                        self.layers.len() as int,
                        x as int,
                        y as int,
                    ),
                    self.composite_below(self.layers.len() as int, x as int, y as int)
                        == self.composite_below(k as int, x as int, y as int),
                decreases k,
            {
                let layer = &self.layers[k - 1];
                assert(layer.data.len() == self.width * self.height);
                if layer.visible {
                    if let Some(c) = layer.data[idx] {
                        return Some(c);
                    }
                }
                k = k - 1;
            }
            None
        } else {
            None
        }
    }

    /// The pixel of layer `layer` at `(x, y)`, `None` outside the canvas.
    pub fn get_from_layer(&self, layer: usize, x: usize, y: usize) -> (p: Option<Rgba>)
        requires
            self.wf(),
        ensures
            p == (if self.in_canvas(x as int, y as int) && layer < self.layers.len() {
                self.pixel(layer as int, x as int, y as int)
            } else {
                None
            }),
    {
        if x < self.width && y < self.height && layer < self.layers.len() {
            proof {
                lemma_cell_in_bounds(self.width as int, self.height as int, x as int, y as int);
            }
            assert(self.layers[layer as int].data.len() == self.width * self.height);
            self.layers[layer].data[y * self.width + x]
        } else {
            None
        }
    }

    /// The pixel of the active layer at `(x, y)`, `None` outside the canvas.
    pub fn get_from_active_layer(&self, x: usize, y: usize) -> (p: Option<Rgba>)
        requires
            self.wf(),
        ensures
            p == (if self.in_canvas(x as int, y as int) {
                self.pixel(self.active_layer_index as int, x as int, y as int)
            } else {
                None
            }),
    {
        self.get_from_layer(self.active_layer_index, x, y)
    }

    /// Writes one pixel of layer `layer`; nothing happens outside the canvas
    /// or for a layer that does not exist.
    pub fn write_to_layer(&mut self, layer: usize, x: usize, y: usize, color: Option<Rgba>)
        requires
            old(self).wf(),
        ensures
            final(self).wf(),
            final(self).width == old(self).width,
            final(self).height == old(self).height,
            final(self).active_layer_index == old(self).active_layer_index,
            final(self).layers.len() == old(self).layers.len(),
            forall|k: int|
                0 <= k < old(self).layers.len() ==> (#[trigger] final(self).layers[k]).name
                    == old(self).layers[k].name && final(self).layers[k].visible == old(self).layers[k].visible,
            final(self).grids() == (if old(self).in_canvas(x as int, y as int) && layer < old(self).layers.len() {
                old(self).grids().update(
                    layer as int,
                    old(self).grids()[layer as int].update(
                        cell(old(self).width as int, x as int, y as int),
                        color,
                    ),
                )
            } else {
                old(self).grids()
            }),
    {
        if x < self.width && y < self.height && layer < self.layers.len() {
            proof {
                lemma_cell_in_bounds(self.width as int, self.height as int, x as int, y as int);
            }
            let idx = y * self.width + x;
            assert(self.layers[layer as int].data.len() == self.width * self.height);
            self.layers[layer].data[idx] = color;
            assert forall|i: int| 0 <= i < self.layers.len() implies #[trigger] self.layers[i].data.len()
                == self.width * self.height by {
                if i != layer {
                    assert(self.layers[i] == old(self).layers[i]);
                }
            }
            assert(self.grids() =~= old(self).grids().update(
                layer as int,
                old(self).grids()[layer as int].update(idx as int, color),
            ));
        }
    }

    /// Writes one pixel of the active layer; nothing happens outside the canvas.
    pub fn set(&mut self, x: usize, y: usize, color: Option<Rgba>)
        requires
            old(self).wf(),
        ensures
            final(self).wf(),
            final(self).width == old(self).width,
            final(self).height == old(self).height,
            final(self).active_layer_index == old(self).active_layer_index,
            final(self).layers.len() == old(self).layers.len(),
            forall|k: int|
                0 <= k < old(self).layers.len() ==> (#[trigger] final(self).layers[k]).name
                    == old(self).layers[k].name && final(self).layers[k].visible == old(self).layers[k].visible,
            final(self).grids() == (if old(self).in_canvas(x as int, y as int) {
                old(self).grids().update(
                    old(self).active_layer_index as int,
                    old(self).grids()[old(self).active_layer_index as int].update(
                        cell(old(self).width as int, x as int, y as int),
                        color,
                    ),
                )
            } else {
                old(self).grids()
            }),
    {
        let layer = self.active_layer_index;
        self.write_to_layer(layer, x, y, color);
    }
}

} // verus!
