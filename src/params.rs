//! Shape and canonical flat order of a dense layer stack.
//!
//! The element type is generic: the numeric work is done by the caller on
//! the values, the library keeps their layout.
use vstd::prelude::*;

verus! {

/// Activation applied after a layer's affine map.
#[derive(Clone, Copy, Debug, PartialEq, Eq, Structural)]
pub enum Activation {
    Relu,
    Softmax,
}

/// Cost function of the whole network.
#[derive(Clone, Copy, Debug, PartialEq, Eq, Structural)]
pub enum Cost {
    SquaredError,
    CategoricalCrossEntropy,
}

/// One dense layer: `rows` outputs, `cols` inputs; `weights` holds the
/// `rows x cols` matrix in column-major order, `biases` one entry per output.
pub struct Layer<T> {
    pub rows: usize,
    pub cols: usize,
    pub weights: Vec<T>,
    pub biases: Vec<T>,
    pub activation: Activation,
}

impl<T> Layer<T> {
    pub open spec fn wf(&self) -> bool {
        &&& self.weights@.len() == self.rows * self.cols
        &&& self.biases@.len() == self.rows
    }

    /// The layer's parameters: all weights, then all biases.
    pub open spec fn params(&self) -> Seq<T> {
        self.weights@ + self.biases@
    }
}

/// Parameters of a stack of layers in canonical order: the layers from last
/// to first, each contributing its weights then its biases.
pub open spec fn canon_of<T>(layers: Seq<Layer<T>>) -> Seq<T>
    decreases layers.len(),
{
    if layers.len() == 0 {
        Seq::empty()
    } else {
        canon_of(layers.skip(1)) + layers[0].params()
    }
}

/// The layout of a stack: for each layer its size and activation.
pub open spec fn shape_of<T>(layers: Seq<Layer<T>>) -> Seq<(usize, usize, Activation)> {
    layers.map_values(|l: Layer<T>| (l.rows, l.cols, l.activation))
}

/// `base` with its first entries replaced by `vals`, as far as both reach.
pub open spec fn splice_prefix<T>(base: Seq<T>, vals: Seq<T>) -> Seq<T> {
    let k: int = if vals.len() < base.len() { vals.len() as int } else { base.len() as int };
    vals.take(k) + base.skip(k)
}

/// A network's parameters and its cost function.
pub struct NetConf<T> {
    layers: Vec<Layer<T>>,
    cost: Cost,
}

impl<T> NetConf<T> {
    pub closed spec fn spec_layers(&self) -> Seq<Layer<T>> {
        self.layers@
    }

    pub closed spec fn spec_cost(&self) -> Cost {
        self.cost
    }

    /// At least one layer, each well formed, each taking as many inputs as
    /// the one before gives outputs, and a softmax at the end.
    pub open spec fn wf(&self) -> bool {
        let ls = self.spec_layers();
        &&& ls.len() >= 1
        &&& forall|i: int| 0 <= i < ls.len() ==> #[trigger] ls[i].wf()
        &&& forall|i: int| 0 < i < ls.len() ==> #[trigger] ls[i].cols == ls[i - 1].rows
        &&& ls.last().activation == Activation::Softmax
    }

    /// The canonical parameter vector.
    pub open spec fn canon(&self) -> Seq<T> {
        canon_of(self.spec_layers())
    }

    pub open spec fn shape(&self) -> Seq<(usize, usize, Activation)> {
        shape_of(self.spec_layers())
    }
}

/// Replacing a prefix of a concatenation: the first part takes what it can,
/// the second part takes the rest.
pub proof fn lemma_splice_concat<T>(a: Seq<T>, b: Seq<T>, v: Seq<T>)
    ensures
        splice_prefix(a + b, v) == splice_prefix(a, v) + splice_prefix(
            b,
            v.skip(if v.len() < a.len() { v.len() as int } else { a.len() as int }),
        ),
{
    let ka: int = if v.len() < a.len() { v.len() as int } else { a.len() as int };
    let rest = v.skip(ka);
    let kb: int = if rest.len() < b.len() { rest.len() as int } else { b.len() as int };
    let k: int = if v.len() < (a + b).len() { v.len() as int } else { (a + b).len() as int };
    assert(k == ka + kb);
    assert(splice_prefix(a + b, v) =~= splice_prefix(a, v) + splice_prefix(b, rest));
}

/// Spliced values keep the length of the base.
pub proof fn lemma_splice_len<T>(base: Seq<T>, v: Seq<T>)
    ensures
        splice_prefix(base, v).len() == base.len(),
{
}

/// Overwriting a sequence with itself leaves it as it was.
pub proof fn lemma_splice_self<T>(s: Seq<T>)
    ensures
        splice_prefix(s, s) == s,
{
    assert(splice_prefix(s, s) =~= s);
}

/// Dropping the first layer of a suffix of a stack leaves the next suffix.
proof fn lemma_canon_step<T>(s: Seq<Layer<T>>, i: int)
    requires
        0 <= i < s.len(),
    ensures
        canon_of(s.subrange(i, s.len() as int)) == canon_of(s.subrange(i + 1, s.len() as int))
            + s[i].params(),
{
    assert(s.subrange(i, s.len() as int).skip(1) =~= s.subrange(i + 1, s.len() as int));
}

/// Appends all of `src` to `out`.
fn append_all<T: Copy>(out: &mut Vec<T>, src: &Vec<T>)
    ensures
        final(out)@ == old(out)@ + src@,
{
    let mut j: usize = 0;
    while j < src.len()
        invariant
            j <= src@.len(),
            out@ == old(out)@ + src@.take(j as int),
        decreases src@.len() - j,
    {
        out.push(src[j]);
        j = j + 1;
        assert(out@ =~= old(out)@ + src@.take(j as int));
    }
    assert(src@.take(j as int) =~= src@);
}

/// A copy of `dst` whose first entries are taken from `src` from `start` on;
/// also the position in `src` after the last value used.
fn overwrite_from<T: Copy>(dst: &Vec<T>, src: &Vec<T>, start: usize) -> (r: (Vec<T>, usize))
    requires
        start <= src@.len(),
    ensures
        r.0@ == splice_prefix(dst@, src@.skip(start as int)),
        r.1 == start + (if src@.len() - start < dst@.len() {
            src@.len() - start
        } else {
            dst@.len() as int
        }),
{
    let mut out: Vec<T> = Vec::new();
    let mut j: usize = 0;
    let mut pos: usize = start;
    let ghost rest = src@.skip(start as int);
    while j < dst.len()
        invariant
            j <= dst@.len(),
            start <= pos <= src@.len(),
            rest == src@.skip(start as int),
            pos - start == (if rest.len() < j { rest.len() as int } else { j as int }),
            out@ == rest.take(pos - start) + dst@.subrange(pos - start, j as int),
        decreases dst@.len() - j,
    {
        if pos < src.len() {
            out.push(src[pos]);
            pos = pos + 1;
        } else {
            out.push(dst[j]);
        }
        j = j + 1;
        assert(out@ =~= rest.take(pos - start) + dst@.subrange(pos - start, j as int));
    }
    assert(out@ =~= splice_prefix(dst@, rest));
    (out, pos)
}

impl<T: Copy> NetConf<T> {
    /// Builds a stack from its layer sizes (`sizes[0]` inputs, then each
    /// layer's outputs) and each layer's weights, with zero biases, ReLU on
    /// every layer but the last, softmax on the last, and cross-entropy cost.
    /// `None` where the sizes name no layer or the weights do not fit them.
    pub fn new(sizes: &Vec<usize>, weights: &Vec<Vec<T>>, zero: T) -> (r: Option<NetConf<T>>)
        ensures
            r is Some <==> (sizes@.len() >= 2 && weights@.len() == sizes@.len() - 1 && forall|
                i: int,
            |
                0 <= i < weights@.len() ==> #[trigger] weights@[i]@.len() == sizes@[i + 1]
                    * sizes@[i]),
            r matches Some(c) ==> {
                &&& c.wf()
                &&& c.spec_cost() == Cost::CategoricalCrossEntropy
                &&& c.spec_layers().len() == weights@.len()
                &&& forall|i: int|
                    0 <= i < weights@.len() ==> {
                        let l = #[trigger] c.spec_layers()[i];
                        &&& l.rows == sizes@[i + 1]
                        &&& l.cols == sizes@[i]
                        &&& l.weights@ == weights@[i]@
                        &&& l.biases@ == Seq::new(sizes@[i + 1] as nat, |k: int| zero)
                        &&& l.activation == (if i == weights@.len() - 1 {
                            Activation::Softmax
                        } else {
                            Activation::Relu
                        })
                    }
            },
    {
        if sizes.len() < 2 || weights.len() != sizes.len() - 1 {
            return None;
        }
        let n = weights.len();
        let ghost w0 = weights@;
        let mut layers: Vec<Layer<T>> = Vec::new();
        let mut i: usize = 0;
        while i < n
            invariant
                n == w0.len(),
                sizes@.len() == n + 1,
                i <= n,
                w0 == weights@,
                layers@.len() == i,
                forall|k: int| 0 <= k < i ==> #[trigger] w0[k]@.len() == sizes@[k + 1] * sizes@[k],
                forall|k: int|
                    0 <= k < i ==> {
                        let l = #[trigger] layers@[k];
                        &&& l.rows == sizes@[k + 1]
                        &&& l.cols == sizes@[k]
                        &&& l.weights@ == w0[k]@
                        &&& l.biases@ == Seq::new(sizes@[k + 1] as nat, |j: int| zero)
                        &&& l.activation == (if k == n - 1 {
                            Activation::Softmax
                        } else {
                            Activation::Relu
                        })
                    },
            decreases n - i,
        {
            let mut w: Vec<T> = Vec::new();
            append_all(&mut w, &weights[i]);
            assert(w@ =~= w0[i as int]@);
            let rows = sizes[i + 1];
            let cols = sizes[i];
            let wl = w.len();
            let fits = match rows.checked_mul(cols) {
                Some(p) => p == wl,
                None => false,
            };
            if !fits {
                assert(w0[i as int]@.len() != sizes@[i + 1] * sizes@[i as int]);
                return None;
            }
            let mut biases: Vec<T> = Vec::new();
            let mut j: usize = 0;
            while j < rows
                invariant
                    j <= rows,
                    biases@ == Seq::new(j as nat, |k: int| zero),
                decreases rows - j,
            {
                biases.push(zero);
                j = j + 1;
                assert(biases@ =~= Seq::new(j as nat, |k: int| zero));
            }
            let activation = if i == n - 1 {
                Activation::Softmax
            } else {
                Activation::Relu
            };
            layers.push(Layer { rows, cols, weights: w, biases, activation });
            i = i + 1;
        }
        let c = NetConf { layers, cost: Cost::CategoricalCrossEntropy };
        assert(forall|k: int| 0 <= k < n ==> #[trigger] c.layers@[k].wf());
        Some(c)
    }

    /// The canonical parameter vector: layers from last to first, each with
    /// its weights (column-major) followed by its biases.
    pub fn flatten(&self) -> (r: Vec<T>)
        ensures
            r@ == self.canon(),
    {
        let n = self.layers.len();
        let mut out: Vec<T> = Vec::new();
        let mut i: usize = n;
        while i > 0
            invariant
                i <= n,
                n == self.layers@.len(),
                out@ == canon_of(self.layers@.subrange(i as int, n as int)),
            decreases i,
        {
            i = i - 1;
            proof {
                lemma_canon_step(self.layers@, i as int);
            }
            let ghost before = out@;
            append_all(&mut out, &self.layers[i].weights);
            append_all(&mut out, &self.layers[i].biases);
            assert(out@ =~= before + self.layers@[i as int].params());
        }
        assert(self.layers@.subrange(0, n as int) =~= self.layers@);
        out
    }

    /// Overwrites the parameters in canonical order from `values`. Where
    /// `values` is shorter than the parameter vector only that prefix
    /// changes; values past its end are ignored.
    pub fn load_iter(&mut self, values: &Vec<T>)
        requires
            old(self).wf(),
        ensures
            final(self).wf(),
            final(self).shape() == old(self).shape(),
            final(self).spec_cost() == old(self).spec_cost(),
            final(self).canon() == splice_prefix(old(self).canon(), values@),
    {
        let n = self.layers.len();
        let ghost ol = self.layers@;
        let mut i: usize = n;
        let mut pos: usize = 0;
        while i > 0
            invariant
                i <= n,
                n == ol.len(),
                self.layers@.len() == n,
                self.cost == old(self).cost,
                ol == old(self).layers@,
                old(self).wf(),
                forall|k: int| 0 <= k < i ==> #[trigger] self.layers@[k] == ol[k],
                forall|k: int|
                    0 <= k < n ==> {
                        &&& (#[trigger] self.layers@[k]).rows == ol[k].rows
                        &&& self.layers@[k].cols == ol[k].cols
                        &&& self.layers@[k].activation == ol[k].activation
                        &&& self.layers@[k].wf()
                    },
                pos <= values@.len(),
                pos == (if values@.len() < canon_of(ol.subrange(i as int, n as int)).len() {
                    values@.len() as int
                } else {
                    canon_of(ol.subrange(i as int, n as int)).len() as int
                }),
                canon_of(self.layers@.subrange(i as int, n as int)) == splice_prefix(
                    canon_of(ol.subrange(i as int, n as int)),
                    values@,
                ),
            decreases i,
        {
            i = i - 1;
            let ghost cur = self.layers@;
            let ghost old_tail = canon_of(ol.subrange(i + 1, n as int));
            proof {
                lemma_canon_step(ol, i as int);
                lemma_canon_step(cur, i as int);
                assert(cur[i as int] == ol[i as int]);
                lemma_splice_concat(old_tail, ol[i as int].params(), values@);
                lemma_splice_concat(
                    ol[i as int].weights@,
                    ol[i as int].biases@,
                    values@.skip(pos as int),
                );
            }
            let (new_w, p1) = overwrite_from(&self.layers[i].weights, values, pos);
            let (new_b, p2) = overwrite_from(&self.layers[i].biases, values, p1);
            proof {
                assert(values@.skip(pos as int).skip(p1 - pos) =~= values@.skip(p1 as int));
            }
            let layer = Layer {
                rows: self.layers[i].rows,
                cols: self.layers[i].cols,
                weights: new_w,
                biases: new_b,
                activation: self.layers[i].activation,
            };
            self.layers.set(i, layer);
            pos = p2;
            proof {
                assert(self.layers@.subrange(i + 1, n as int) =~= cur.subrange(i + 1, n as int));
                lemma_canon_step(self.layers@, i as int);
                assert(self.layers@[i as int].params() =~= new_w@ + new_b@);
            }
        }
        assert(self.layers@.subrange(0, n as int) =~= self.layers@);
        assert(ol.subrange(0, n as int) =~= ol);
        assert(self.shape() =~= old(self).shape());
    }
}

impl<T> NetConf<T> {
    /// The layers in stack order.
    pub fn layers(&self) -> (r: &Vec<Layer<T>>)
        ensures
            r@ == self.spec_layers(),
    {
        &self.layers
    }

    /// The cost function.
    pub fn cost(&self) -> (r: Cost)
        ensures
            r == self.spec_cost(),
    {
        self.cost
    }

    /// Each layer's weights and biases as sequences.
    pub open spec fn values(&self) -> Seq<(Seq<T>, Seq<T>)> {
        self.spec_layers().map_values(|l: Layer<T>| (l.weights@, l.biases@))
    }

    /// The sizes of the layer boundaries: the input size, then each layer's
    /// output size.
    pub fn sizes(&self) -> (r: Vec<usize>)
        requires
            self.wf(),
        ensures
            r@ == seq![self.spec_layers()[0].cols] + self.spec_layers().map_values(
                |l: Layer<T>| l.rows,
            ),
    {
        let mut r: Vec<usize> = Vec::new();
        r.push(self.layers[0].cols);
        let mut i: usize = 0;
        while i < self.layers.len()
            invariant
                i <= self.layers@.len(),
                r@ == seq![self.layers@[0].cols] + self.layers@.take(i as int).map_values(
                    |l: Layer<T>| l.rows,
                ),
            decreases self.layers@.len() - i,
        {
            r.push(self.layers[i].rows);
            i = i + 1;
            assert(r@ =~= seq![self.layers@[0].cols] + self.layers@.take(i as int).map_values(
                |l: Layer<T>| l.rows,
            ));
        }
        assert(self.layers@.take(i as int) =~= self.layers@);
        r
    }
}

/// Two stacks of the same layout have parameter vectors of the same length.
proof fn lemma_canon_len<T>(a: Seq<Layer<T>>, b: Seq<Layer<T>>)
    requires
        shape_of(a) == shape_of(b),
        forall|i: int| 0 <= i < a.len() ==> #[trigger] a[i].wf(),
        forall|i: int| 0 <= i < b.len() ==> #[trigger] b[i].wf(),
    ensures
        canon_of(a).len() == canon_of(b).len(),
    decreases a.len(),
{
    assert(a.len() == shape_of(a).len());
    assert(b.len() == shape_of(b).len());
    if a.len() > 0 {
        assert(shape_of(a.skip(1)) =~= shape_of(a).skip(1));
        assert(shape_of(b.skip(1)) =~= shape_of(b).skip(1));
        assert(shape_of(a)[0] == shape_of(b)[0]);
        assert(a[0].wf() && b[0].wf());
        lemma_canon_len(a.skip(1), b.skip(1));
    }
}

/// Two stacks of the same layout with the same parameter vector hold the
/// same weights and biases in every layer.
proof fn lemma_canon_determines<T>(a: Seq<Layer<T>>, b: Seq<Layer<T>>)
    requires
        shape_of(a) == shape_of(b),
        forall|i: int| 0 <= i < a.len() ==> #[trigger] a[i].wf(),
        forall|i: int| 0 <= i < b.len() ==> #[trigger] b[i].wf(),
        canon_of(a) == canon_of(b),
    ensures
        a.map_values(|l: Layer<T>| (l.weights@, l.biases@)) == b.map_values(
            |l: Layer<T>| (l.weights@, l.biases@),
        ),
    decreases a.len(),
{
    assert(a.len() == shape_of(a).len());
    assert(b.len() == shape_of(b).len());
    if a.len() > 0 {
        assert(shape_of(a.skip(1)) =~= shape_of(a).skip(1));
        assert(shape_of(b.skip(1)) =~= shape_of(b).skip(1));
        assert(shape_of(a)[0] == shape_of(b)[0]);
        assert(a[0].wf() && b[0].wf());
        lemma_canon_len(a.skip(1), b.skip(1));
        let ta = canon_of(a.skip(1));
        let tb = canon_of(b.skip(1));
        assert(canon_of(a) == ta + a[0].params());
        assert(canon_of(b) == tb + b[0].params());
        assert(ta =~= canon_of(a).take(ta.len() as int));
        assert(tb =~= canon_of(b).take(tb.len() as int));
        assert(a[0].params() =~= canon_of(a).skip(ta.len() as int));
        assert(b[0].params() =~= canon_of(b).skip(tb.len() as int));
        assert(a[0].weights@ =~= a[0].params().take(a[0].weights@.len() as int));
        assert(b[0].weights@ =~= b[0].params().take(b[0].weights@.len() as int));
        assert(a[0].biases@ =~= a[0].params().skip(a[0].weights@.len() as int));
        assert(b[0].biases@ =~= b[0].params().skip(b[0].weights@.len() as int));
        lemma_canon_determines(a.skip(1), b.skip(1));
        let fa = a.map_values(|l: Layer<T>| (l.weights@, l.biases@));
        let fb = b.map_values(|l: Layer<T>| (l.weights@, l.biases@));
        assert(a.skip(1).map_values(|l: Layer<T>| (l.weights@, l.biases@)) =~= fa.skip(1));
        assert(b.skip(1).map_values(|l: Layer<T>| (l.weights@, l.biases@)) =~= fb.skip(1));
        assert(fa =~= fb) by {
            assert forall|i: int| 0 <= i < fa.len() implies fa[i] == fb[i] by {
                if i > 0 {
                    assert(fa[i] == fa.skip(1)[i - 1]);
                    assert(fb[i] == fb.skip(1)[i - 1]);
                }
            }
        }
    }
}

/// Loading a network's own flattened parameters back into it changes
/// nothing: `d` is any result that `load_iter` may give on `c` with the
/// values of `c.flatten()`, and it has the layout, the cost and every
/// weight and bias of `c`.
pub proof fn lemma_round_trip<T>(c: NetConf<T>, d: NetConf<T>)
    requires
        c.wf(),
        d.wf(),
        d.shape() == c.shape(),
        d.spec_cost() == c.spec_cost(),
        d.canon() == splice_prefix(c.canon(), c.canon()),
    ensures
        d.values() == c.values(),
        d.shape() == c.shape(),
        d.spec_cost() == c.spec_cost(),
        d.canon() == c.canon(),
{
    lemma_splice_self(c.canon());
    lemma_canon_determines(d.spec_layers(), c.spec_layers());
}

/// Loading a vector shorter than the parameter count changes exactly the
/// first entries in canonical order, one per value, and leaves the rest.
pub proof fn lemma_truncation<T>(c: NetConf<T>, d: NetConf<T>, v: Seq<T>)
    requires
        c.wf(),
        v.len() < c.canon().len(),
        d.canon() == splice_prefix(c.canon(), v),
    ensures
        d.canon().len() == c.canon().len(),
        forall|i: int| 0 <= i < v.len() ==> #[trigger] d.canon()[i] == v[i],
        forall|i: int| v.len() <= i < c.canon().len() ==> #[trigger] d.canon()[i] == c.canon()[i],
{
    lemma_splice_len(c.canon(), v);
    assert forall|i: int| v.len() <= i < c.canon().len() implies #[trigger] d.canon()[i]
        == c.canon()[i] by {
        assert(d.canon()[i] == c.canon().skip(v.len() as int)[i - v.len()]);
    }
}

/// Parameters laid out in canonical order from per-layer parts given in
/// stack order: the parts of the last layer first, each layer's weight part
/// before its bias part.
pub open spec fn layout_of<T>(ws: Seq<Seq<T>>, bs: Seq<Seq<T>>) -> Seq<T>
    decreases ws.len(),
{
    if ws.len() == 0 {
        Seq::empty()
    } else {
        layout_of(ws.skip(1), bs.skip(1)) + ws[0] + bs[0]
    }
}

/// Lays out per-layer values, such as the gradients of each layer's weights
/// and biases, in the canonical parameter order.
pub fn canonical_layout<T: Copy>(ws: &Vec<Vec<T>>, bs: &Vec<Vec<T>>) -> (r: Vec<T>)
    requires
        ws@.len() == bs@.len(),
    ensures
        r@ == layout_of(ws@.map_values(|w: Vec<T>| w@), bs@.map_values(|b: Vec<T>| b@)),
{
    let n = ws.len();
    let ghost wv = ws@.map_values(|w: Vec<T>| w@);
    let ghost bv = bs@.map_values(|b: Vec<T>| b@);
    let mut out: Vec<T> = Vec::new();
    let mut i: usize = n;
    while i > 0
        invariant
            i <= n,
            n == ws@.len(),
            n == bs@.len(),
            wv == ws@.map_values(|w: Vec<T>| w@),
            bv == bs@.map_values(|b: Vec<T>| b@),
            out@ == layout_of(wv.subrange(i as int, n as int), bv.subrange(i as int, n as int)),
        decreases i,
    {
        i = i - 1;
        proof {
            assert(wv.subrange(i as int, n as int).skip(1) =~= wv.subrange(i + 1, n as int));
            assert(bv.subrange(i as int, n as int).skip(1) =~= bv.subrange(i + 1, n as int));
        }
        let ghost before = out@;
        append_all(&mut out, &ws[i]);
        append_all(&mut out, &bs[i]);
        assert(out@ =~= before + wv[i as int] + bv[i as int]);
    }
    assert(wv.subrange(0, n as int) =~= wv);
    assert(bv.subrange(0, n as int) =~= bv);
    out
}

/// Laying out a stack's own weights and biases gives its parameter vector:
/// values computed per layer and laid out canonically line up entry for
/// entry with `flatten`.
pub proof fn lemma_layout_is_canon<T>(layers: Seq<Layer<T>>)
    ensures
        layout_of(
            layers.map_values(|l: Layer<T>| l.weights@),
            layers.map_values(|l: Layer<T>| l.biases@),
        ) == canon_of(layers),
    decreases layers.len(),
{
    if layers.len() > 0 {
        lemma_layout_is_canon(layers.skip(1));
        assert(layers.map_values(|l: Layer<T>| l.weights@).skip(1) =~= layers.skip(1).map_values(
            |l: Layer<T>| l.weights@,
        ));
        assert(layers.map_values(|l: Layer<T>| l.biases@).skip(1) =~= layers.skip(1).map_values(
            |l: Layer<T>| l.biases@,
        ));
        assert(canon_of(layers) =~= canon_of(layers.skip(1)) + layers[0].weights@
            + layers[0].biases@);
    }
}

/// Cached values at each layer boundary: the input, then each layer's
/// output. Slots keep their sizes.
pub struct NetState<T> {
    slots: Vec<Vec<T>>,
}

impl<T> View for NetState<T> {
    type V = Seq<Seq<T>>;

    closed spec fn view(&self) -> Seq<Seq<T>> {
        self.slots@.map_values(|v: Vec<T>| v@)
    }
}

impl<T: Copy> NetState<T> {
    /// One slot per boundary size, each filled with `zero`.
    pub fn new(sizes: &Vec<usize>, zero: T) -> (r: NetState<T>)
        ensures
            r@ == sizes@.map_values(|n: usize| Seq::new(n as nat, |k: int| zero)),
    {
        let mut slots: Vec<Vec<T>> = Vec::new();
        let mut i: usize = 0;
        while i < sizes.len()
            invariant
                i <= sizes@.len(),
                slots@.len() == i,
                slots@.map_values(|v: Vec<T>| v@) == sizes@.take(i as int).map_values(
                    |n: usize| Seq::new(n as nat, |k: int| zero),
                ),
            decreases sizes@.len() - i,
        {
            let mut cells: Vec<T> = Vec::new();
            let mut j: usize = 0;
            while j < sizes[i]
                invariant
                    i < sizes@.len(),
                    j <= sizes@[i as int],
                    cells@ == Seq::new(j as nat, |k: int| zero),
                decreases sizes@[i as int] - j,
            {
                cells.push(zero);
                j = j + 1;
                assert(cells@ =~= Seq::new(j as nat, |k: int| zero));
            }
            let ghost prev = slots@;
            let ghost row = cells@;
            assert(row =~= Seq::new(sizes@[i as int] as nat, |k: int| zero));
            slots.push(cells);
            i = i + 1;
            let ghost lhs = slots@.map_values(|v: Vec<T>| v@);
            let ghost rhs = sizes@.take(i as int).map_values(
                |n: usize| Seq::new(n as nat, |k: int| zero),
            );
            assert forall|k: int| 0 <= k < i implies lhs[k] == rhs[k] by {
                if k < i - 1 {
                    assert(lhs[k] == prev.map_values(|v: Vec<T>| v@)[k]);
                    assert(sizes@.take(i as int)[k] == sizes@.take(i - 1)[k]);
                } else {
                    assert(lhs[k] == row);
                }
            }
            assert(lhs =~= rhs);
        }
        assert(sizes@.take(i as int) =~= sizes@);
        NetState { slots }
    }

    /// The slots, input first.
    pub fn slots(&self) -> (r: &Vec<Vec<T>>)
        ensures
            r@.map_values(|v: Vec<T>| v@) == self@,
    {
        &self.slots
    }

    /// Replaces slot `i` with a vector of the same size.
    pub fn set_slot(&mut self, i: usize, v: Vec<T>)
        requires
            i < old(self)@.len(),
            v@.len() == old(self)@[i as int].len(),
        ensures
            final(self)@ == old(self)@.update(i as int, v@),
    {
        self.slots.set(i, v);
        assert(self@ =~= old(self)@.update(i as int, v@));
    }
}

} // verus!
