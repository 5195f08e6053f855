use vstd::prelude::*;
use crate::functions::{broadcast, broadcast_data, matmul, extends, node_is, folds, mat_row, mat_col};
use crate::shape::shape_size;
use crate::graph::Graph;
use crate::ops::{Op, Add, MatMul};
use crate::shape::lemma_size_two;
use crate::variable::filled;

verus! {

/// A fully connected layer: `x @ weight + bias`, with the bias replicated
/// over the rows of `x`. Its parameters are two leaf tensors of a graph.
pub struct Linear {
    pub weight: usize,
    pub bias: usize,
    pub in_size: usize,
    pub out_size: usize,
}

impl Linear {
    /// The parameters exist in `g`: `weight` is `[in_size, out_size]` and
    /// `bias` is `[1, out_size]`.
    pub open spec fn params_in<T: Copy>(&self, g: &Graph<T>) -> bool {
        &&& g.has(self.weight)
        &&& g.has(self.bias)
        &&& g.shape_of(self.weight) == seq![self.in_size, self.out_size]
        &&& g.shape_of(self.bias) == seq![1usize, self.out_size]
    }

    /// Adds the two parameters to `g` as zero-filled leaves; the caller draws
    /// the initial weights.
    pub fn new<T: Copy>(g: &mut Graph<T>, in_size: usize, out_size: usize) -> (r: Self)
        requires
            old(g).wf(),
            in_size * out_size <= usize::MAX,
        ensures
            extends(final(g), old(g), 2, 0),
            r.params_in(final(g)),
            r.weight == old(g).vars@.len(),
            r.bias == old(g).vars@.len() + 1,
            r.in_size == in_size,
            r.out_size == out_size,
            final(g).vars@[r.weight as int].parent is None,
            final(g).vars@[r.bias as int].parent is None,
            final(g).vars@[r.weight as int].data@ == filled((in_size * out_size) as nat, old(g).zero),
            final(g).vars@[r.bias as int].data@ == filled(out_size as nat, old(g).zero),
            final(g).vars@[r.weight as int].grad@ == filled((in_size * out_size) as nat, old(g).zero),
            final(g).vars@[r.bias as int].grad@ == filled(out_size as nat, old(g).zero),
            final(g).vars@[r.weight as int].need_grad,
            final(g).vars@[r.bias as int].need_grad,
    {
        let ws = vec![in_size, out_size];
        let bs = vec![1usize, out_size];
        proof {
            assert(ws@ =~= seq![in_size, out_size]);
            assert(bs@ =~= seq![1usize, out_size]);
            lemma_size_two(ws@);
            lemma_size_two(bs@);
        }
        proof {
            assert(shape_size(bs@) == 1 * out_size);
        }
        let weight = g.variable(ws);
        let ghost g1 = *g;
        let bias = g.variable(bs);
        proof {
            assert(g.vars@.subrange(0, old(g).vars@.len() as int) =~= old(g).vars@);
            assert(g.nodes@.subrange(0, old(g).nodes@.len() as int) =~= old(g).nodes@);
            assert(g.vars@[weight as int] == g1.vars@[weight as int]);
        }
        Linear { weight, bias, in_size, out_size }
    }

    /// Computes the layer applied to `x`, of shape `[batch, in_size]`, and
    /// records it: the matrix product `h` of `x` with `weight` (under `step`,
    /// see `matmul`), the bias broadcast to `[batch, out_size]`, and their
    /// elementwise sum under `add_rule`, of shape `[batch, out_size]`.
    pub fn call<T: Copy, S: Fn(T, T, T) -> T, A: Fn(T, T) -> T>(&self, g: &mut Graph<T>, x: usize, step: S, add_rule: A) -> (r: usize)
        requires
            old(g).wf(),
            self.params_in(old(g)),
            old(g).has(x),
            old(g).shape_of(x).len() == 2,
            old(g).shape_of(x)[1] == self.in_size,
            old(g).shape_of(x)[0] * self.out_size <= usize::MAX,
            forall|acc: T, a: T, b: T| step.requires((acc, a, b)),
            forall|a: T, b: T| add_rule.requires((a, b)),
        ensures
            extends(final(g), old(g), 3, 3),
            self.params_in(final(g)),
            r == old(g).vars@.len() + 2,
            final(g).shape_of(r) == seq![old(g).shape_of(x)[0], self.out_size],
            node_is(final(g), old(g).nodes@.len() as int, Op::MatMul((MatMul {})), seq![x, self.weight], r - 2),
            final(g).nodes@[old(g).nodes@.len() + 1int].op matches Op::Broadcast(bc)
                && bc.shape@ == seq![old(g).shape_of(x)[0], self.out_size],
            final(g).nodes@[old(g).nodes@.len() + 1int].inputs@ == seq![self.bias],
            final(g).nodes@[old(g).nodes@.len() + 1int].output == r - 1,
            node_is(final(g), old(g).nodes@.len() + 2int, Op::Add((Add {})), seq![(r - 2) as usize, (r - 1) as usize], r as int),
            forall|p: int| 0 <= p < old(g).shape_of(x)[0] * self.out_size ==> folds(
                step,
                old(g).zero,
                mat_row(old(g).vars@[x as int].data@, self.in_size as nat, p / (self.out_size as int)),
                mat_col(
                    old(g).vars@[self.weight as int].data@,
                    self.in_size as nat,
                    self.out_size as nat,
                    p % (self.out_size as int),
                ),
                #[trigger] final(g).vars@[r - 2].data@[p],
            ),
            final(g).vars@[r - 1].data@ == broadcast_data(
                old(g).vars@[self.bias as int].data@,
                old(g).shape_of(x)[0] as nat,
            ),
            forall|p: int| 0 <= p < old(g).shape_of(x)[0] * self.out_size ==> add_rule.ensures(
                (final(g).vars@[r - 2].data@[p], final(g).vars@[r - 1].data@[p]),
                #[trigger] final(g).vars@[r as int].data@[p],
            ),
    {
        let batch = g.vars[x].shape[0];
        let ghost g0 = *g;
        let h = matmul(g, x, self.weight, step);
        let ghost g1 = *g;
        let shape = vec![batch, self.out_size];
        proof {
            assert(shape@ =~= seq![batch, self.out_size]);
            lemma_size_two(shape@);
            assert(g.vars@[self.bias as int] == g0.vars@[self.bias as int]);
            assert(g.vars@[h as int] == g1.vars@[h as int]);
        }
        let b = broadcast(g, self.bias, shape);
        let ghost g2 = *g;
        proof {
            assert(g.vars@[h as int] == g1.vars@[h as int]);
        }
        let r = crate::functions::add(g, h, b, add_rule);
        proof {
            let v = g0.vars@.len() as int;
            let n = g0.nodes@.len() as int;
            assert(g1.vars@.subrange(0, v) == g0.vars@);
            assert(g2.vars@.subrange(0, v + 1) == g1.vars@);
            assert(g.vars@.subrange(0, v + 2) == g2.vars@);
            assert(g.vars@.subrange(0, v) =~= g0.vars@);
            assert(g.nodes@.subrange(0, n) =~= g0.nodes@);
            assert(g.nodes@[n] == g2.nodes@[n]);
            assert(g2.nodes@[n] == g1.nodes@[n]);
            assert(g.nodes@[n + 1] == g2.nodes@[n + 1]);
            assert(g.vars@[self.weight as int] == g0.vars@[self.weight as int]);
            assert(g.vars@[self.bias as int] == g0.vars@[self.bias as int]);
            assert(g.vars@[v + 1] == g2.vars@[v + 1]);
            assert(g.vars@[v] == g1.vars@[v]);
            assert(g2.vars@[v] == g1.vars@[v]);
            lemma_size_two(g1.shape_of(h));
        }
        r
    }

    /// The parameters: the weight, then the bias.
    pub fn get_params(&self) -> (r: Vec<usize>)
        ensures
            r@ == seq![self.weight, self.bias],
    {
        let r = vec![self.weight, self.bias];
        proof {
            assert(r@ =~= seq![self.weight, self.bias]);
        }
        r
    }
}

/// A fully connected layer from `in_size` to `out_size` features, its
/// parameters added to `g` (see `Linear::new`).
pub fn linear<T: Copy>(g: &mut Graph<T>, in_size: usize, out_size: usize) -> (r: Box<Linear>)
    requires
        old(g).wf(),
        in_size * out_size <= usize::MAX,
    ensures
        extends(final(g), old(g), 2, 0),
        r.params_in(final(g)),
        r.weight == old(g).vars@.len(),
        r.bias == old(g).vars@.len() + 1,
        r.in_size == in_size,
        r.out_size == out_size,
        final(g).vars@[r.weight as int].parent is None,
        final(g).vars@[r.bias as int].parent is None,
        final(g).vars@[r.weight as int].data@ == filled((in_size * out_size) as nat, old(g).zero),
        final(g).vars@[r.bias as int].data@ == filled(out_size as nat, old(g).zero),
        final(g).vars@[r.weight as int].grad@ == filled((in_size * out_size) as nat, old(g).zero),
        final(g).vars@[r.bias as int].grad@ == filled(out_size as nat, old(g).zero),
        final(g).vars@[r.weight as int].need_grad,
        final(g).vars@[r.bias as int].need_grad,
{
    Box::new(Linear::new(g, in_size, out_size))
}

} // verus!
