use vstd::prelude::*;
use vstd::arithmetic::div_mod::lemma_fundamental_div_mod_converse;
use crate::graph::{Graph, lemma_backward_succeeds};
use crate::ops::{Op, Broadcast, Onehot, broadcast_shapes, Add, Sub, Mul, Div, Neg, Square, Log, ReLu, Softmax, LogSoftmax, Argmax, Mean, MatMul};
use crate::shape::{shape_size, copy_shape, lemma_size_first, lemma_size_two};
use crate::variable::{filled, filled_vec};

verus! {

/// The values of a replication of `x` along a new leading axis, `batch` times.
pub open spec fn broadcast_data<T>(x: Seq<T>, batch: nat) -> Seq<T> {
    Seq::new(batch * x.len(), |i: int| x[i % (x.len() as int)])
}

/// The values of the one-hot encoding of `labels` over `num_classes` columns:
/// row `r` holds `one` in column `labels[r]` and `zero` elsewhere.
pub open spec fn onehot_data<T>(labels: Seq<usize>, num_classes: nat, zero: T, one: T) -> Seq<T> {
    Seq::new(
        labels.len() * num_classes,
        |i: int|
            if labels[i / (num_classes as int)] as int == i % (num_classes as int) {
                one
            } else {
                zero
            },
    )
}

/// `g` is `old` with one more tensor of the given shape, zero-filled, produced
/// by a new node applying `op` to `inputs`.
pub open spec fn appended_zeroed<T>(
    g: &Graph<T>,
    old: &Graph<T>,
    op: Op,
    inputs: Seq<usize>,
    shape: Seq<usize>,
    need_grad: bool,
) -> bool where T: Copy {
    g.appended(old, op, inputs, shape, filled(shape_size(shape), old.zero), need_grad)
}

/// Records a node applying `op` to `inputs`, with a zero-filled output of the
/// given shape, whose values are computed next.
fn record_zeroed<T: Copy>(
    g: &mut Graph<T>,
    op: Op,
    inputs: Vec<usize>,
    shape: Vec<usize>,
    size: usize,
    need_grad: bool,
) -> (r: usize)
    requires
        old(g).wf(),
        forall|k: int| 0 <= k < inputs@.len() ==> old(g).has(#[trigger] inputs@[k]),
        size == shape_size(shape@),
        !op.differentiable() ==> !need_grad,
        old(g).op_ok(op, inputs@, shape@),
    ensures
        appended_zeroed(final(g), old(g), op, inputs@, shape@, need_grad),
        r == old(g).vars@.len(),
{
    let data = filled_vec(size, g.zero);
    g.record(op, inputs, shape, data, need_grad)
}

/// Records a node applying `op` to the single tensor `x`, with a zero-filled
/// output shaped like `x`.
fn record_like<T: Copy>(g: &mut Graph<T>, op: Op, x: usize, need_grad: bool) -> (r: usize)
    requires
        old(g).wf(),
        old(g).has(x),
        !op.differentiable() ==> !need_grad,
        old(g).op_ok(op, seq![x], old(g).shape_of(x)),
    ensures
        appended_zeroed(final(g), old(g), op, seq![x], old(g).shape_of(x), need_grad),
        r == old(g).vars@.len(),
{
    proof {
        assert(g.vars@[x as int].wf());
    }
    let shape = copy_shape(&g.vars[x].shape);
    let size = g.vars[x].data.len();
    let inputs = vec![x];
    proof {
        assert(inputs@ =~= seq![x]);
    }
    record_zeroed(g, op, inputs, shape, size, need_grad)
}

/// Records a node applying `op` to `x` and `y`, with a zero-filled output
/// shaped like `x`.
fn record_like2<T: Copy>(g: &mut Graph<T>, op: Op, x: usize, y: usize) -> (r: usize)
    requires
        old(g).wf(),
        op.differentiable(),
        old(g).has(x),
        old(g).has(y),
        old(g).op_ok(op, seq![x, y], old(g).shape_of(x)),
    ensures
        appended_zeroed(final(g), old(g), op, seq![x, y], old(g).shape_of(x), true),
        r == old(g).vars@.len(),
{
    proof {
        assert(g.vars@[x as int].wf());
    }
    let shape = copy_shape(&g.vars[x].shape);
    let size = g.vars[x].data.len();
    let inputs = vec![x, y];
    proof {
        assert(inputs@ =~= seq![x, y]);
    }
    record_zeroed(g, op, inputs, shape, size, true)
}

/// `g` is `old` with one more tensor, of the given shape and with a zero
/// gradient, produced by a new node applying `op` to `inputs`. Its values are
/// stated apart.
pub open spec fn recorded<T: Copy>(
    g: &Graph<T>,
    old: &Graph<T>,
    op: Op,
    inputs: Seq<usize>,
    shape: Seq<usize>,
    need_grad: bool,
) -> bool {
    let r = old.vars@.len();
    &&& g.wf()
    &&& g.zero == old.zero
    &&& g.one == old.one
    &&& g.vars@.len() == r + 1
    &&& g.vars@.subrange(0, r as int) == old.vars@
    &&& g.nodes@.len() == old.nodes@.len() + 1
    &&& g.nodes@.subrange(0, old.nodes@.len() as int) == old.nodes@
    &&& g.nodes@.last().op == op
    &&& g.nodes@.last().inputs@ == inputs
    &&& g.nodes@.last().output == r
    &&& g.vars@[r as int].shape@ == shape
    &&& g.vars@[r as int].data@.len() == shape_size(shape)
    &&& g.vars@[r as int].grad@ == filled(shape_size(shape), old.zero)
    &&& g.vars@[r as int].need_grad == need_grad
    &&& g.vars@[r as int].parent == Some(old.nodes@.len() as usize)
}

/// Overwriting the values of the new tensor keeps the record.
proof fn lemma_recorded_update<T: Copy>(
    mid: &Graph<T>,
    fin: &Graph<T>,
    old: &Graph<T>,
    op: Op,
    inputs: Seq<usize>,
    shape: Seq<usize>,
    need_grad: bool,
)
    requires
        recorded(mid, old, op, inputs, shape, need_grad),
        fin.wf(),
        fin.nodes@ == mid.nodes@,
        fin.zero == mid.zero,
        fin.one == mid.one,
        fin.vars@ == mid.vars@.update(old.vars@.len() as int, fin.vars@[old.vars@.len() as int]),
        fin.vars@[old.vars@.len() as int].shape@ == shape,
        fin.vars@[old.vars@.len() as int].grad@ == mid.vars@[old.vars@.len() as int].grad@,
        fin.vars@[old.vars@.len() as int].need_grad == need_grad,
        fin.vars@[old.vars@.len() as int].parent == mid.vars@[old.vars@.len() as int].parent,
        fin.vars@[old.vars@.len() as int].data@.len() == shape_size(shape),
    ensures
        recorded(fin, old, op, inputs, shape, need_grad),
{
    let r = old.vars@.len() as int;
    assert(fin.vars@.subrange(0, r) =~= mid.vars@.subrange(0, r));
}

/// Records `op` on `x` and `y` and computes its values: `f` applied to the
/// values of `x` and `y` pairwise.
fn elementwise2<T: Copy, F: Fn(T, T) -> T>(g: &mut Graph<T>, op: Op, x: usize, y: usize, f: F) -> (r: usize)
    requires
        old(g).wf(),
        op.differentiable(),
        old(g).has(x),
        old(g).has(y),
        old(g).shape_of(x) == old(g).shape_of(y),
        old(g).op_ok(op, seq![x, y], old(g).shape_of(x)),
        forall|a: T, b: T| f.requires((a, b)),
    ensures
        recorded(final(g), old(g), op, seq![x, y], old(g).shape_of(x), true),
        r == old(g).vars@.len(),
        forall|i: int| 0 <= i < shape_size(old(g).shape_of(x)) ==> f.ensures(
            (old(g).vars@[x as int].data@[i], old(g).vars@[y as int].data@[i]),
            #[trigger] final(g).vars@[r as int].data@[i],
        ),
{
    let r = record_like2(g, op, x, y);
    let ghost mid = *g;
    proof {
        assert(mid.vars@[x as int] == old(g).vars@[x as int]);
        assert(mid.vars@[y as int] == old(g).vars@[y as int]);
        assert(mid.nodes@[old(g).nodes@.len() as int].inputs@ == seq![x, y]);
    }
    forward_elementwise2(g, r, f);
    proof {
        lemma_recorded_update(&mid, g, old(g), op, seq![x, y], old(g).shape_of(x), true);
    }
    r
}

/// Records `op` on `x` and computes its values: `f` applied to each value of `x`.
fn elementwise1<T: Copy, F: Fn(T) -> T>(g: &mut Graph<T>, op: Op, x: usize, f: F) -> (r: usize)
    requires
        old(g).wf(),
        op.differentiable(),
        old(g).has(x),
        old(g).op_ok(op, seq![x], old(g).shape_of(x)),
        forall|a: T| f.requires((a,)),
    ensures
        recorded(final(g), old(g), op, seq![x], old(g).shape_of(x), true),
        r == old(g).vars@.len(),
        forall|i: int| 0 <= i < shape_size(old(g).shape_of(x)) ==> f.ensures(
            (old(g).vars@[x as int].data@[i],),
            #[trigger] final(g).vars@[r as int].data@[i],
        ),
{
    let r = record_like(g, op, x, true);
    let ghost mid = *g;
    proof {
        assert(mid.vars@[x as int] == old(g).vars@[x as int]);
        assert(mid.nodes@[old(g).nodes@.len() as int].inputs@ == seq![x]);
    }
    forward_elementwise1(g, r, f);
    proof {
        lemma_recorded_update(&mid, g, old(g), op, seq![x], old(g).shape_of(x), true);
    }
    r
}

/// Computes `x + y` elementwise and records it: element `i` of the output is
/// `f(x[i], y[i])`, with `f` the caller's scalar rule (`|a, b| a + b`).
pub fn add<T: Copy, F: Fn(T, T) -> T>(g: &mut Graph<T>, x: usize, y: usize, f: F) -> (r: usize)
    requires
        old(g).wf(),
        old(g).has(x),
        old(g).has(y),
        old(g).shape_of(x) == old(g).shape_of(y),
        forall|a: T, b: T| f.requires((a, b)),
    ensures
        recorded(final(g), old(g), Op::Add((Add {})), seq![x, y], old(g).shape_of(x), true),
        r == old(g).vars@.len(),
        forall|i: int| 0 <= i < shape_size(old(g).shape_of(x)) ==> f.ensures(
            (old(g).vars@[x as int].data@[i], old(g).vars@[y as int].data@[i]),
            #[trigger] final(g).vars@[r as int].data@[i],
        ),
{
    elementwise2(g, Op::Add(Add {}), x, y, f)
}

/// Computes `x - y` elementwise and records it: element `i` of the output is
/// `f(x[i], y[i])`, with `f` the caller's scalar rule (`|a, b| a - b`).
pub fn sub<T: Copy, F: Fn(T, T) -> T>(g: &mut Graph<T>, x: usize, y: usize, f: F) -> (r: usize)
    requires
        old(g).wf(),
        old(g).has(x),
        old(g).has(y),
        old(g).shape_of(x) == old(g).shape_of(y),
        forall|a: T, b: T| f.requires((a, b)),
    ensures
        recorded(final(g), old(g), Op::Sub((Sub {})), seq![x, y], old(g).shape_of(x), true),
        r == old(g).vars@.len(),
        forall|i: int| 0 <= i < shape_size(old(g).shape_of(x)) ==> f.ensures(
            (old(g).vars@[x as int].data@[i], old(g).vars@[y as int].data@[i]),
            #[trigger] final(g).vars@[r as int].data@[i],
        ),
{
    elementwise2(g, Op::Sub(Sub {}), x, y, f)
}

/// Computes `x * y` elementwise and records it: element `i` of the output is
/// `f(x[i], y[i])`, with `f` the caller's scalar rule (`|a, b| a * b`).
pub fn mul<T: Copy, F: Fn(T, T) -> T>(g: &mut Graph<T>, x: usize, y: usize, f: F) -> (r: usize)
    requires
        old(g).wf(),
        old(g).has(x),
        old(g).has(y),
        old(g).shape_of(x) == old(g).shape_of(y),
        forall|a: T, b: T| f.requires((a, b)),
    ensures
        recorded(final(g), old(g), Op::Mul((Mul {})), seq![x, y], old(g).shape_of(x), true),
        r == old(g).vars@.len(),
        forall|i: int| 0 <= i < shape_size(old(g).shape_of(x)) ==> f.ensures(
            (old(g).vars@[x as int].data@[i], old(g).vars@[y as int].data@[i]),
            #[trigger] final(g).vars@[r as int].data@[i],
        ),
{
    elementwise2(g, Op::Mul(Mul {}), x, y, f)
}

/// Computes `x / y` elementwise and records it: element `i` of the output is
/// `f(x[i], y[i])`, with `f` the caller's scalar rule (`|a, b| a / b`).
pub fn div<T: Copy, F: Fn(T, T) -> T>(g: &mut Graph<T>, x: usize, y: usize, f: F) -> (r: usize)
    requires
        old(g).wf(),
        old(g).has(x),
        old(g).has(y),
        old(g).shape_of(x) == old(g).shape_of(y),
        forall|a: T, b: T| f.requires((a, b)),
    ensures
        recorded(final(g), old(g), Op::Div((Div {})), seq![x, y], old(g).shape_of(x), true),
        r == old(g).vars@.len(),
        forall|i: int| 0 <= i < shape_size(old(g).shape_of(x)) ==> f.ensures(
            (old(g).vars@[x as int].data@[i], old(g).vars@[y as int].data@[i]),
            #[trigger] final(g).vars@[r as int].data@[i],
        ),
{
    elementwise2(g, Op::Div(Div {}), x, y, f)
}

/// Computes `-x` elementwise and records it: element `i` of the output is
/// `f(x[i])`, with `f` the caller's scalar rule (`|a| -a`).
pub fn neg<T: Copy, F: Fn(T) -> T>(g: &mut Graph<T>, x: usize, f: F) -> (r: usize)
    requires
        old(g).wf(),
        old(g).has(x),
        forall|a: T| f.requires((a,)),
    ensures
        recorded(final(g), old(g), Op::Neg((Neg {})), seq![x], old(g).shape_of(x), true),
        r == old(g).vars@.len(),
        forall|i: int| 0 <= i < shape_size(old(g).shape_of(x)) ==> f.ensures(
            (old(g).vars@[x as int].data@[i],),
            #[trigger] final(g).vars@[r as int].data@[i],
        ),
{
    elementwise1(g, Op::Neg(Neg {}), x, f)
}

/// Computes `x * x` elementwise and records it: element `i` of the output is
/// `f(x[i])`, with `f` the caller's scalar rule (`|a| a * a`).
pub fn square<T: Copy, F: Fn(T) -> T>(g: &mut Graph<T>, x: usize, f: F) -> (r: usize)
    requires
        old(g).wf(),
        old(g).has(x),
        forall|a: T| f.requires((a,)),
    ensures
        recorded(final(g), old(g), Op::Square((Square {})), seq![x], old(g).shape_of(x), true),
        r == old(g).vars@.len(),
        forall|i: int| 0 <= i < shape_size(old(g).shape_of(x)) ==> f.ensures(
            (old(g).vars@[x as int].data@[i],),
            #[trigger] final(g).vars@[r as int].data@[i],
        ),
{
    elementwise1(g, Op::Square(Square {}), x, f)
}

/// Computes the natural logarithm of `x` elementwise and records it: element `i` of the output is
/// `f(x[i])`, with `f` the caller's scalar rule (`|a| a.ln()`).
pub fn log<T: Copy, F: Fn(T) -> T>(g: &mut Graph<T>, x: usize, f: F) -> (r: usize)
    requires
        old(g).wf(),
        old(g).has(x),
        forall|a: T| f.requires((a,)),
    ensures
        recorded(final(g), old(g), Op::Log((Log {})), seq![x], old(g).shape_of(x), true),
        r == old(g).vars@.len(),
        forall|i: int| 0 <= i < shape_size(old(g).shape_of(x)) ==> f.ensures(
            (old(g).vars@[x as int].data@[i],),
            #[trigger] final(g).vars@[r as int].data@[i],
        ),
{
    elementwise1(g, Op::Log(Log {}), x, f)
}

/// Computes `max(0, x)` elementwise and records it: element `i` of the output is
/// `f(x[i])`, with `f` the caller's scalar rule (`|a| if a > 0 { a } else { 0 }`).
pub fn relu<T: Copy, F: Fn(T) -> T>(g: &mut Graph<T>, x: usize, f: F) -> (r: usize)
    requires
        old(g).wf(),
        old(g).has(x),
        forall|a: T| f.requires((a,)),
    ensures
        recorded(final(g), old(g), Op::ReLu((ReLu {})), seq![x], old(g).shape_of(x), true),
        r == old(g).vars@.len(),
        forall|i: int| 0 <= i < shape_size(old(g).shape_of(x)) ==> f.ensures(
            (old(g).vars@[x as int].data@[i],),
            #[trigger] final(g).vars@[r as int].data@[i],
        ),
{
    elementwise1(g, Op::ReLu(ReLu {}), x, f)
}

/// A tensor appended with given values is recorded.
proof fn lemma_appended_recorded<T: Copy>(
    g: &Graph<T>,
    old: &Graph<T>,
    op: Op,
    inputs: Seq<usize>,
    shape: Seq<usize>,
    data: Seq<T>,
    need_grad: bool,
)
    requires
        g.appended(old, op, inputs, shape, data, need_grad),
        data.len() == shape_size(shape),
    ensures
        recorded(g, old, op, inputs, shape, need_grad),
{
}

/// A copy of `x[from .. from + len]`.
pub fn copy_slice<T: Copy>(x: &Vec<T>, from: usize, len: usize) -> (r: Vec<T>)
    requires
        from + len <= x.len(),
    ensures
        r@ == x@.subrange(from as int, from + len),
{
    let mut r: Vec<T> = Vec::new();
    let mut i: usize = 0;
    while i < len
        invariant
            i <= len,
            from + len <= x.len(),
            r@ == x@.subrange(from as int, from + i),
        decreases len - i,
    {
        r.push(x[from + i]);
        i = i + 1;
        proof {
            assert(r@ =~= x@.subrange(from as int, from + i));
        }
    }
    r
}

/// Computes the product of the matrices `x` (`[m, k]`) and `y` (`[k, n]`) and
/// records it, of shape `[m, n]`: element `(i, j)` folds `step` over row `i`
/// of `x` and column `j` of `y` from zero (`|acc, a, b| acc + a * b`).
pub fn matmul<T: Copy, F: Fn(T, T, T) -> T>(g: &mut Graph<T>, x: usize, y: usize, step: F) -> (r: usize)
    requires
        old(g).wf(),
        old(g).has(x),
        old(g).has(y),
        old(g).shape_of(x).len() == 2,
        old(g).shape_of(y).len() == 2,
        old(g).shape_of(x)[1] == old(g).shape_of(y)[0],
        old(g).shape_of(x)[0] * old(g).shape_of(y)[1] <= usize::MAX,
        forall|acc: T, a: T, b: T| step.requires((acc, a, b)),
    ensures
        recorded(
            final(g),
            old(g),
            Op::MatMul((MatMul {})),
            seq![x, y],
            seq![old(g).shape_of(x)[0], old(g).shape_of(y)[1]],
            true,
        ),
        r == old(g).vars@.len(),
        forall|p: int| 0 <= p < old(g).shape_of(x)[0] * old(g).shape_of(y)[1] ==> folds(
            step,
            old(g).zero,
            mat_row(old(g).vars@[x as int].data@, old(g).shape_of(x)[1] as nat, p / (old(g).shape_of(y)[1] as int)),
            mat_col(
                old(g).vars@[y as int].data@,
                old(g).shape_of(x)[1] as nat,
                old(g).shape_of(y)[1] as nat,
                p % (old(g).shape_of(y)[1] as int),
            ),
            #[trigger] final(g).vars@[r as int].data@[p],
        ),
{
    proof {
        assert(g.vars@[x as int].wf());
        assert(g.vars@[y as int].wf());
        lemma_size_two(g.shape_of(x));
        lemma_size_two(g.shape_of(y));
    }
    let m = g.vars[x].shape[0];
    let k = g.vars[x].shape[1];
    let n = g.vars[y].shape[1];
    let init = filled_vec(m * n, g.zero);
    let values = matmul_fold(&g.vars[x].data, &g.vars[y].data, &init, m, k, n, &step);
    let shape = vec![m, n];
    let inputs = vec![x, y];
    proof {
        assert(shape@ =~= seq![m, n]);
        assert(inputs@ =~= seq![x, y]);
        lemma_size_two(shape@);
    }
    let ghost xd = g.vars@[x as int].data@;
    let ghost yd = g.vars@[y as int].data@;
    let ghost vals = values@;
    let r = g.record(Op::MatMul(MatMul {}), inputs, shape, values, true);
    proof {
        lemma_appended_recorded(g, old(g), Op::MatMul(MatMul {}), seq![x, y], seq![m, n], vals, true);
    }
    r
}

/// `v` is `index(k)` for the index `k` of the first maximum of the non-empty
/// `row` under `gt`.
pub open spec fn argmax_value<T, G: Fn(T, T) -> bool, I: Fn(usize) -> T>(gt: G, index: I, row: Seq<T>, v: T) -> bool {
    exists|k: usize| k < row.len() && first_max(gt, row, k as int) && #[trigger] index.ensures((k,), v)
}

/// Computes the row-wise index of the first maximum of the matrix `x` under
/// the strict comparison `gt` and records it: a vector with one element per
/// row, `index(k)` for the index `k`, through which no gradient flows.
pub fn argmax<T: Copy, G: Fn(T, T) -> bool, I: Fn(usize) -> T>(g: &mut Graph<T>, x: usize, gt: G, index: I) -> (r: usize)
    requires
        old(g).wf(),
        old(g).has(x),
        old(g).shape_of(x).len() == 2,
        old(g).shape_of(x)[1] >= 1,
        forall|a: T, b: T| gt.requires((a, b)),
        forall|k: usize| index.requires((k,)),
    ensures
        recorded(final(g), old(g), Op::Argmax((Argmax {})), seq![x], seq![old(g).shape_of(x)[0]], false),
        r == old(g).vars@.len(),
        forall|i: int| 0 <= i < old(g).shape_of(x)[0] ==> #[trigger] argmax_value(
            gt,
            index,
            mat_row(old(g).vars@[x as int].data@, old(g).shape_of(x)[1] as nat, i),
            final(g).vars@[r as int].data@[i],
        ),
{
    proof {
        assert(g.vars@[x as int].wf());
        lemma_size_two(g.shape_of(x));
    }
    let rows = g.vars[x].shape[0];
    let cols = g.vars[x].shape[1];
    let best = argmax_rows(&g.vars[x].data, rows, cols, gt);
    let ghost xd = g.vars@[x as int].data@;
    let mut values: Vec<T> = Vec::new();
    let mut i: usize = 0;
    while i < rows
        invariant
            i <= rows,
            best@.len() == rows,
            values@.len() == i,
            forall|k: usize| index.requires((k,)),
            forall|ii: int| 0 <= ii < rows ==> #[trigger] best@[ii] < cols && first_max(gt, mat_row(xd, cols as nat, ii), best@[ii] as int),
            forall|ii: int| 0 <= ii < i ==> index.ensures((best@[ii],), #[trigger] values@[ii]),
        decreases rows - i,
    {
        let v = index(best[i]);
        values.push(v);
        i = i + 1;
    }
    let shape = vec![rows];
    let inputs = vec![x];
    proof {
        assert(shape@ =~= seq![rows]);
        assert(inputs@ =~= seq![x]);
        assert(shape_size(shape@.drop_last()) == 1);
        assert(shape_size(shape@) == 1 * rows);
    }
    let ghost vals = values@;
    let r = g.record(Op::Argmax(Argmax {}), inputs, shape, values, false);
    proof {
        lemma_appended_recorded(g, old(g), Op::Argmax(Argmax {}), seq![x], seq![rows], vals, false);
        assert forall|i: int| 0 <= i < rows implies #[trigger] argmax_value(
            gt,
            index,
            mat_row(xd, cols as nat, i),
            g.vars@[r as int].data@[i],
        ) by {
            let k = best@[i];
            assert(k < cols && first_max(gt, mat_row(xd, cols as nat, i), k as int));
            assert(g.vars@[r as int].data@ == vals);
            assert(index.ensures((best@[i],), vals[i]));
            assert(i * cols + cols <= rows * cols) by (nonlinear_arith)
                requires 0 <= i < rows;
            assert(0 <= i * cols) by (nonlinear_arith)
                requires 0 <= i;
            assert(mat_row(xd, cols as nat, i).len() == cols);
            assert(index.ensures((k,), g.vars@[r as int].data@[i]));
        }
    }
    r
}

/// Computes the mean of all elements of `x` and records it, as a tensor of
/// shape `[1]`: `step` is folded over the values of `x` from zero, each value
/// passed as both operands (`|acc, a, _| acc + a`), and `finish` turns the sum
/// and the number of elements into the mean (`|s, n| s / n`).
pub fn mean<T: Copy, F: Fn(T, T, T) -> T, D: Fn(T, usize) -> T>(g: &mut Graph<T>, x: usize, step: F, finish: D) -> (r: usize)
    requires
        old(g).wf(),
        old(g).has(x),
        forall|acc: T, a: T, b: T| step.requires((acc, a, b)),
        forall|s: T, n: usize| finish.requires((s, n)),
    ensures
        recorded(final(g), old(g), Op::Mean((Mean {})), seq![x], seq![1usize], true),
        r == old(g).vars@.len(),
        exists|s: T|
            folds(step, old(g).zero, old(g).vars@[x as int].data@, old(g).vars@[x as int].data@, s)
                && #[trigger] finish.ensures(
                (s, old(g).vars@[x as int].data@.len() as usize),
                final(g).vars@[r as int].data@[0],
            ),
{
    let ghost xd = g.vars@[x as int].data@;
    let n = g.vars[x].data.len();
    let init = vec![g.zero];
    let sums = matmul_fold(&g.vars[x].data, &g.vars[x].data, &init, 1, n, 1, &step);
    proof {
        assert(mat_row(xd, n as nat, 0) =~= xd);
        assert(mat_col(xd, n as nat, 1, 0) =~= xd);
        assert(0int / 1int == 0 && 0int % 1int == 0);
        assert(folds(step, g.zero, xd, xd, sums@[0]));
    }
    let v = finish(sums[0], n);
    let values = vec![v];
    let shape = vec![1usize];
    let inputs = vec![x];
    proof {
        assert(shape@ =~= seq![1usize]);
        assert(inputs@ =~= seq![x]);
        assert(shape_size(shape@.drop_last()) == 1);
        assert(shape_size(shape@) == shape_size(shape@.drop_last()) * 1);
    }
    let ghost vals = values@;
    let ghost s = sums@[0];
    let r = g.record(Op::Mean(Mean {}), inputs, shape, values, true);
    proof {
        lemma_appended_recorded(g, old(g), Op::Mean(Mean {}), seq![x], seq![1usize], vals, true);
        assert(finish.ensures((s, xd.len() as usize), g.vars@[r as int].data@[0]));
    }
    r
}

/// `out_row` is what `rule` returns on `row`.
pub open spec fn row_result<T, R: Fn(Vec<T>) -> Vec<T>>(rule: R, row: Seq<T>, out_row: Seq<T>) -> bool {
    exists|v: Vec<T>, w: Vec<T>| v@ == row && w@ == out_row && #[trigger] rule.ensures((v,), w)
}

/// Applies `rule` to each row of the `rows` x `cols` matrix `x`.
fn map_rows<T: Copy, R: Fn(Vec<T>) -> Vec<T>>(x: &Vec<T>, rows: usize, cols: usize, rule: &R) -> (r: Vec<T>)
    requires
        x.len() == rows * cols,
        forall|v: Vec<T>| rule.requires((v,)),
        forall|v: Vec<T>, w: Vec<T>| rule.ensures((v,), w) ==> w@.len() == v@.len(),
    ensures
        r@.len() == rows * cols,
        forall|i: int| 0 <= i < rows ==> #[trigger] row_result(*rule, mat_row(x@, cols as nat, i), mat_row(r@, cols as nat, i)),
{
    let mut out: Vec<T> = Vec::new();
    let mut i: usize = 0;
    while i < rows
        invariant
            x.len() == rows * cols,
            forall|v: Vec<T>| rule.requires((v,)),
            forall|v: Vec<T>, w: Vec<T>| rule.ensures((v,), w) ==> w@.len() == v@.len(),
            i <= rows,
            out@.len() == i * cols,
            forall|ii: int| 0 <= ii < i ==> #[trigger] row_result(*rule, mat_row(x@, cols as nat, ii), out@.subrange(ii * cols, ii * cols + cols)),
        decreases rows - i,
    {
        proof {
            assert(i * cols + cols <= rows * cols) by (nonlinear_arith)
                requires i < rows;
        }
        let v = copy_slice(x, i * cols, cols);
        let ghost vv = v;
        let w = rule(v);
        let ghost before = out@;
        let mut j: usize = 0;
        while j < cols
            invariant
                j <= cols,
                w@.len() == cols,
                out@.len() == before.len() + j,
                out@.subrange(0, before.len() as int) == before,
                forall|jj: int| 0 <= jj < j ==> out@[before.len() + jj] == w@[jj],
            decreases cols - j,
        {
            out.push(w[j]);
            j = j + 1;
            proof {
                assert(out@.subrange(0, before.len() as int) =~= before);
            }
        }
        proof {
            assert(out@.subrange(i * cols, i * cols + cols) =~= w@);
            assert forall|ii: int| 0 <= ii < i + 1 implies #[trigger] row_result(*rule, mat_row(x@, cols as nat, ii), out@.subrange(ii * cols, ii * cols + cols)) by {
                if ii < i {
                    assert(ii * cols + cols <= i * cols) by (nonlinear_arith)
                        requires ii < i;
                    assert(0 <= ii * cols) by (nonlinear_arith)
                        requires 0 <= ii;
                    assert(out@.subrange(ii * cols, ii * cols + cols) =~= before.subrange(ii * cols, ii * cols + cols));
                } else {
                    assert(rule.ensures((vv,), w));
                }
            }
        }
        i = i + 1;
        proof {
            assert(i * cols == (i - 1) * cols + cols) by (nonlinear_arith);
        }
    }
    out
}

/// Records `op`, a row-wise operator on the matrix `x`, with each output row
/// the result of `rule` on the matching row of `x`.
fn rowwise<T: Copy, R: Fn(Vec<T>) -> Vec<T>>(g: &mut Graph<T>, op: Op, x: usize, rule: R) -> (r: usize)
    requires
        old(g).wf(),
        op.differentiable(),
        old(g).has(x),
        old(g).shape_of(x).len() == 2,
        old(g).op_ok(op, seq![x], old(g).shape_of(x)),
        forall|v: Vec<T>| rule.requires((v,)),
        forall|v: Vec<T>, w: Vec<T>| rule.ensures((v,), w) ==> w@.len() == v@.len(),
    ensures
        recorded(final(g), old(g), op, seq![x], old(g).shape_of(x), true),
        r == old(g).vars@.len(),
        forall|i: int| 0 <= i < old(g).shape_of(x)[0] ==> #[trigger] row_result(rule, mat_row(old(g).vars@[x as int].data@, old(g).shape_of(x)[1] as nat, i), mat_row(final(g).vars@[r as int].data@, old(g).shape_of(x)[1] as nat, i)),
{
    proof {
        assert(g.vars@[x as int].wf());
        lemma_size_two(g.shape_of(x));
    }
    let rows = g.vars[x].shape[0];
    let cols = g.vars[x].shape[1];
    let values = map_rows(&g.vars[x].data, rows, cols, &rule);
    let shape = copy_shape(&g.vars[x].shape);
    let inputs = vec![x];
    proof {
        assert(inputs@ =~= seq![x]);
    }
    let ghost vals = values@;
    let r = g.record(op, inputs, shape, values, true);
    proof {
        lemma_appended_recorded(g, old(g), op, seq![x], old(g).shape_of(x), vals, true);
    }
    r
}

/// Computes the row-wise softmax of the matrix `x` and records it: each output
/// row is `rule` applied to the matching row of `x`, the caller's softmax of
/// one row.
pub fn softmax<T: Copy, R: Fn(Vec<T>) -> Vec<T>>(g: &mut Graph<T>, x: usize, rule: R) -> (r: usize)
    requires
        old(g).wf(),
        old(g).has(x),
        old(g).shape_of(x).len() == 2,
        forall|v: Vec<T>| rule.requires((v,)),
        forall|v: Vec<T>, w: Vec<T>| rule.ensures((v,), w) ==> w@.len() == v@.len(),
    ensures
        recorded(final(g), old(g), Op::Softmax((Softmax {})), seq![x], old(g).shape_of(x), true),
        r == old(g).vars@.len(),
        forall|i: int| 0 <= i < old(g).shape_of(x)[0] ==> #[trigger] row_result(rule, mat_row(old(g).vars@[x as int].data@, old(g).shape_of(x)[1] as nat, i), mat_row(final(g).vars@[r as int].data@, old(g).shape_of(x)[1] as nat, i)),
{
    rowwise(g, Op::Softmax(Softmax {}), x, rule)
}

/// Computes the row-wise logarithm of the softmax of the matrix `x` and
/// records it: each output row is `rule` applied to the matching row of `x`,
/// the caller's log-softmax of one row.
pub fn log_softmax<T: Copy, R: Fn(Vec<T>) -> Vec<T>>(g: &mut Graph<T>, x: usize, rule: R) -> (r: usize)
    requires
        old(g).wf(),
        old(g).has(x),
        old(g).shape_of(x).len() == 2,
        forall|v: Vec<T>| rule.requires((v,)),
        forall|v: Vec<T>, w: Vec<T>| rule.ensures((v,), w) ==> w@.len() == v@.len(),
    ensures
        recorded(final(g), old(g), Op::LogSoftmax((LogSoftmax {})), seq![x], old(g).shape_of(x), true),
        r == old(g).vars@.len(),
        forall|i: int| 0 <= i < old(g).shape_of(x)[0] ==> #[trigger] row_result(rule, mat_row(old(g).vars@[x as int].data@, old(g).shape_of(x)[1] as nat, i), mat_row(final(g).vars@[r as int].data@, old(g).shape_of(x)[1] as nat, i)),
{
    rowwise(g, Op::LogSoftmax(LogSoftmax {}), x, rule)
}

/// Records the replication of `x` along its leading axis up to `shape`: the
/// output holds `shape[0]` consecutive copies of the values of `x`.
pub fn broadcast<T: Copy>(g: &mut Graph<T>, x: usize, shape: Vec<usize>) -> (r: usize)
    requires
        old(g).wf(),
        old(g).has(x),
        broadcast_shapes(old(g).shape_of(x), shape@, shape@),
        shape_size(shape@) <= usize::MAX,
    ensures
        final(g).appended(
            old(g),
            Op::Broadcast((Broadcast { shape })),
            seq![x],
            shape@,
            broadcast_data(old(g).vars@[x as int].data@, shape@[0] as nat),
            true,
        ),
        r == old(g).vars@.len(),
{
    proof {
        assert(g.vars@[x as int].wf());
        lemma_size_first(shape@);
        lemma_size_first(g.shape_of(x));
        assert(g.shape_of(x).drop_first() =~= shape@.drop_first());
    }
    let ghost xd = g.vars@[x as int].data@;
    let n = g.vars[x].data.len();
    let batch = shape[0];
    proof {
        assert(shape_size(shape@) == batch * n);
    }
    let mut data: Vec<T> = Vec::new();
    let mut b: usize = 0;
    while b < batch
        invariant
            g.wf(),
            g.has(x),
            xd == g.vars@[x as int].data@,
            n == xd.len(),
            b <= batch,
            batch * n <= usize::MAX,
            data@.len() == b * n,
            forall|i: int| 0 <= i < data@.len() ==> data@[i] == xd[i % (n as int)],
        decreases batch - b,
    {
        proof {
            assert(b * n + n <= batch * n) by (nonlinear_arith)
                requires b < batch;
        }
        let mut j: usize = 0;
        while j < n
            invariant
                g.wf(),
                g.has(x),
                xd == g.vars@[x as int].data@,
                n == xd.len(),
                b < batch,
                j <= n,
                b * n + n <= batch * n,
                batch * n <= usize::MAX,
                data@.len() == b * n + j,
                forall|i: int| 0 <= i < data@.len() ==> data@[i] == xd[i % (n as int)],
            decreases n - j,
        {
            proof {
                lemma_fundamental_div_mod_converse(b * n + j, n as int, b as int, j as int);
            }
            data.push(g.vars[x].data[j]);
            j = j + 1;
        }
        b = b + 1;
        proof {
            assert(b * n == (b - 1) * n + n) by (nonlinear_arith);
        }
    }
    proof {
        assert(data@ =~= broadcast_data(xd, batch as nat));
    }
    let out_shape = copy_shape(&shape);
    let inputs = vec![x];
    proof {
        assert(inputs@ =~= seq![x]);
    }
    g.record(Op::Broadcast(Broadcast { shape }), inputs, out_shape, data, true)
}

/// Records the one-hot encoding of the rank-1 tensor `x` over `num_classes`
/// columns, through which no gradient flows. `labels` holds the class index
/// of each element of `x`; row `i` of the output holds one in column
/// `labels[i]` and zero elsewhere.
pub fn onehot<T: Copy>(g: &mut Graph<T>, x: usize, labels: &Vec<usize>, num_classes: u32) -> (r: usize)
    requires
        old(g).wf(),
        old(g).has(x),
        old(g).shape_of(x).len() == 1,
        labels@.len() == old(g).shape_of(x)[0],
        forall|i: int| 0 <= i < labels@.len() ==> #[trigger] labels@[i] < num_classes,
        labels@.len() * num_classes <= usize::MAX,
    ensures
        final(g).appended(
            old(g),
            Op::Onehot((Onehot { num_classes })),
            seq![x],
            seq![labels@.len() as usize, num_classes as usize],
            onehot_data(labels@, num_classes as nat, old(g).zero, old(g).one),
            false,
        ),
        r == old(g).vars@.len(),
{
    let c = num_classes as usize;
    let rows = labels.len();
    let zero = g.zero;
    let one = g.one;
    let ghost want = onehot_data(labels@, c as nat, zero, one);
    let mut data: Vec<T> = Vec::new();
    let mut i: usize = 0;
    while i < rows
        invariant
            rows == labels@.len(),
            rows * c <= usize::MAX,
            i <= rows,
            want == onehot_data(labels@, c as nat, zero, one),
            data@.len() == i * c,
            forall|k: int| 0 <= k < data@.len() ==> data@[k] == want[k],
        decreases rows - i,
    {
        proof {
            assert(i * c + c <= rows * c) by (nonlinear_arith)
                requires i < rows;
        }
        let mut j: usize = 0;
        while j < c
            invariant
                rows == labels@.len(),
                i < rows,
                j <= c,
                i * c + c <= rows * c,
                rows * c <= usize::MAX,
                want == onehot_data(labels@, c as nat, zero, one),
                data@.len() == i * c + j,
                forall|k: int| 0 <= k < data@.len() ==> data@[k] == want[k],
            decreases c - j,
        {
            proof {
                lemma_fundamental_div_mod_converse(i * c + j, c as int, i as int, j as int);
            }
            if labels[i] == j {
                data.push(one);
            } else {
                data.push(zero);
            }
            j = j + 1;
        }
        i = i + 1;
        proof {
            assert(i * c == (i - 1) * c + c) by (nonlinear_arith);
        }
    }
    proof {
        assert(data@ =~= want);
    }
    let shape = vec![rows, c];
    let inputs = vec![x];
    proof {
        assert(shape@ =~= seq![rows, c]);
        assert(inputs@ =~= seq![x]);
        lemma_size_two(shape@);
    }
    g.record(Op::Onehot(Onehot { num_classes }), inputs, shape, data, false)
}


/// Node `i` of `g` applies `op` to `inputs` and produced tensor `output`.
pub open spec fn node_is<T>(g: &Graph<T>, i: int, op: Op, inputs: Seq<usize>, output: int) -> bool {
    &&& 0 <= i < g.nodes@.len()
    &&& g.nodes@[i].op == op
    &&& g.nodes@[i].inputs@ == inputs
    &&& g.nodes@[i].output == output
}

/// `g` extends `old`: it keeps all its tensors and nodes, adds `nv` tensors
/// and `nn` nodes, and keeps the fill values.
pub open spec fn extends<T>(g: &Graph<T>, old: &Graph<T>, nv: nat, nn: nat) -> bool where T: Copy {
    &&& g.wf()
    &&& g.zero == old.zero
    &&& g.one == old.one
    &&& g.vars@.len() == old.vars@.len() + nv
    &&& g.nodes@.len() == old.nodes@.len() + nn
    &&& g.vars@.subrange(0, old.vars@.len() as int) == old.vars@
    &&& g.nodes@.subrange(0, old.nodes@.len() as int) == old.nodes@
}

/// Computes the cross-entropy loss of the logits `x` against the targets `t`
/// of the same shape (one-hot rows, or any distribution per row) and records
/// it: `mean(neg(mul(t, log_softmax(x))))`, a tensor of shape `[1]`, each
/// step computed with the caller's rule for it (see those functions).
pub fn cross_entropy_loss<
    T: Copy,
    R: Fn(Vec<T>) -> Vec<T>,
    M: Fn(T, T) -> T,
    N: Fn(T) -> T,
    S: Fn(T, T, T) -> T,
    D: Fn(T, usize) -> T,
>(g: &mut Graph<T>, x: usize, t: usize, log_softmax_rule: R, mul_rule: M, neg_rule: N, step: S, finish: D) -> (r: usize)
    requires
        old(g).wf(),
        old(g).has(x),
        old(g).has(t),
        old(g).shape_of(x) == old(g).shape_of(t),
        old(g).shape_of(x).len() == 2,
        forall|v: Vec<T>| log_softmax_rule.requires((v,)),
        forall|v: Vec<T>, w: Vec<T>| log_softmax_rule.ensures((v,), w) ==> w@.len() == v@.len(),
        forall|a: T, b: T| mul_rule.requires((a, b)),
        forall|a: T| neg_rule.requires((a,)),
        forall|acc: T, a: T, b: T| step.requires((acc, a, b)),
        forall|s: T, n: usize| finish.requires((s, n)),
    ensures
        extends(final(g), old(g), 4, 4),
        r == old(g).vars@.len() + 3,
        final(g).vars@[r - 3].need_grad,
        final(g).vars@[r - 2].need_grad,
        final(g).vars@[r - 1].need_grad,
        final(g).shape_of(r) == seq![1usize],
        node_is(final(g), old(g).nodes@.len() as int, Op::LogSoftmax((LogSoftmax {})), seq![x], r - 3),
        node_is(final(g), old(g).nodes@.len() + 1int, Op::Mul((Mul {})), seq![t, (r - 3) as usize], r - 2),
        node_is(final(g), old(g).nodes@.len() + 2int, Op::Neg((Neg {})), seq![(r - 2) as usize], r - 1),
        node_is(final(g), old(g).nodes@.len() + 3int, Op::Mean((Mean {})), seq![(r - 1) as usize], r as int),
        forall|i: int| 0 <= i < old(g).shape_of(x)[0] ==> #[trigger] row_result(log_softmax_rule, mat_row(old(g).vars@[x as int].data@, old(g).shape_of(x)[1] as nat, i), mat_row(final(g).vars@[r - 3].data@, old(g).shape_of(x)[1] as nat, i)),
        forall|i: int| 0 <= i < shape_size(old(g).shape_of(x)) ==> mul_rule.ensures(
            (old(g).vars@[t as int].data@[i], final(g).vars@[r - 3].data@[i]),
            #[trigger] final(g).vars@[r - 2].data@[i],
        ),
        forall|i: int| 0 <= i < shape_size(old(g).shape_of(x)) ==> neg_rule.ensures(
            (final(g).vars@[r - 2].data@[i],),
            #[trigger] final(g).vars@[r - 1].data@[i],
        ),
        exists|s: T|
            folds(step, old(g).zero, final(g).vars@[r - 1].data@, final(g).vars@[r - 1].data@, s)
                && #[trigger] finish.ensures(
                (s, final(g).vars@[r - 1].data@.len() as usize),
                final(g).vars@[r as int].data@[0],
            ),
{
    let ghost g0 = *g;
    let h = log_softmax(g, x, log_softmax_rule);
    let ghost g1 = *g;
    proof {
        assert(g1.vars@[t as int] == g0.vars@[t as int]);
    }
    let m = crate::functions::mul(g, t, h, mul_rule);
    let ghost g2 = *g;
    let n = neg(g, m, neg_rule);
    let ghost g3 = *g;
    let r = mean(g, n, step, finish);
    proof {
        let v = g0.vars@.len() as int;
        let b = g0.nodes@.len() as int;
        assert(g1.vars@.subrange(0, v) == g0.vars@);
        assert(g2.vars@.subrange(0, v + 1) == g1.vars@);
        assert(g3.vars@.subrange(0, v + 2) == g2.vars@);
        assert(g.vars@.subrange(0, v + 3) == g3.vars@);
        assert(g.vars@.subrange(0, v) =~= g0.vars@);
        assert(g.nodes@.subrange(0, b) =~= g0.nodes@);
        assert(g.nodes@[b] == g3.nodes@[b]);
        assert(g3.nodes@[b] == g2.nodes@[b]);
        assert(g2.nodes@[b] == g1.nodes@[b]);
        assert(g.nodes@[b + 1] == g3.nodes@[b + 1]);
        assert(g3.nodes@[b + 1] == g2.nodes@[b + 1]);
        assert(g.nodes@[b + 2] == g3.nodes@[b + 2]);
        assert(g.vars@[v] == g1.vars@[v]);
        assert(g2.vars@[v] == g1.vars@[v]);
        assert(g.vars@[v + 1] == g2.vars@[v + 1]);
        assert(g3.vars@[v + 1] == g2.vars@[v + 1]);
        assert(g.vars@[v + 2] == g3.vars@[v + 2]);
    }
    r
}

/// Broadcasting replicates: batch slice `b` of the output holds exactly the
/// values of the input.
pub proof fn lemma_broadcast_slices<T>(x: Seq<T>, batch: nat, b: int, j: int)
    requires
        0 <= b < batch,
        0 <= j < x.len(),
    ensures
        0 <= b * x.len() + j < broadcast_data(x, batch).len(),
        broadcast_data(x, batch)[b * x.len() + j] == x[j],
{
    let n = x.len() as int;
    assert(b * n + j < batch * n) by (nonlinear_arith)
        requires 0 <= b < batch, 0 <= j < n;
    assert(b * n + j >= 0) by (nonlinear_arith)
        requires 0 <= b, 0 <= j, 0 <= n;
    lemma_fundamental_div_mod_converse(b * n + j, n, b, j);
}

/// The cross-entropy loss is a scalar from which gradient reaches the
/// log-softmax of the logits, and a backward pass from it succeeds: every node
/// that gradient reaches from its mean has a gradient.
pub proof fn lemma_cross_entropy_backward<T: Copy>(g: &Graph<T>, b: int, x: usize, t: usize, r: int)
    requires
        g.wf(),
        r >= 3,
        node_is(g, b, Op::LogSoftmax((LogSoftmax {})), seq![x], r - 3),
        node_is(g, b + 1, Op::Mul((Mul {})), seq![t, (r - 3) as usize], r - 2),
        node_is(g, b + 2, Op::Neg((Neg {})), seq![(r - 2) as usize], r - 1),
        node_is(g, b + 3, Op::Mean((Mean {})), seq![(r - 1) as usize], r),
        g.vars@[r - 3].need_grad,
        g.vars@[r - 2].need_grad,
        g.vars@[r - 1].need_grad,
    ensures
        g.reaches(b + 3, b),
        forall|n: int| g.reaches(b + 3, n) ==> g.nodes@[n].op.differentiable(),
{
    assert(g.nodes@[b + 3].output == r);
    assert(g.nodes@[b + 3].inputs@[0] as int == r - 1);
    assert(g.nodes@[b + 2].inputs@[0] as int == r - 2);
    assert(g.nodes@[b + 1].inputs@[1] as int == r - 3);
    assert(g.vars@[r - 1].parent == Some((b + 2) as usize));
    assert(g.vars@[r - 2].parent == Some((b + 1) as usize));
    assert(g.vars@[r - 3].parent == Some(b as usize));
    assert(g.grad_edge(b + 3, 0, b + 2));
    assert(g.grad_edge(b + 2, 0, b + 1));
    assert(g.grad_edge(b + 1, 1, b));
    let path = seq![b + 3, b + 2, b + 1, b];
    assert forall|i: int| 0 <= i < path.len() - 1 implies #[trigger] g.feeds(path[i], path[i + 1]) by {
        if i == 0 {
            assert(g.grad_edge(b + 3, 0, b + 2));
        } else if i == 1 {
            assert(g.grad_edge(b + 2, 0, b + 1));
        } else {
            assert(g.grad_edge(b + 1, 1, b));
        }
    }
    assert(g.is_path(path));
    assert forall|n: int| g.reaches(b + 3, n) implies g.nodes@[n].op.differentiable() by {
        lemma_backward_succeeds(g, b + 3, n);
    }
}

/// Computes the values of tensor `out`, produced by a node on two inputs of
/// its shape, by applying `f` to the inputs' values pairwise: the forward rule
/// of the elementwise binary operators (`f` adds for add, and so on).
pub fn forward_elementwise2<T: Copy, F: Fn(T, T) -> T>(g: &mut Graph<T>, out: usize, f: F)
    requires
        old(g).wf(),
        old(g).has(out),
        old(g).vars@[out as int].parent matches Some(n) && {
            let ins = old(g).nodes@[n as int].inputs@;
            &&& ins.len() == 2
            &&& old(g).shape_of(ins[0]) == old(g).shape_of(out)
            &&& old(g).shape_of(ins[1]) == old(g).shape_of(out)
        },
        forall|a: T, b: T| f.requires((a, b)),
    ensures
        final(g).wf(),
        final(g).nodes@ == old(g).nodes@,
        final(g).zero == old(g).zero,
        final(g).one == old(g).one,
        final(g).vars@ == old(g).vars@.update(out as int, final(g).vars@[out as int]),
        final(g).vars@[out as int].grad@ == old(g).vars@[out as int].grad@,
        final(g).vars@[out as int].shape@ == old(g).shape_of(out),
        final(g).vars@[out as int].need_grad == old(g).vars@[out as int].need_grad,
        final(g).vars@[out as int].parent == old(g).vars@[out as int].parent,
        final(g).vars@[out as int].data@.len() == old(g).vars@[out as int].data@.len(),
        old(g).vars@[out as int].parent matches Some(n) && {
            let ins = old(g).nodes@[n as int].inputs@;
            forall|i: int| 0 <= i < final(g).vars@[out as int].data@.len() ==> f.ensures(
                (old(g).vars@[ins[0] as int].data@[i], old(g).vars@[ins[1] as int].data@[i]),
                #[trigger] final(g).vars@[out as int].data@[i],
            )
        },
{
    let n = g.vars[out].parent.unwrap();
    proof {
        assert(g.vars@[out as int].wf());
    }
    let x = g.nodes[n].inputs[0];
    let y = g.nodes[n].inputs[1];
    proof {
        assert(g.input_ok(n as int, g.nodes@[n as int].inputs@[0]));
        assert(g.input_ok(n as int, g.nodes@[n as int].inputs@[1]));
        assert(g.vars@[x as int].wf());
        assert(g.vars@[y as int].wf());
    }
    let len = g.vars[out].data.len();
    let mut values: Vec<T> = Vec::new();
    let mut i: usize = 0;
    while i < len
        invariant
            g == old(g),
            g.has(x),
            g.has(y),
            len == g.vars@[x as int].data@.len(),
            len == g.vars@[y as int].data@.len(),
            i <= len,
            values@.len() == i,
            forall|a: T, b: T| f.requires((a, b)),
            forall|k: int| 0 <= k < i ==> f.ensures(
                (g.vars@[x as int].data@[k], g.vars@[y as int].data@[k]),
                #[trigger] values@[k],
            ),
        decreases len - i,
    {
        let v = f(g.vars[x].data[i], g.vars[y].data[i]);
        values.push(v);
        i = i + 1;
    }
    g.set_data(out, values.as_slice());
}

/// Computes the values of tensor `out`, produced by a node on one input of
/// its shape, by applying `f` to each of the input's values: the forward rule
/// of the elementwise unary operators (`f` negates for neg, and so on).
pub fn forward_elementwise1<T: Copy, F: Fn(T) -> T>(g: &mut Graph<T>, out: usize, f: F)
    requires
        old(g).wf(),
        old(g).has(out),
        old(g).vars@[out as int].parent matches Some(n) && {
            let ins = old(g).nodes@[n as int].inputs@;
            &&& ins.len() == 1
            &&& old(g).shape_of(ins[0]) == old(g).shape_of(out)
        },
        forall|a: T| f.requires((a,)),
    ensures
        final(g).wf(),
        final(g).nodes@ == old(g).nodes@,
        final(g).zero == old(g).zero,
        final(g).one == old(g).one,
        final(g).vars@ == old(g).vars@.update(out as int, final(g).vars@[out as int]),
        final(g).vars@[out as int].grad@ == old(g).vars@[out as int].grad@,
        final(g).vars@[out as int].shape@ == old(g).shape_of(out),
        final(g).vars@[out as int].need_grad == old(g).vars@[out as int].need_grad,
        final(g).vars@[out as int].parent == old(g).vars@[out as int].parent,
        final(g).vars@[out as int].data@.len() == old(g).vars@[out as int].data@.len(),
        old(g).vars@[out as int].parent matches Some(n) && {
            let ins = old(g).nodes@[n as int].inputs@;
            forall|i: int| 0 <= i < final(g).vars@[out as int].data@.len() ==> f.ensures(
                (old(g).vars@[ins[0] as int].data@[i],),
                #[trigger] final(g).vars@[out as int].data@[i],
            )
        },
{
    let n = g.vars[out].parent.unwrap();
    proof {
        assert(g.vars@[out as int].wf());
    }
    let x = g.nodes[n].inputs[0];
    proof {
        assert(g.input_ok(n as int, g.nodes@[n as int].inputs@[0]));
        assert(g.vars@[x as int].wf());
    }
    let len = g.vars[out].data.len();
    let mut values: Vec<T> = Vec::new();
    let mut i: usize = 0;
    while i < len
        invariant
            g == old(g),
            g.has(x),
            len == g.vars@[x as int].data@.len(),
            i <= len,
            values@.len() == i,
            forall|a: T| f.requires((a,)),
            forall|k: int| 0 <= k < i ==> f.ensures((g.vars@[x as int].data@[k],), #[trigger] values@[k]),
        decreases len - i,
    {
        let v = f(g.vars[x].data[i]);
        values.push(v);
        i = i + 1;
    }
    g.set_data(out, values.as_slice());
}


/// The transpose of the `rows` x `cols` matrix `x`, stored row-major: the
/// `cols` x `rows` matrix whose element `(j, i)` is element `(i, j)` of `x`.
pub open spec fn transposed<T>(x: Seq<T>, rows: nat, cols: nat) -> Seq<T> {
    Seq::new(rows * cols, |k: int| x[(k % (rows as int)) * (cols as int) + k / (rows as int)])
}

/// Element `(i, j)` of a matrix is element `(j, i)` of its transpose.
pub proof fn lemma_transposed_at<T>(x: Seq<T>, rows: nat, cols: nat, i: int, j: int)
    requires
        0 <= i < rows,
        0 <= j < cols,
    ensures
        0 <= j * rows + i < rows * cols,
        transposed(x, rows, cols)[j * rows + i] == x[i * cols + j],
{
    assert(j * rows + i < rows * cols) by (nonlinear_arith)
        requires 0 <= i < rows, 0 <= j < cols;
    assert(0 <= j * rows + i) by (nonlinear_arith)
        requires 0 <= i, 0 <= j;
    lemma_fundamental_div_mod_converse(j * rows + i, rows as int, j, i);
}

/// The transpose of the `rows` x `cols` matrix `x`, stored row-major.
pub fn transpose<T: Copy>(x: &Vec<T>, rows: usize, cols: usize) -> (r: Vec<T>)
    requires
        x.len() == rows * cols,
    ensures
        r@ == transposed(x@, rows as nat, cols as nat),
{
    let ghost want = transposed(x@, rows as nat, cols as nat);
    let mut r: Vec<T> = Vec::new();
    let mut j: usize = 0;
    while j < cols
        invariant
            x.len() == rows * cols,
            want == transposed(x@, rows as nat, cols as nat),
            j <= cols,
            r@.len() == j * rows,
            forall|k: int| 0 <= k < r@.len() ==> r@[k] == want[k],
        decreases cols - j,
    {
        let mut i: usize = 0;
        while i < rows
            invariant
                x.len() == rows * cols,
                want == transposed(x@, rows as nat, cols as nat),
                j < cols,
                i <= rows,
                r@.len() == j * rows + i,
                forall|k: int| 0 <= k < r@.len() ==> r@[k] == want[k],
            decreases rows - i,
        {
            proof {
                assert(i * cols + j < rows * cols) by (nonlinear_arith)
                    requires i < rows, j < cols;
                assert(0 <= i * cols + j) by (nonlinear_arith);
                lemma_transposed_at(x@, rows as nat, cols as nat, i as int, j as int);
            }
            r.push(x[i * cols + j]);
            i = i + 1;
        }
        j = j + 1;
        proof {
            assert(j * rows == (j - 1) * rows + rows) by (nonlinear_arith);
        }
    }
    proof {
        assert(cols * rows == rows * cols) by (nonlinear_arith);
        assert(r@ =~= want);
    }
    r
}


/// `r` is what folding `f` over the pairs `(a[t], b[t])` yields from `init`:
/// `f(... f(f(init, a[0], b[0]), a[1], b[1]) ..., a[k - 1], b[k - 1])`, where
/// each step is a result that `f` may return on its arguments.
pub open spec fn folds<T, F: Fn(T, T, T) -> T>(f: F, init: T, a: Seq<T>, b: Seq<T>, r: T) -> bool {
    exists|steps: Seq<T>| #[trigger] fold_steps(f, init, a, b, steps) && steps.last() == r
}

/// `steps` holds `init` and then the result of each step of folding `f` over
/// the pairs `(a[t], b[t])`.
pub open spec fn fold_steps<T, F: Fn(T, T, T) -> T>(f: F, init: T, a: Seq<T>, b: Seq<T>, steps: Seq<T>) -> bool {
    &&& steps.len() == a.len() + 1
    &&& steps[0] == init
    &&& forall|t: int| 0 <= t < a.len() ==> f.ensures((steps[t], a[t], b[t]), #[trigger] steps[t + 1])
}

/// One more step of a fold.
proof fn lemma_folds_step<T, F: Fn(T, T, T) -> T>(f: F, init: T, a: Seq<T>, b: Seq<T>, m: T, x: T, y: T, r: T)
    requires
        a.len() == b.len(),
        folds(f, init, a, b, m),
        f.ensures((m, x, y), r),
    ensures
        folds(f, init, a.push(x), b.push(y), r),
{
    let steps = choose|steps: Seq<T>| #[trigger] fold_steps(f, init, a, b, steps) && steps.last() == m;
    let more = steps.push(r);
    assert forall|t: int| 0 <= t < a.push(x).len() implies f.ensures((more[t], a.push(x)[t], b.push(y)[t]), #[trigger] more[t + 1]) by {
        if t < a.len() {
            assert(more[t + 1] == steps[t + 1]);
            assert(f.ensures((steps[t], a[t], b[t]), steps[t + 1]));
        } else {
            assert(more[t] == m);
        }
    }
    assert(fold_steps(f, init, a.push(x), b.push(y), more));
}

/// A fold over nothing yields its start.
proof fn lemma_folds_empty<T, F: Fn(T, T, T) -> T>(f: F, init: T, a: Seq<T>, b: Seq<T>)
    requires
        a.len() == 0,
    ensures
        folds(f, init, a, b, init),
{
    assert(fold_steps(f, init, a, b, seq![init]));
}

/// Row `i` of the row-major matrix `x` with `k` columns.
pub open spec fn mat_row<T>(x: Seq<T>, k: nat, i: int) -> Seq<T> {
    x.subrange(i * k, i * k + k)
}

/// Column `j` of the row-major matrix `y` with `k` rows and `n` columns.
pub open spec fn mat_col<T>(y: Seq<T>, k: nat, n: nat, j: int) -> Seq<T> {
    Seq::new(k, |t: int| y[t * (n as int) + j])
}

/// A matrix product over the step `f`: for `x` of shape `[m, k]`, `y` of shape
/// `[k, n]` and `init` of shape `[m, n]`, element `(i, j)` of the result folds
/// `f` over row `i` of `x` and column `j` of `y`, starting from `init[i, j]`.
/// With `f(acc, a, b) = acc + a * b` and a zero `init` this is `x @ y`; with a
/// gradient buffer as `init` it adds `x @ y` into it. Summing a gradient over
/// the batch slices of a broadcast is the product of a row of `batch`
/// elements with `dout` under `f(acc, _, d) = acc + d`.
pub fn matmul_fold<T: Copy, F: Fn(T, T, T) -> T>(
    x: &Vec<T>,
    y: &Vec<T>,
    init: &Vec<T>,
    m: usize,
    k: usize,
    n: usize,
    f: &F,
) -> (r: Vec<T>)
    requires
        x.len() == m * k,
        y.len() == k * n,
        init.len() == m * n,
        forall|acc: T, a: T, b: T| f.requires((acc, a, b)),
    ensures
        r@.len() == m * n,
        forall|p: int| 0 <= p < m * n ==> folds(
            *f,
            init@[p],
            mat_row(x@, k as nat, p / (n as int)),
            mat_col(y@, k as nat, n as nat, p % (n as int)),
            #[trigger] r@[p],
        ),
{
    let mut r: Vec<T> = Vec::new();
    let mut i: usize = 0;
    while i < m
        invariant
            x.len() == m * k,
            y.len() == k * n,
            init.len() == m * n,
            forall|acc: T, a: T, b: T| f.requires((acc, a, b)),
            i <= m,
            r@.len() == i * n,
            forall|p: int| 0 <= p < r@.len() ==> folds(
                *f,
                init@[p],
                mat_row(x@, k as nat, p / (n as int)),
                mat_col(y@, k as nat, n as nat, p % (n as int)),
                #[trigger] r@[p],
            ),
        decreases m - i,
    {
        proof {
            assert(i * n + n <= m * n) by (nonlinear_arith)
                requires i < m;
            assert(i * k + k <= m * k) by (nonlinear_arith)
                requires i < m;
        }
        let mut j: usize = 0;
        while j < n
            invariant
                x.len() == m * k,
                y.len() == k * n,
                init.len() == m * n,
                forall|acc: T, a: T, b: T| f.requires((acc, a, b)),
                i < m,
                i * n + n <= m * n,
                i * k + k <= m * k,
                j <= n,
                r@.len() == i * n + j,
                forall|p: int| 0 <= p < r@.len() ==> folds(
                    *f,
                    init@[p],
                    mat_row(x@, k as nat, p / (n as int)),
                    mat_col(y@, k as nat, n as nat, p % (n as int)),
                    #[trigger] r@[p],
                ),
            decreases n - j,
        {
            let ghost row = mat_row(x@, k as nat, i as int);
            let ghost col = mat_col(y@, k as nat, n as nat, j as int);
            let mut acc = init[i * n + j];
            proof {
                lemma_folds_empty(*f, acc, row.take(0), col.take(0));
            }
            let mut t: usize = 0;
            while t < k
                invariant
                    x.len() == m * k,
                    y.len() == k * n,
                    init.len() == m * n,
                    forall|acc: T, a: T, b: T| f.requires((acc, a, b)),
                    i < m,
                    j < n,
                    i * n + n <= m * n,
                    i * k + k <= m * k,
                    t <= k,
                    row == mat_row(x@, k as nat, i as int),
                    col == mat_col(y@, k as nat, n as nat, j as int),
                    folds(*f, init@[i * n + j], row.take(t as int), col.take(t as int), acc),
                decreases k - t,
            {
                proof {
                    assert(t * n + j < k * n) by (nonlinear_arith)
                        requires t < k, j < n;
                    assert(0 <= t * n + j) by (nonlinear_arith);
                }
                let a = x[i * k + t];
                let b = y[t * n + j];
                let ghost before = acc;
                acc = f(acc, a, b);
                proof {
                    let ra = row.take(t + 1);
                    let cb = col.take(t + 1);
                    assert(ra.drop_last() =~= row.take(t as int));
                    assert(cb.drop_last() =~= col.take(t as int));
                    assert(ra =~= row.take(t as int).push(a));
                    assert(cb =~= col.take(t as int).push(b));
                    lemma_folds_step(*f, init@[i * n + j], row.take(t as int), col.take(t as int), before, a, b, acc);
                }
                t = t + 1;
            }
            proof {
                assert(row.take(k as int) =~= row);
                assert(col.take(k as int) =~= col);
                lemma_fundamental_div_mod_converse(i * n + j, n as int, i as int, j as int);
            }
            r.push(acc);
            j = j + 1;
        }
        i = i + 1;
        proof {
            assert(i * n == (i - 1) * n + n) by (nonlinear_arith);
        }
    }
    r
}


/// Step `j` of a left-to-right scan of `row` for its maximum: `trace[j]` is
/// the index kept after looking at element `j`, which replaces the index kept
/// before exactly when `gt(row[j], row[kept])` returns true.
pub open spec fn scan_step<T, F: Fn(T, T) -> bool>(gt: F, row: Seq<T>, trace: Seq<int>, j: int) -> bool {
    let kept = trace[j - 1];
    &&& 0 <= kept < j
    &&& (gt.ensures((row[j], row[kept]), true) && trace[j] == j || gt.ensures((row[j], row[kept]), false)
        && trace[j] == kept)
}

/// `trace` records a scan of `row` that starts at index 0.
pub open spec fn scan_trace<T, F: Fn(T, T) -> bool>(gt: F, row: Seq<T>, trace: Seq<int>) -> bool {
    &&& trace.len() == row.len()
    &&& trace[0] == 0
    &&& forall|j: int| 1 <= j < row.len() ==> #[trigger] scan_step(gt, row, trace, j)
}

/// `best` is the index of the first maximum of the non-empty `row` under the
/// strict comparison `gt`: the index a scan of `row` keeps at its end.
pub open spec fn first_max<T, F: Fn(T, T) -> bool>(gt: F, row: Seq<T>, best: int) -> bool {
    exists|trace: Seq<int>| #[trigger] scan_trace(gt, row, trace) && trace.last() == best
}

/// The index of the first maximum of `x[offset .. offset + len]` under `gt`.
fn scan_row<T: Copy, F: Fn(T, T) -> bool>(x: &Vec<T>, offset: usize, len: usize, gt: &F) -> (r: usize)
    requires
        offset + len <= x.len(),
        len >= 1,
        forall|a: T, b: T| gt.requires((a, b)),
    ensures
        r < len,
        first_max(*gt, x@.subrange(offset as int, offset + len), r as int),
{
    let ghost row = x@.subrange(offset as int, offset + len);
    let mut best: usize = 0;
    let ghost mut trace: Seq<int> = seq![0int];
    let mut j: usize = 1;
    while j < len
        invariant
            offset + len <= x.len(),
            forall|a: T, b: T| gt.requires((a, b)),
            row == x@.subrange(offset as int, offset + len),
            1 <= j <= len,
            best < j,
            trace.len() == j,
            trace[0] == 0,
            trace.last() == best,
            forall|jj: int| 1 <= jj < j ==> #[trigger] scan_step(*gt, row, trace, jj),
        decreases len - j,
    {
        let ghost old_trace = trace;
        let ghost kept = best as int;
        let moves = gt(x[offset + j], x[offset + best]);
        if moves {
            best = j;
        }
        proof {
            assert(row[j as int] == x@[offset + j]);
            assert(row[kept] == x@[offset + kept]);
            trace = old_trace.push(best as int);
            assert forall|jj: int| 1 <= jj < j + 1 implies #[trigger] scan_step(*gt, row, trace, jj) by {
                if jj < j {
                    assert(scan_step(*gt, row, old_trace, jj));
                    assert(trace[jj] == old_trace[jj]);
                    assert(trace[jj - 1] == old_trace[jj - 1]);
                } else {
                    assert(trace[jj - 1] == kept);
                }
            }
        }
        j = j + 1;
    }
    proof {
        assert(scan_trace(*gt, row, trace));
    }
    best
}

/// For each row of the `rows` x `cols` matrix `x`, the index of its first
/// maximum under the strict comparison `gt` (`|a, b| a > b` for numbers):
/// ties keep the lowest index. This is the forward rule of argmax.
pub fn argmax_rows<T: Copy, F: Fn(T, T) -> bool>(x: &Vec<T>, rows: usize, cols: usize, gt: F) -> (r: Vec<usize>)
    requires
        x.len() == rows * cols,
        cols >= 1,
        forall|a: T, b: T| gt.requires((a, b)),
    ensures
        r@.len() == rows,
        forall|i: int| 0 <= i < rows ==> #[trigger] r@[i] < cols && first_max(gt, mat_row(x@, cols as nat, i), r@[i] as int),
{
    let mut r: Vec<usize> = Vec::new();
    let mut i: usize = 0;
    while i < rows
        invariant
            x.len() == rows * cols,
            cols >= 1,
            forall|a: T, b: T| gt.requires((a, b)),
            i <= rows,
            r@.len() == i,
            forall|ii: int| 0 <= ii < i ==> #[trigger] r@[ii] < cols && first_max(gt, mat_row(x@, cols as nat, ii), r@[ii] as int),
        decreases rows - i,
    {
        proof {
            assert(i * cols + cols <= rows * cols) by (nonlinear_arith)
                requires i < rows;
        }
        let best = scan_row(x, i * cols, cols, &gt);
        r.push(best);
        i = i + 1;
        proof {
            assert(r@[i - 1] == best);
        }
    }
    r
}

} // verus!
