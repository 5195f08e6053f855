use vstd::prelude::*;
use crate::functions::{copy_slice, folds, mat_row, mat_col, matmul_fold, transpose, transposed};
use crate::graph::{Graph, GradError, start_backward, lemma_backward_succeeds};
use crate::ops::Op;
use crate::shape::{shape_size, lemma_size_two, lemma_size_first};
use crate::variable::{filled, filled_vec};

verus! {

/// The backward rule that one elementwise gradient step applies: the operator
/// and, for two-input operators, the input whose gradient is updated.
#[derive(Clone, Copy)]
pub enum GradStep {
    AddX,
    AddY,
    SubX,
    SubY,
    MulX,
    MulY,
    DivX,
    DivY,
    Neg,
    Square,
    Log,
    ReLu,
    Mean,
}

/// The steps for the first and the last input of an elementwise node.
pub open spec fn steps_of(op: Op) -> (GradStep, GradStep) {
    match op {
        Op::Add(_) => (GradStep::AddX, GradStep::AddY),
        Op::Sub(_) => (GradStep::SubX, GradStep::SubY),
        Op::Mul(_) => (GradStep::MulX, GradStep::MulY),
        Op::Div(_) => (GradStep::DivX, GradStep::DivY),
        Op::Neg(_) => (GradStep::Neg, GradStep::Neg),
        Op::Square(_) => (GradStep::Square, GradStep::Square),
        Op::Log(_) => (GradStep::Log, GradStep::Log),
        Op::ReLu(_) => (GradStep::ReLu, GradStep::ReLu),
        _ => (GradStep::Mean, GradStep::Mean),
    }
}

/// How a node's backward step is computed: 1 for two-input elementwise
/// operators, 2 for one-input ones, 3 mean, 4 matrix product, 5 broadcast,
/// 6 softmax, 7 log-softmax, 0 for operators without gradient.
pub open spec fn kind_of(op: Op) -> u8 {
    match op {
        Op::Add(_) | Op::Sub(_) | Op::Mul(_) | Op::Div(_) => 1,
        Op::Neg(_) | Op::Square(_) | Op::Log(_) | Op::ReLu(_) => 2,
        Op::Mean(_) => 3,
        Op::MatMul(_) => 4,
        Op::Broadcast(_) => 5,
        Op::Softmax(_) => 6,
        Op::LogSoftmax(_) => 7,
        Op::Argmax(_) | Op::Onehot(_) => 0,
    }
}

fn kind_and_steps(op: &Op) -> (r: (u8, GradStep, GradStep))
    ensures
        r.0 == kind_of(*op),
        (r.1, r.2) == steps_of(*op),
{
    match op {
        Op::Add(_) => (1, GradStep::AddX, GradStep::AddY),
        Op::Sub(_) => (1, GradStep::SubX, GradStep::SubY),
        Op::Mul(_) => (1, GradStep::MulX, GradStep::MulY),
        Op::Div(_) => (1, GradStep::DivX, GradStep::DivY),
        Op::Neg(_) => (2, GradStep::Neg, GradStep::Neg),
        Op::Square(_) => (2, GradStep::Square, GradStep::Square),
        Op::Log(_) => (2, GradStep::Log, GradStep::Log),
        Op::ReLu(_) => (2, GradStep::ReLu, GradStep::ReLu),
        Op::Mean(_) => (3, GradStep::Mean, GradStep::Mean),
        Op::MatMul(_) => (4, GradStep::Mean, GradStep::Mean),
        Op::Broadcast(_) => (5, GradStep::Mean, GradStep::Mean),
        Op::Softmax(_) => (6, GradStep::Mean, GradStep::Mean),
        Op::LogSoftmax(_) => (7, GradStep::Mean, GradStep::Mean),
        Op::Argmax(_) => (0, GradStep::Mean, GradStep::Mean),
        Op::Onehot(_) => (0, GradStep::Mean, GradStep::Mean),
    }
}

/// `g2` is `g` with the gradient of tensor `t` replaced by `new`.
pub open spec fn grad_updated<T: Copy>(g: &Graph<T>, g2: &Graph<T>, t: int, new: Seq<T>) -> bool {
    &&& g2.wf()
    &&& g2.nodes@ == g.nodes@
    &&& g2.zero == g.zero
    &&& g2.one == g.one
    &&& g2.vars@ == g.vars@.update(t, g2.vars@[t])
    &&& g2.vars@[t].data@ == g.vars@[t].data@
    &&& g2.vars@[t].shape@ == g.vars@[t].shape@
    &&& g2.vars@[t].need_grad == g.vars@[t].need_grad
    &&& g2.vars@[t].parent == g.vars@[t].parent
    &&& g2.vars@[t].grad@ == new
}

/// Element `i` of `new` is `elem(step, acc[i], a[i], b[i], d[i])`.
pub open spec fn elem_grad<T, E: Fn(GradStep, T, T, T, T) -> T>(
    elem: E,
    step: GradStep,
    acc: Seq<T>,
    a: Seq<T>,
    b: Seq<T>,
    d: Seq<T>,
    new: Seq<T>,
) -> bool {
    &&& new.len() == acc.len()
    &&& forall|i: int| 0 <= i < acc.len() ==> elem.ensures((step, acc[i], a[i], b[i], d[i]), #[trigger] new[i])
}

/// `new_row` is what `rule` returns on the output row `y_row`, the output
/// gradient row `d_row` and the input gradient row `acc_row`.
pub open spec fn row_grad_result<T, R: Fn(bool, Vec<T>, Vec<T>, Vec<T>) -> Vec<T>>(
    rule: R,
    log: bool,
    y_row: Seq<T>,
    d_row: Seq<T>,
    acc_row: Seq<T>,
    new_row: Seq<T>,
) -> bool {
    exists|y: Vec<T>, d: Vec<T>, acc: Vec<T>, w: Vec<T>|
        y@ == y_row && d@ == d_row && acc@ == acc_row && w@ == new_row && #[trigger] rule.ensures(
            (log, y, d, acc),
            w,
        )
}

/// Replaces the gradient of tensor `t` by `elem(step, grad[i], a[i], b[i], d[i])`.
fn elem_update<T: Copy, E: Fn(GradStep, T, T, T, T) -> T>(
    g: &mut Graph<T>,
    t: usize,
    step: GradStep,
    a: &Vec<T>,
    b: &Vec<T>,
    d: &Vec<T>,
    elem: &E,
)
    requires
        old(g).wf(),
        old(g).has(t),
        a@.len() == old(g).vars@[t as int].grad@.len(),
        b@.len() == a@.len(),
        d@.len() == a@.len(),
        forall|s: GradStep, acc: T, x: T, y: T, z: T| elem.requires((s, acc, x, y, z)),
    ensures
        grad_updated(old(g), final(g), t as int, final(g).vars@[t as int].grad@),
        elem_grad(*elem, step, old(g).vars@[t as int].grad@, a@, b@, d@, final(g).vars@[t as int].grad@),
{
    proof {
        assert(g.vars@[t as int].wf());
    }
    let len = a.len();
    let mut values: Vec<T> = Vec::new();
    let mut i: usize = 0;
    while i < len
        invariant
            g == old(g),
            g.has(t),
            len == a@.len(),
            len == g.vars@[t as int].grad@.len(),
            b@.len() == len,
            d@.len() == len,
            i <= len,
            values@.len() == i,
            forall|s: GradStep, acc: T, x: T, y: T, z: T| elem.requires((s, acc, x, y, z)),
            forall|k: int| 0 <= k < i ==> elem.ensures(
                (step, g.vars@[t as int].grad@[k], a@[k], b@[k], d@[k]),
                #[trigger] values@[k],
            ),
        decreases len - i,
    {
        let v = elem(step, g.vars[t].grad[i], a[i], b[i], d[i]);
        values.push(v);
        i = i + 1;
    }
    proof {
        assert(g.vars@[t as int].wf());
    }
    g.set_grad(t, values.as_slice());
}

/// Replaces the gradient of tensor `t`, an `m` x `n` matrix, by the product of
/// `x` (`[m, k]`) and `y` (`[k, n]`) folded under `step` from it.
fn fold_update<T: Copy, M: Fn(T, T, T) -> T>(
    g: &mut Graph<T>,
    t: usize,
    x: &Vec<T>,
    y: &Vec<T>,
    m: usize,
    k: usize,
    n: usize,
    step: &M,
)
    requires
        old(g).wf(),
        old(g).has(t),
        old(g).vars@[t as int].grad@.len() == m * n,
        x.len() == m * k,
        y.len() == k * n,
        forall|acc: T, a: T, b: T| step.requires((acc, a, b)),
    ensures
        grad_updated(old(g), final(g), t as int, final(g).vars@[t as int].grad@),
        final(g).vars@[t as int].grad@.len() == m * n,
        forall|p: int| 0 <= p < m * n ==> folds(
            *step,
            old(g).vars@[t as int].grad@[p],
            mat_row(x@, k as nat, p / (n as int)),
            mat_col(y@, k as nat, n as nat, p % (n as int)),
            #[trigger] final(g).vars@[t as int].grad@[p],
        ),
{
    let len = g.vars[t].grad.len();
    let init = copy_slice(&g.vars[t].grad, 0, len);
    proof {
        assert(init@ =~= g.vars@[t as int].grad@);
        assert(g.vars@[t as int].wf());
    }
    let values = matmul_fold(x, y, &init, m, k, n, step);
    g.set_grad(t, values.as_slice());
}

/// Replaces the gradient of tensor `t`, a `rows` x `cols` matrix, row by row by
/// what `rule` returns on the matching rows of `y`, `d` and the gradient.
fn row_update<T: Copy, R: Fn(bool, Vec<T>, Vec<T>, Vec<T>) -> Vec<T>>(
    g: &mut Graph<T>,
    t: usize,
    y: &Vec<T>,
    d: &Vec<T>,
    rows: usize,
    cols: usize,
    log: bool,
    rule: &R,
)
    requires
        old(g).wf(),
        old(g).has(t),
        old(g).vars@[t as int].grad@.len() == rows * cols,
        y.len() == rows * cols,
        d.len() == rows * cols,
        forall|l: bool, a: Vec<T>, b: Vec<T>, c: Vec<T>| rule.requires((l, a, b, c)),
        forall|l: bool, a: Vec<T>, b: Vec<T>, c: Vec<T>, w: Vec<T>| rule.ensures((l, a, b, c), w) ==> w@.len() == c@.len(),
    ensures
        grad_updated(old(g), final(g), t as int, final(g).vars@[t as int].grad@),
        final(g).vars@[t as int].grad@.len() == rows * cols,
        forall|i: int| 0 <= i < rows ==> #[trigger] row_grad_result(
            *rule,
            log,
            mat_row(y@, cols as nat, i),
            mat_row(d@, cols as nat, i),
            mat_row(old(g).vars@[t as int].grad@, cols as nat, i),
            mat_row(final(g).vars@[t as int].grad@, cols as nat, i),
        ),
{
    proof {
        assert(g.vars@[t as int].wf());
    }
    let ghost gt = g.vars@[t as int].grad@;
    let mut out: Vec<T> = Vec::new();
    let mut i: usize = 0;
    while i < rows
        invariant
            g == old(g),
            g.has(t),
            gt == g.vars@[t as int].grad@,
            g.vars[t as int].grad.len() == rows * cols,
            y.len() == rows * cols,
            d.len() == rows * cols,
            forall|l: bool, a: Vec<T>, b: Vec<T>, c: Vec<T>| rule.requires((l, a, b, c)),
            forall|l: bool, a: Vec<T>, b: Vec<T>, c: Vec<T>, w: Vec<T>| rule.ensures((l, a, b, c), w) ==> w@.len() == c@.len(),
            i <= rows,
            out@.len() == i * cols,
            forall|ii: int| 0 <= ii < i ==> #[trigger] row_grad_result(
                *rule,
                log,
                mat_row(y@, cols as nat, ii),
                mat_row(d@, cols as nat, ii),
                mat_row(gt, cols as nat, ii),
                out@.subrange(ii * cols, ii * cols + cols),
            ),
        decreases rows - i,
    {
        proof {
            assert(i * cols + cols <= rows * cols) by (nonlinear_arith)
                requires i < rows;
        }
        let yr = copy_slice(y, i * cols, cols);
        let dr = copy_slice(d, i * cols, cols);
        let ar = copy_slice(&g.vars[t].grad, i * cols, cols);
        let ghost (yv, dv, av) = (yr, dr, ar);
        let w = rule(log, yr, dr, ar);
        let ghost before = out@;
        let mut j: usize = 0;
        while j < cols
            invariant
                j <= cols,
                w@.len() == cols,
                out@.len() == before.len() + j,
                out@.subrange(0, before.len() as int) == before,
                forall|jj: int| 0 <= jj < j ==> out@[before.len() + jj] == w@[jj],
            decreases cols - j,
        {
            out.push(w[j]);
            j = j + 1;
            proof {
                assert(out@.subrange(0, before.len() as int) =~= before);
            }
        }
        proof {
            assert(out@.subrange(i * cols, i * cols + cols) =~= w@);
            assert forall|ii: int| 0 <= ii < i + 1 implies #[trigger] row_grad_result(
                *rule,
                log,
                mat_row(y@, cols as nat, ii),
                mat_row(d@, cols as nat, ii),
                mat_row(gt, cols as nat, ii),
                out@.subrange(ii * cols, ii * cols + cols),
            ) by {
                if ii < i {
                    assert(ii * cols + cols <= i * cols) by (nonlinear_arith)
                        requires ii < i;
                    assert(0 <= ii * cols) by (nonlinear_arith)
                        requires 0 <= ii;
                    assert(out@.subrange(ii * cols, ii * cols + cols) =~= before.subrange(ii * cols, ii * cols + cols));
                } else {
                    assert(rule.ensures((log, yv, dv, av), w));
                }
            }
        }
        i = i + 1;
        proof {
            assert(i * cols == (i - 1) * cols + cols) by (nonlinear_arith);
        }
    }
    proof {
        assert forall|ii: int| 0 <= ii < rows implies mat_row(out@, cols as nat, ii) == out@.subrange(ii * cols, ii * cols + cols) by {
        }
    }
    g.set_grad(t, out.as_slice());
}


/// `g2` is `g` after the backward step of node `n`: the gradients of its
/// inputs are updated from its inputs' values, its output's values and its
/// output's gradient, by the rule of its operator.
///
/// - Two-input elementwise operators: the first input's gradient becomes
///   `elem(first step, grad, a, b, dout)` elementwise (`a`, `b` the input
///   values), then the second input's gradient likewise with the second step,
///   starting from the gradient the first update left.
/// - One-input elementwise operators: `elem(step, grad, a, a, dout)`.
/// - Mean: `elem(Mean, grad, a, a, q)` with `q = scale(dout[0], size)`.
/// - Matrix product `[m, k] @ [k, n]`: the first input's gradient adds
///   `dout @ y^T` under `mul_add`, then the second's adds `x^T @ dout`.
/// - Broadcast: the input's gradient adds the sum of the batch slices of
///   `dout`, as the product of a row of ones with `dout` under `mul_add`.
/// - Softmax and log-softmax: each row of the input's gradient becomes what
///   `row_grad(log, output row, dout row, gradient row)` returns.
pub open spec fn node_step<T: Copy, E, M, S, R>(
    g: &Graph<T>,
    g2: &Graph<T>,
    n: int,
    elem: E,
    mul_add: M,
    scale: S,
    row_grad: R,
) -> bool where
    E: Fn(GradStep, T, T, T, T) -> T,
    M: Fn(T, T, T) -> T,
    S: Fn(T, usize) -> T,
    R: Fn(bool, Vec<T>, Vec<T>, Vec<T>) -> Vec<T>,
 {
    let node = g.nodes@[n];
    let ins = node.inputs@;
    let x = ins[0] as int;
    let y = ins.last() as int;
    let o = node.output as int;
    let xd = g.vars@[x].data@;
    let yd = g.vars@[y].data@;
    let dout = g.vars@[o].grad@;
    let gx = g.vars@[x].grad@;
    let sx = g.vars@[x].shape@;
    let so = g.vars@[o].shape@;
    let kind = kind_of(node.op);
    if kind == 1 {
        exists|mid: Graph<T>|
            #[trigger] grad_updated(g, &mid, x, mid.vars@[x].grad@) && elem_grad(
                elem,
                steps_of(node.op).0,
                gx,
                xd,
                yd,
                dout,
                mid.vars@[x].grad@,
            ) && grad_updated(&mid, g2, y, g2.vars@[y].grad@) && elem_grad(
                elem,
                steps_of(node.op).1,
                mid.vars@[y].grad@,
                xd,
                yd,
                dout,
                g2.vars@[y].grad@,
            )
    } else if kind == 2 {
        grad_updated(g, g2, x, g2.vars@[x].grad@) && elem_grad(elem, steps_of(node.op).0, gx, xd, xd, dout, g2.vars@[x].grad@)
    } else if kind == 3 {
        exists|q: T|
            #[trigger] scale.ensures((dout[0], xd.len() as usize), q) && grad_updated(g, g2, x, g2.vars@[x].grad@)
                && elem_grad(elem, GradStep::Mean, gx, xd, xd, filled(xd.len(), q), g2.vars@[x].grad@)
    } else if kind == 4 {
        let (m, k, nn) = (sx[0] as int, sx[1] as int, so[1] as int);
        exists|mid: Graph<T>|
            #[trigger] grad_updated(g, &mid, x, mid.vars@[x].grad@) && mid.vars@[x].grad@.len() == m * k && (
            forall|p: int|
                0 <= p < m * k ==> folds(
                    mul_add,
                    gx[p],
                    mat_row(dout, nn as nat, p / k),
                    mat_col(transposed(yd, k as nat, nn as nat), nn as nat, k as nat, p % k),
                    #[trigger] mid.vars@[x].grad@[p],
                )) && grad_updated(&mid, g2, y, g2.vars@[y].grad@) && g2.vars@[y].grad@.len() == k * nn && (
            forall|p: int|
                0 <= p < k * nn ==> folds(
                    mul_add,
                    mid.vars@[y].grad@[p],
                    mat_row(transposed(xd, m as nat, k as nat), m as nat, p / nn),
                    mat_col(dout, m as nat, nn as nat, p % nn),
                    #[trigger] g2.vars@[y].grad@[p],
                ))
    } else if kind == 5 {
        let batch = so[0] as nat;
        let size = xd.len() as int;
        &&& grad_updated(g, g2, x, g2.vars@[x].grad@)
        &&& g2.vars@[x].grad@.len() == size
        &&& forall|p: int|
            0 <= p < size ==> folds(
                mul_add,
                gx[p],
                mat_row(filled(batch, g.one), batch, p / size),
                mat_col(dout, batch, size as nat, p % size),
                #[trigger] g2.vars@[x].grad@[p],
            )
    } else if kind == 6 || kind == 7 {
        let (rows, cols) = (so[0] as int, so[1] as nat);
        let log = kind == 7;
        &&& grad_updated(g, g2, x, g2.vars@[x].grad@)
        &&& g2.vars@[x].grad@.len() == rows * cols
        &&& forall|i: int|
            0 <= i < rows ==> #[trigger] row_grad_result(
                row_grad,
                log,
                mat_row(g.vars@[o].data@, cols, i),
                mat_row(dout, cols, i),
                mat_row(gx, cols, i),
                mat_row(g2.vars@[x].grad@, cols, i),
            )
    } else {
        false
    }
}

/// Runs the backward step of node `n`.
fn run_node<T: Copy, E, M, S, R>(g: &mut Graph<T>, n: usize, elem: &E, mul_add: &M, scale: &S, row_grad: &R)
    where
        E: Fn(GradStep, T, T, T, T) -> T,
        M: Fn(T, T, T) -> T,
        S: Fn(T, usize) -> T,
        R: Fn(bool, Vec<T>, Vec<T>, Vec<T>) -> Vec<T>,
    requires
        old(g).wf(),
        n < old(g).nodes@.len(),
        old(g).nodes@[n as int].op.differentiable(),
        forall|s: GradStep, acc: T, a: T, b: T, d: T| elem.requires((s, acc, a, b, d)),
        forall|acc: T, a: T, b: T| mul_add.requires((acc, a, b)),
        forall|v: T, c: usize| scale.requires((v, c)),
        forall|l: bool, a: Vec<T>, b: Vec<T>, c: Vec<T>| row_grad.requires((l, a, b, c)),
        forall|l: bool, a: Vec<T>, b: Vec<T>, c: Vec<T>, w: Vec<T>| row_grad.ensures((l, a, b, c), w) ==> w@.len() == c@.len(),
    ensures
        node_step(old(g), final(g), n as int, *elem, *mul_add, *scale, *row_grad),
{
    let ghost g0 = *g;
    proof {
        assert(g.node_ok(n as int));
    }
    let (kind, sx, sy) = kind_and_steps(&g.nodes[n].op);
    let last = g.nodes[n].inputs.len() - 1;
    let x = g.nodes[n].inputs[0];
    let y = g.nodes[n].inputs[last];
    let o = g.nodes[n].output;
    proof {
        assert(g.input_ok(n as int, g.nodes@[n as int].inputs@[0]));
        assert(g.input_ok(n as int, g.nodes@[n as int].inputs@[last as int]));
        assert(g.vars@[x as int].wf());
        assert(g.vars@[y as int].wf());
        assert(g.vars@[o as int].wf());
    }
    let xlen = g.vars[x].data.len();
    let xd = copy_slice(&g.vars[x].data, 0, xlen);
    let ylen = g.vars[y].data.len();
    let yd = copy_slice(&g.vars[y].data, 0, ylen);
    let dlen = g.vars[o].grad.len();
    let dout = copy_slice(&g.vars[o].grad, 0, dlen);
    proof {
        assert(xd@ =~= g.vars@[x as int].data@);
        assert(yd@ =~= g.vars@[y as int].data@);
        assert(dout@ =~= g.vars@[o as int].grad@);
    }
    if kind == 1 {
        elem_update(g, x, sx, &xd, &yd, &dout, elem);
        let ghost mid = *g;
        proof {
            assert(g.vars@[y as int].grad@.len() == g0.vars@[y as int].grad@.len());
        }
        elem_update(g, y, sy, &xd, &yd, &dout, elem);
        proof {
            assert(grad_updated(&g0, &mid, x as int, mid.vars@[x as int].grad@));
        }
    } else if kind == 2 {
        elem_update(g, x, sx, &xd, &xd, &dout, elem);
    } else if kind == 3 {
        proof {
            assert(shape_size(seq![1usize].drop_last()) == 1);
            assert(shape_size(seq![1usize]) == shape_size(seq![1usize].drop_last()) * 1);
        }
        let q = scale(dout[0], xlen);
        let qs = filled_vec(xlen, q);
        elem_update(g, x, GradStep::Mean, &xd, &xd, &qs, elem);
        proof {
            assert(scale.ensures((g0.vars@[o as int].grad@[0], xd@.len() as usize), q));
        }
    } else if kind == 4 {
        let m = g.vars[x].shape[0];
        let k = g.vars[x].shape[1];
        let nn = g.vars[y].shape[1];
        proof {
            lemma_size_two(g.shape_of(x));
            lemma_size_two(g.shape_of(y));
            lemma_size_two(g.shape_of(o));
            assert(nn * k == k * nn) by (nonlinear_arith);
            assert(k * m == m * k) by (nonlinear_arith);
        }
        let yt = transpose(&yd, k, nn);
        fold_update(g, x, &dout, &yt, m, nn, k, mul_add);
        let ghost mid = *g;
        let xt = transpose(&xd, m, k);
        proof {
            assert(g.vars@[y as int].grad@.len() == g0.vars@[y as int].grad@.len());
        }
        fold_update(g, y, &xt, &dout, k, m, nn, mul_add);
        proof {
            assert(grad_updated(&g0, &mid, x as int, mid.vars@[x as int].grad@));
        }
    } else if kind == 5 {
        let batch = g.vars[o].shape[0];
        proof {
            lemma_size_first(g.shape_of(x));
            lemma_size_first(g.shape_of(o));
            assert(g.shape_of(x).drop_first() =~= g.shape_of(o).drop_first());
        }
        let ones = filled_vec(batch, g.one);
        fold_update(g, x, &ones, &dout, 1, batch, xlen, mul_add);
        proof {
            assert(ones@ == filled(batch as nat, g0.one));
        }
    } else {
        let rows = g.vars[o].shape[0];
        let cols = g.vars[o].shape[1];
        proof {
            lemma_size_two(g.shape_of(o));
        }
        let olen = g.vars[o].data.len();
        let yo = copy_slice(&g.vars[o].data, 0, olen);
        proof {
            assert(yo@ =~= g.vars@[o as int].data@);
        }
        row_update(g, x, &yo, &dout, rows, cols, kind == 7, row_grad);
    }
}

/// `g0` is `old` with the gradient of tensor `root` set to all `one`.
pub open spec fn seeded<T: Copy>(old: &Graph<T>, g0: &Graph<T>, root: int) -> bool {
    &&& g0.wf()
    &&& g0.nodes@ == old.nodes@
    &&& g0.zero == old.zero
    &&& g0.one == old.one
    &&& g0.vars@ == old.vars@.update(root, g0.vars@[root])
    &&& g0.vars@[root].grad@ == filled(shape_size(old.vars@[root].shape@), old.one)
    &&& g0.vars@[root].data@ == old.vars@[root].data@
    &&& g0.vars@[root].shape@ == old.vars@[root].shape@
    &&& g0.vars@[root].need_grad == old.vars@[root].need_grad
    &&& g0.vars@[root].parent == old.vars@[root].parent
}

/// Runs a backward pass from tensor `root`, with the caller's scalar rules
/// (see `node_step`), and returns the order in which the node steps ran.
///
/// A tensor without parent is a leaf: nothing changes and the order is empty.
/// Otherwise, when every node that gradient reaches from the root's parent has
/// a gradient, the root's gradient is set to all ones and the backward step of
/// each reachable node runs exactly once, in decreasing index order, so after
/// every node that passes gradient to it (`Graph::schedule`): a tensor used by
/// several nodes collects every contribution, each added once, before its own
/// producer runs. Else nothing changes and a node without gradient is named.
pub fn backward<T: Copy, E, M, S, R>(
    g: &mut Graph<T>,
    root: usize,
    elem: E,
    mul_add: M,
    scale: S,
    row_grad: R,
) -> (r: Result<Vec<usize>, GradError>) where
    E: Fn(GradStep, T, T, T, T) -> T,
    M: Fn(T, T, T) -> T,
    S: Fn(T, usize) -> T,
    R: Fn(bool, Vec<T>, Vec<T>, Vec<T>) -> Vec<T>,

    requires
        old(g).wf(),
        old(g).has(root),
        forall|s: GradStep, acc: T, a: T, b: T, d: T| elem.requires((s, acc, a, b, d)),
        forall|acc: T, a: T, b: T| mul_add.requires((acc, a, b)),
        forall|v: T, c: usize| scale.requires((v, c)),
        forall|l: bool, a: Vec<T>, b: Vec<T>, c: Vec<T>| row_grad.requires((l, a, b, c)),
        forall|l: bool, a: Vec<T>, b: Vec<T>, c: Vec<T>, w: Vec<T>| row_grad.ensures((l, a, b, c), w) ==> w@.len() == c@.len(),
    ensures
        final(g).wf(),
        final(g).nodes@ == old(g).nodes@,
        final(g).zero == old(g).zero,
        final(g).one == old(g).one,
        old(g).vars@[root as int].parent is None ==> (r matches Ok(s) && s@.len() == 0)
            && final(g).vars@ == old(g).vars@,
        old(g).vars@[root as int].parent matches Some(p) ==> {
            &&& (r is Ok <==> (forall|n: int| old(g).reaches(p as int, n) ==> old(g).nodes@[n].op.differentiable()))
            &&& (r matches Ok(s) ==> {
                &&& old(g).is_schedule(p as int, s@)
                &&& exists|states: Seq<Graph<T>>| {
                    &&& states.len() == s@.len() + 1
                    &&& #[trigger] seeded(old(g), &states[0], root as int)
                    &&& states.last() == *final(g)
                    &&& forall|i: int| 0 <= i < s@.len() ==> #[trigger] node_step(
                        &states[i],
                        &states[i + 1],
                        s@[i] as int,
                        elem,
                        mul_add,
                        scale,
                        row_grad,
                    )
                }
            })
            &&& (r is Err ==> final(g).vars@ == old(g).vars@)
            &&& (r matches Err(GradError::NoGradient(n)) ==> old(g).reaches(p as int, n as int)
                && !old(g).nodes@[n as int].op.differentiable())
        },
{
    let order = start_backward(g, root);
    match order {
        Err(e) => Err(e),
        Ok(s) => {
            let ghost g0 = *g;
            proof {
                if let Some(p) = old(g).vars@[root as int].parent {
                    assert(old(g).vars@[root as int].wf());
                    let path = seq![p as int];
                    assert(old(g).is_path(path));
                    assert(old(g).reaches(p as int, p as int));
                    assert forall|j: int| 0 <= j < s@.len() implies s@[j] < old(g).nodes@.len()
                        && old(g).nodes@[s@[j] as int].op.differentiable() by {
                        assert(old(g).reaches(p as int, s@[j] as int));
                        lemma_backward_succeeds(old(g), p as int, s@[j] as int);
                    }
                }
            }
            let ghost mut states: Seq<Graph<T>> = seq![g0];
            let mut i: usize = 0;
            while i < s.len()
                invariant
                    g.wf(),
                    g.nodes@ == old(g).nodes@,
                    g.zero == old(g).zero,
                    g.one == old(g).one,
                    forall|j: int| 0 <= j < s@.len() ==> s@[j] < old(g).nodes@.len()
                        && old(g).nodes@[s@[j] as int].op.differentiable(),
                    forall|s0: GradStep, acc: T, a: T, b: T, d: T| elem.requires((s0, acc, a, b, d)),
                    forall|acc: T, a: T, b: T| mul_add.requires((acc, a, b)),
                    forall|v: T, c: usize| scale.requires((v, c)),
                    forall|l: bool, a: Vec<T>, b: Vec<T>, c: Vec<T>| row_grad.requires((l, a, b, c)),
                    forall|l: bool, a: Vec<T>, b: Vec<T>, c: Vec<T>, w: Vec<T>| row_grad.ensures((l, a, b, c), w) ==> w@.len() == c@.len(),
                    i <= s@.len(),
                    states.len() == i + 1,
                    states[0] == g0,
                    states.last() == *g,
                    forall|j: int| 0 <= j < i ==> #[trigger] node_step(
                        &states[j],
                        &states[j + 1],
                        s@[j] as int,
                        elem,
                        mul_add,
                        scale,
                        row_grad,
                    ),
                decreases s.len() - i,
            {
                let n = s[i];
                let ghost before = *g;
                run_node(g, n, &elem, &mul_add, &scale, &row_grad);
                proof {
                    let old_states = states;
                    states = states.push(*g);
                    assert forall|j: int| 0 <= j < i + 1 implies #[trigger] node_step(
                        &states[j],
                        &states[j + 1],
                        s@[j] as int,
                        elem,
                        mul_add,
                        scale,
                        row_grad,
                    ) by {
                        if j < i {
                            assert(states[j] == old_states[j]);
                            assert(states[j + 1] == old_states[j + 1]);
                        } else {
                            assert(states[j] == before);
                        }
                    }
                }
                i = i + 1;
            }
            proof {
                if old(g).vars@[root as int].parent is Some {
                    assert(seeded(old(g), &states[0], root as int));
                }
            }
            Ok(s)
        },
    }
}

} // verus!
