use vstd::prelude::*;
use crate::ops::{Op, broadcast_shapes, matmul_shapes};
use crate::shape::shape_size;
use crate::variable::{Variable, filled, filled_vec};

verus! {

/// One node of the graph: an operator bound to the indices of its input
/// tensors and of the tensor it produced.
pub struct CgFunction {
    pub op: Op,
    pub inputs: Vec<usize>,
    pub output: usize,
}

impl CgFunction {
    pub fn new(op: Op, inputs: Vec<usize>, output: usize) -> (r: Self)
        ensures
            r.op == op,
            r.inputs@ == inputs@,
            r.output == output,
    {
        CgFunction { op, inputs, output }
    }

    /// Indices of the input tensors.
    pub fn get_inputs(&self) -> (r: &Vec<usize>)
        ensures
            r@ == self.inputs@,
    {
        &self.inputs
    }
}

/// Errors of the backward traversal.
#[derive(Debug)]
pub enum GradError {
    /// The traversal reached this node, whose operator has no gradient.
    NoGradient(usize),
}

/// An arena of tensors and of the nodes that produced them. Tensors and nodes
/// are addressed by their index; `zero` fills new buffers and `one` seeds the
/// gradient of the tensor a backward pass starts from.
pub struct Graph<T> {
    pub vars: Vec<Variable<T>>,
    pub nodes: Vec<CgFunction>,
    pub zero: T,
    pub one: T,
}

impl<T: Copy> Graph<T> {
    /// Every tensor is well formed; a tensor's parent is the node that lists it
    /// as output and the other way round; a node's inputs exist and were
    /// produced, if at all, by an earlier node.
    pub open spec fn wf(&self) -> bool {
        &&& forall|i: int| 0 <= i < self.vars@.len() ==> (#[trigger] self.vars@[i]).wf()
        &&& forall|i: int|
            0 <= i < self.vars@.len() && (#[trigger] self.vars@[i]).parent is Some ==> {
                let n = self.vars@[i].parent.unwrap() as int;
                0 <= n < self.nodes@.len() && self.nodes@[n].output == i
            }
        &&& forall|n: int|
            0 <= n < self.nodes@.len() ==> {
                let o = (#[trigger] self.nodes@[n]).output as int;
                0 <= o < self.vars@.len() && (self.vars@[o].parent matches Some(q) && q as int == n)
            }
        &&& forall|n: int, k: int|
            0 <= n < self.nodes@.len() && 0 <= k < self.nodes@[n].inputs@.len()
                ==> self.input_ok(n, #[trigger] self.nodes@[n].inputs@[k])
        &&& forall|n: int|
            0 <= n < self.nodes@.len() && !(#[trigger] self.nodes@[n]).op.differentiable()
                ==> !self.vars@[self.nodes@[n].output as int].need_grad
        &&& forall|n: int| 0 <= n < self.nodes@.len() ==> #[trigger] self.node_ok(n)
    }

    /// The shapes of the inputs `ins` and of an output of shape `out` fit `op`.
    pub open spec fn op_ok(&self, op: Op, ins: Seq<usize>, out: Seq<usize>) -> bool {
        match op {
            Op::Add(_) | Op::Sub(_) | Op::Mul(_) | Op::Div(_) => ins.len() == 2 && self.shape_of(ins[0])
                == out && self.shape_of(ins[1]) == out,
            Op::Neg(_) | Op::Square(_) | Op::Log(_) | Op::ReLu(_) => ins.len() == 1 && self.shape_of(ins[0])
                == out,
            Op::MatMul(_) => ins.len() == 2 && matmul_shapes(self.shape_of(ins[0]), self.shape_of(ins[1]), out),
            Op::Broadcast(b) => ins.len() == 1 && broadcast_shapes(self.shape_of(ins[0]), b.shape@, out),
            Op::Mean(_) => ins.len() == 1 && out == seq![1usize],
            Op::Softmax(_) | Op::LogSoftmax(_) => ins.len() == 1 && out.len() == 2 && self.shape_of(ins[0])
                == out,
            Op::Argmax(_) | Op::Onehot(_) => ins.len() == 1,
        }
    }

    /// Node `n` fits its operator.
    pub open spec fn node_ok(&self, n: int) -> bool {
        self.op_ok(self.nodes@[n].op, self.nodes@[n].inputs@, self.shape_of(self.nodes@[n].output))
    }

    /// Two graphs whose tensors have the same shapes judge operators alike.
    pub proof fn lemma_op_ok_same_shapes(&self, other: &Self, op: Op, ins: Seq<usize>, out: Seq<usize>)
        requires
            self.op_ok(op, ins, out),
            forall|k: int| 0 <= k < ins.len() ==> #[trigger] other.shape_of(ins[k]) == self.shape_of(ins[k]),
        ensures
            other.op_ok(op, ins, out),
    {
        if ins.len() >= 1 {
            assert(other.shape_of(ins[0]) == self.shape_of(ins[0]));
        }
        if ins.len() >= 2 {
            assert(other.shape_of(ins[1]) == self.shape_of(ins[1]));
        }
    }

    /// Tensor `t` exists and, if it has a parent, that parent precedes node `n`.
    pub open spec fn input_ok(&self, n: int, t: usize) -> bool {
        &&& t < self.vars@.len()
        &&& (self.vars@[t as int].parent matches Some(m) ==> m < n)
    }

    /// `self` is `old` with one more tensor, of the given shape and values, and
    /// with one more node, which applies `op` to `inputs` and produced it.
    pub open spec fn appended(
        &self,
        old: &Self,
        op: Op,
        inputs: Seq<usize>,
        shape: Seq<usize>,
        data: Seq<T>,
        need_grad: bool,
    ) -> bool {
        let r = old.vars@.len();
        &&& self.wf()
        &&& self.zero == old.zero
        &&& self.one == old.one
        &&& self.vars@.len() == r + 1
        &&& self.vars@.subrange(0, r as int) == old.vars@
        &&& self.nodes@.len() == old.nodes@.len() + 1
        &&& self.nodes@.subrange(0, old.nodes@.len() as int) == old.nodes@
        &&& self.nodes@.last().op == op
        &&& self.nodes@.last().inputs@ == inputs
        &&& self.nodes@.last().output == r
        &&& self.vars@[r as int].shape@ == shape
        &&& self.vars@[r as int].data@ == data
        &&& self.vars@[r as int].grad@ == filled(shape_size(shape), old.zero)
        &&& self.vars@[r as int].need_grad == need_grad
        &&& self.vars@[r as int].parent == Some(old.nodes@.len() as usize)
    }

    /// The tensor `id` exists.
    pub open spec fn has(&self, id: usize) -> bool {
        id < self.vars@.len()
    }

    /// The shape of tensor `id`.
    pub open spec fn shape_of(&self, id: usize) -> Seq<usize> {
        self.vars@[id as int].shape@
    }

    /// An empty graph.
    pub fn new(zero: T, one: T) -> (r: Self)
        ensures
            r.wf(),
            r.vars@.len() == 0,
            r.nodes@.len() == 0,
            r.zero == zero,
            r.one == one,
    {
        Graph { vars: Vec::new(), nodes: Vec::new(), zero, one }
    }

    /// Adds a leaf tensor of the given shape, filled with zeros; returns its index.
    pub fn variable(&mut self, shape: Vec<usize>) -> (r: usize)
        requires
            old(self).wf(),
            shape_size(shape@) <= usize::MAX,
        ensures
            final(self).wf(),
            r == old(self).vars@.len(),
            final(self).vars@ == old(self).vars@.push(final(self).vars@[r as int]),
            final(self).nodes@ == old(self).nodes@,
            final(self).zero == old(self).zero,
            final(self).one == old(self).one,
            final(self).vars@[r as int].shape@ == shape@,
            final(self).vars@[r as int].data@ == filled(shape_size(shape@), old(self).zero),
            final(self).vars@[r as int].grad@ == filled(shape_size(shape@), old(self).zero),
            final(self).vars@[r as int].need_grad,
            final(self).vars@[r as int].parent is None,
    {
        let v = Variable::new(shape, self.zero);
        let r = self.vars.len();
        self.vars.push(v);
        proof {
            assert forall|n: int, k: int|
                0 <= n < self.nodes@.len() && 0 <= k < self.nodes@[n].inputs@.len()
                implies self.input_ok(n, #[trigger] self.nodes@[n].inputs@[k]) by {
                assert(old(self).input_ok(n, old(self).nodes@[n].inputs@[k]));
            }
            assert forall|m: int| 0 <= m < self.nodes@.len() implies #[trigger] self.node_ok(m) by {
                assert(old(self).node_ok(m));
                let ins = old(self).nodes@[m].inputs@;
                assert forall|k: int| 0 <= k < ins.len() implies #[trigger] self.shape_of(ins[k]) == old(self).shape_of(ins[k]) by {
                    assert(old(self).input_ok(m, old(self).nodes@[m].inputs@[k]));
                }
                old(self).lemma_op_ok_same_shapes(self, old(self).nodes@[m].op, ins, old(self).shape_of(old(self).nodes@[m].output));
            }
        }
        r
    }

    /// Appends a tensor holding `data` and the node applying `op` to `inputs`
    /// that produced it; returns the tensor's index.
    pub(crate) fn record(
        &mut self,
        op: Op,
        inputs: Vec<usize>,
        shape: Vec<usize>,
        data: Vec<T>,
        need_grad: bool,
    ) -> (r: usize)
        requires
            old(self).wf(),
            forall|k: int| 0 <= k < inputs@.len() ==> old(self).has(#[trigger] inputs@[k]),
            data@.len() == shape_size(shape@),
            !op.differentiable() ==> !need_grad,
            old(self).op_ok(op, inputs@, shape@),
        ensures
            final(self).appended(old(self), op, inputs@, shape@, data@, need_grad),
            r == old(self).vars@.len(),
    {
        let ghost inputs_view = inputs@;
        let r = self.vars.len();
        let n = self.nodes.len();
        let grad = filled_vec(data.len(), self.zero);
        let v = Variable { parent: Some(n), shape, data, grad, need_grad };
        self.vars.push(v);
        self.nodes.push(CgFunction::new(op, inputs, r));
        proof {
            assert forall|m: int| 0 <= m < self.nodes@.len() implies #[trigger] self.node_ok(m) by {
                if m < n {
                    assert(old(self).node_ok(m));
                    let ins = old(self).nodes@[m].inputs@;
                    assert forall|k: int| 0 <= k < ins.len() implies #[trigger] self.shape_of(ins[k]) == old(self).shape_of(ins[k]) by {
                        assert(old(self).input_ok(m, old(self).nodes@[m].inputs@[k]));
                    }
                    old(self).lemma_op_ok_same_shapes(self, old(self).nodes@[m].op, ins, old(self).shape_of(old(self).nodes@[m].output));
                    assert(self.vars@[old(self).nodes@[m].output as int] == old(self).vars@[old(self).nodes@[m].output as int]);
                } else {
                    assert forall|k: int| 0 <= k < inputs_view.len() implies #[trigger] self.shape_of(inputs_view[k]) == old(self).shape_of(inputs_view[k]) by {
                        assert(old(self).has(inputs_view[k]));
                    }
                    old(self).lemma_op_ok_same_shapes(self, self.nodes@[m].op, inputs_view, self.vars@[r as int].shape@);
                }
            }
            assert(self.vars@.subrange(0, r as int) =~= old(self).vars@);
            assert(self.nodes@.subrange(0, n as int) =~= old(self).nodes@);
            assert forall|m: int, k: int|
                0 <= m < self.nodes@.len() && 0 <= k < self.nodes@[m].inputs@.len()
                implies self.input_ok(m, #[trigger] self.nodes@[m].inputs@[k]) by {
                if m < n {
                    assert(old(self).input_ok(m, old(self).nodes@[m].inputs@[k]));
                } else {
                    let t = inputs_view[k];
                    assert(old(self).has(t));
                    assert(self.vars@[t as int] == old(self).vars@[t as int]);
                    if old(self).vars@[t as int].parent is Some {
                        assert(old(self).vars@[t as int].wf());
                    }
                }
            }
        }
        r
    }

    /// Overwrites the values of tensor `id`; `data` holds one value per element.
    pub fn set_data(&mut self, id: usize, data: &[T])
        requires
            old(self).wf(),
            old(self).has(id),
            data@.len() == shape_size(old(self).shape_of(id)),
        ensures
            final(self).wf(),
            final(self).vars@ == old(self).vars@.update(id as int, final(self).vars@[id as int]),
            final(self).vars@[id as int].data@ == data@,
            final(self).vars@[id as int].grad@ == old(self).vars@[id as int].grad@,
            final(self).vars@[id as int].shape@ == old(self).shape_of(id),
            final(self).vars@[id as int].need_grad == old(self).vars@[id as int].need_grad,
            final(self).vars@[id as int].parent == old(self).vars@[id as int].parent,
            final(self).nodes@ == old(self).nodes@,
            final(self).zero == old(self).zero,
            final(self).one == old(self).one,
    {
        proof {
            assert(old(self).vars@[id as int].wf());
        }
        self.vars[id].set_data(data);
        proof {
            assert(self.vars@ =~= old(self).vars@.update(id as int, self.vars@[id as int]));
            self.lemma_same_links(old(self), id);
        }
    }

    /// Overwrites the gradient of tensor `id`; `grad` holds one value per element.
    pub fn set_grad(&mut self, id: usize, grad: &[T])
        requires
            old(self).wf(),
            old(self).has(id),
            grad@.len() == shape_size(old(self).shape_of(id)),
        ensures
            final(self).wf(),
            final(self).vars@ == old(self).vars@.update(id as int, final(self).vars@[id as int]),
            final(self).vars@[id as int].grad@ == grad@,
            final(self).vars@[id as int].data@ == old(self).vars@[id as int].data@,
            final(self).vars@[id as int].shape@ == old(self).shape_of(id),
            final(self).vars@[id as int].need_grad == old(self).vars@[id as int].need_grad,
            final(self).vars@[id as int].parent == old(self).vars@[id as int].parent,
            final(self).nodes@ == old(self).nodes@,
            final(self).zero == old(self).zero,
            final(self).one == old(self).one,
    {
        proof {
            assert(old(self).vars@[id as int].wf());
        }
        self.vars[id].set_grad(grad);
        proof {
            assert(self.vars@ =~= old(self).vars@.update(id as int, self.vars@[id as int]));
            self.lemma_same_links(old(self), id);
        }
    }

    /// Replaces each value of tensor `id` by `f(value, gradient)`: an
    /// elementwise parameter update (`f` returns `value - lr * gradient` for
    /// plain gradient descent).
    pub fn update_data<F: Fn(T, T) -> T>(&mut self, id: usize, f: F)
        requires
            old(self).wf(),
            old(self).has(id),
            forall|v: T, d: T| f.requires((v, d)),
        ensures
            final(self).wf(),
            final(self).vars@ == old(self).vars@.update(id as int, final(self).vars@[id as int]),
            final(self).vars@[id as int].grad@ == old(self).vars@[id as int].grad@,
            final(self).vars@[id as int].shape@ == old(self).shape_of(id),
            final(self).vars@[id as int].need_grad == old(self).vars@[id as int].need_grad,
            final(self).vars@[id as int].parent == old(self).vars@[id as int].parent,
            final(self).vars@[id as int].data@.len() == old(self).vars@[id as int].data@.len(),
            forall|i: int| 0 <= i < old(self).vars@[id as int].data@.len() ==> f.ensures(
                (old(self).vars@[id as int].data@[i], old(self).vars@[id as int].grad@[i]),
                #[trigger] final(self).vars@[id as int].data@[i],
            ),
            final(self).nodes@ == old(self).nodes@,
            final(self).zero == old(self).zero,
            final(self).one == old(self).one,
    {
        proof {
            assert(self.vars@[id as int].wf());
        }
        let len = self.vars[id].data.len();
        let mut values: Vec<T> = Vec::new();
        let mut i: usize = 0;
        while i < len
            invariant
                self == old(self),
                self.has(id),
                len == self.vars@[id as int].data@.len(),
                len == self.vars@[id as int].grad@.len(),
                i <= len,
                values@.len() == i,
                forall|v: T, d: T| f.requires((v, d)),
                forall|k: int| 0 <= k < i ==> f.ensures(
                    (self.vars@[id as int].data@[k], self.vars@[id as int].grad@[k]),
                    #[trigger] values@[k],
                ),
            decreases len - i,
        {
            let v = f(self.vars[id].data[i], self.vars[id].grad[i]);
            values.push(v);
            i = i + 1;
        }
        self.set_data(id, values.as_slice());
    }

    /// Replacing one tensor by one of equal shape and links keeps the graph well formed.
    pub(crate) proof fn lemma_same_links(&self, old: &Self, id: usize)
        requires
            old.wf(),
            old.has(id),
            self.vars@ == old.vars@.update(id as int, self.vars@[id as int]),
            self.nodes@ == old.nodes@,
            self.vars@[id as int].wf(),
            self.vars@[id as int].parent == old.vars@[id as int].parent,
            self.vars@[id as int].need_grad == old.vars@[id as int].need_grad,
            self.vars@[id as int].shape@ == old.vars@[id as int].shape@,
        ensures
            self.wf(),
    {
        assert forall|m: int| 0 <= m < self.nodes@.len() implies #[trigger] self.node_ok(m) by {
            assert(old.node_ok(m));
            let ins = old.nodes@[m].inputs@;
            assert forall|k: int| 0 <= k < ins.len() implies #[trigger] self.shape_of(ins[k]) == old.shape_of(ins[k]) by {
                assert(old.input_ok(m, old.nodes@[m].inputs@[k]));
            }
            old.lemma_op_ok_same_shapes(self, old.nodes@[m].op, ins, old.shape_of(old.nodes@[m].output));
        }
        assert forall|n: int, k: int|
            0 <= n < self.nodes@.len() && 0 <= k < self.nodes@[n].inputs@.len()
            implies self.input_ok(n, #[trigger] self.nodes@[n].inputs@[k]) by {
            assert(old.input_ok(n, old.nodes@[n].inputs@[k]));
        }
        assert forall|i: int| 0 <= i < self.vars@.len() implies (#[trigger] self.vars@[i]).wf() by {
            if i != id {
                assert(old.vars@[i].wf());
            }
        }
    }
}


impl<T: Copy> Graph<T> {
    /// Input `k` of node `m` needs gradients and was produced by node `p`.
    pub open spec fn grad_edge(&self, m: int, k: int, p: int) -> bool {
        let t = self.nodes@[m].inputs@[k] as int;
        &&& self.vars@[t].need_grad
        &&& self.vars@[t].parent matches Some(q) && q as int == p
    }

    /// The backward step of node `m` passes gradient on to node `p`.
    pub open spec fn feeds(&self, m: int, p: int) -> bool {
        &&& 0 <= m < self.nodes@.len()
        &&& exists|k: int| 0 <= k < self.nodes@[m].inputs@.len() && #[trigger] self.grad_edge(m, k, p)
    }

    /// Each node of `path` passes gradient on to the next.
    pub open spec fn is_path(&self, path: Seq<int>) -> bool {
        &&& path.len() >= 1
        &&& forall|i: int| 0 <= i < path.len() - 1 ==> #[trigger] self.feeds(path[i], path[i + 1])
    }

    /// Gradient flows from node `start` to node `n`, through zero or more nodes.
    pub open spec fn reaches(&self, start: int, n: int) -> bool {
        exists|path: Seq<int>| #[trigger] self.is_path(path) && path[0] == start && path.last() == n
    }

    /// `s` lists, in strictly decreasing order, exactly the nodes that gradient
    /// reaches from node `start`.
    pub open spec fn is_schedule(&self, start: int, s: Seq<usize>) -> bool {
        &&& forall|i: int, j: int| 0 <= i < j < s.len() ==> s[i] > s[j]
        &&& forall|i: int| 0 <= i < s.len() ==> self.reaches(start, #[trigger] s[i] as int)
        &&& forall|n: int| #[trigger] self.reaches(start, n) ==> exists|i: int| 0 <= i < s.len() && s[i] == n
    }

    /// Gradient only flows to earlier nodes.
    pub proof fn lemma_feeds_earlier(&self, m: int, p: int)
        requires
            self.wf(),
            self.feeds(m, p),
        ensures
            0 <= p < m,
    {
        let k = choose|k: int| 0 <= k < self.nodes@[m].inputs@.len() && #[trigger] self.grad_edge(m, k, p);
        assert(self.input_ok(m, self.nodes@[m].inputs@[k]));
    }

    /// A set of nodes closed under gradient flow holds every node that gradient
    /// reaches from one of its members.
    proof fn lemma_closed_holds_path(&self, marked: Seq<bool>, path: Seq<int>)
        requires
            self.wf(),
            self.is_path(path),
            0 <= path[0] < marked.len(),
            marked[path[0]],
            forall|m: int, q: int|
                0 <= m < marked.len() && marked[m] && #[trigger] self.feeds(m, q) ==> 0 <= q < marked.len()
                    && marked[q],
        ensures
            0 <= path.last() < marked.len(),
            marked[path.last()],
        decreases path.len(),
    {
        if path.len() > 1 {
            let front = path.drop_last();
            assert forall|i: int| 0 <= i < front.len() - 1 implies #[trigger] self.feeds(front[i], front[i + 1]) by {
                assert(self.feeds(path[i], path[i + 1]));
            }
            self.lemma_closed_holds_path(marked, front);
            let i = path.len() - 2;
            assert(self.feeds(path[i], path[i + 1]));
        }
    }

    /// A path extended by one step of gradient flow.
    proof fn lemma_extend_path(&self, start: int, m: int, q: int)
        requires
            self.reaches(start, m),
            self.feeds(m, q),
        ensures
            self.reaches(start, q),
    {
        let path = choose|path: Seq<int>| #[trigger] self.is_path(path) && path[0] == start && path.last() == m;
        let longer = path.push(q);
        assert forall|i: int| 0 <= i < longer.len() - 1 implies #[trigger] self.feeds(longer[i], longer[i + 1]) by {
            if i < path.len() - 1 {
                assert(self.feeds(path[i], path[i + 1]));
            }
        }
        assert(self.is_path(longer));
    }

    /// The order in which node backward steps run when gradient flows from node
    /// `start`: every node that gradient reaches, exactly once, in decreasing
    /// index order. A node's inputs are produced by earlier nodes, so each node
    /// runs after every node that passes gradient to it. When one of these nodes has
    /// no gradient, fails and names such a node.
    pub fn schedule(&self, start: usize) -> (r: Result<Vec<usize>, GradError>)
        requires
            self.wf(),
            start < self.nodes.len(),
        ensures
            r is Ok <==> (forall|n: int| self.reaches(start as int, n) ==> self.nodes@[n].op.differentiable()),
            r matches Ok(s) ==> self.is_schedule(start as int, s@),
            r matches Err(GradError::NoGradient(n)) ==> self.reaches(start as int, n as int)
                && !self.nodes@[n as int].op.differentiable(),
    {
        let p = start;
        let mut marked: Vec<bool> = filled_vec(p + 1, false);
        marked.set(p, true);
        proof {
            let path = seq![p as int];
            assert(self.is_path(path));
        }
        let mut sched: Vec<usize> = Vec::new();
        let mut n: usize = p + 1;
        while n > 0
            invariant
                self.wf(),
                p == start,
                p < self.nodes@.len(),
                n <= p + 1,
                marked@.len() == p + 1,
                marked@[p as int],
                forall|m: int| 0 <= m <= p && #[trigger] marked@[m] ==> self.reaches(p as int, m),
                forall|m: int, q: int|
                    n <= m <= p && marked@[m] && #[trigger] self.feeds(m, q) ==> 0 <= q <= p && marked@[q],
                forall|m: int| n <= m <= p && #[trigger] marked@[m] ==> self.nodes@[m].op.differentiable(),
                forall|i: int, j: int| 0 <= i < j < sched@.len() ==> sched@[i] > sched@[j],
                forall|i: int| 0 <= i < sched@.len() ==> n <= #[trigger] sched@[i] <= p && marked@[sched@[i] as int],
                forall|m: int| n <= m <= p && #[trigger] marked@[m] ==> exists|i: int| 0 <= i < sched@.len() && sched@[i] == m,
            decreases n,
        {
            n = n - 1;
            let m = n;
            if marked[m] {
                if !self.nodes[m].op.has_gradient() {
                    proof {
                        assert(marked@[m as int]);
                        assert(self.reaches(p as int, m as int));
                        assert(!self.nodes@[m as int].op.differentiable());
                    }
                    let r = Err(GradError::NoGradient(m));
                    assert(r matches Err(GradError::NoGradient(nn)) && nn == m);
                    return r;
                }
                let inputs = self.nodes[m].get_inputs();
                let ghost marked_before = marked@;
                let ghost sched_before = sched@;
                let mut k: usize = 0;
                while k < inputs.len()
                    invariant
                        self.wf(),
                        p < self.nodes@.len(),
                        m <= p,
                        inputs@ == self.nodes@[m as int].inputs@,
                        marked@.len() == p + 1,
                        marked_before[m as int],
                        forall|j: int| m <= j <= p ==> #[trigger] marked@[j] == marked_before[j],
                        forall|j: int| 0 <= j <= p && #[trigger] marked_before[j] ==> marked@[j],
                        forall|j: int| 0 <= j <= p && #[trigger] marked@[j] ==> self.reaches(p as int, j),
                        k <= inputs@.len(),
                        forall|kk: int, q: int| 0 <= kk < k && #[trigger] self.grad_edge(m as int, kk, q) ==> 0 <= q <= p && marked@[q],
                    decreases inputs.len() - k,
                {
                    let t = inputs[k];
                    proof {
                        assert(self.input_ok(m as int, self.nodes@[m as int].inputs@[k as int]));
                    }
                    if self.vars[t].need_grad {
                        if let Some(q) = self.vars[t].parent {
                            proof {
                                assert(self.grad_edge(m as int, k as int, q as int));
                                assert(self.feeds(m as int, q as int));
                                self.lemma_extend_path(p as int, m as int, q as int);
                            }
                            marked.set(q, true);
                        }
                    }
                    k = k + 1;
                }
                proof {
                    assert forall|q: int| #[trigger] self.feeds(m as int, q) implies 0 <= q <= p && marked@[q] by {
                        let kk = choose|kk: int| 0 <= kk < self.nodes@[m as int].inputs@.len() && #[trigger] self.grad_edge(m as int, kk, q);
                    }
                }
                sched.push(m);
                proof {
                    assert(sched@[sched@.len() - 1] == m);
                    assert forall|x: int| n <= x <= p && #[trigger] marked@[x] implies exists|i: int| 0 <= i < sched@.len() && sched@[i] == x by {
                        if x > m {
                            assert(marked_before[x]);
                            let i = choose|i: int| 0 <= i < sched_before.len() && sched_before[i] == x;
                            assert(sched@[i] == x);
                        }
                    }
                }
            }
        }
        proof {
            assert forall|x: int| #[trigger] self.reaches(p as int, x) implies exists|i: int| 0 <= i < sched@.len() && sched@[i] == x by {
                let path = choose|path: Seq<int>| #[trigger] self.is_path(path) && path[0] == p as int && path.last() == x;
                self.lemma_closed_holds_path(marked@, path);
                assert(marked@[x]);
            }
        }
        Ok(sched)
    }
}



/// A backward order runs each node once, and a node only after every node that
/// passes gradient to it: when a node runs, every consumer of its output that
/// gradient reaches has already added its contribution, and the nodes that
/// produced its own inputs run later.
pub proof fn lemma_schedule_runs_consumers_first<T: Copy>(g: &Graph<T>, start: int, s: Seq<usize>)
    requires
        g.wf(),
        g.is_schedule(start, s),
    ensures
        forall|i: int, j: int| 0 <= i < s.len() && 0 <= j < s.len() && i != j ==> s[i] != s[j],
        forall|i: int, j: int| 0 <= i < j < s.len() ==> !g.feeds(s[j] as int, s[i] as int),
        forall|i: int, q: int|
            0 <= i < s.len() && #[trigger] g.feeds(s[i] as int, q) ==> exists|j: int| i < j < s.len() && s[j] == q,
{
    assert forall|i: int, j: int| 0 <= i < j < s.len() implies !g.feeds(s[j] as int, s[i] as int) by {
        if g.feeds(s[j] as int, s[i] as int) {
            g.lemma_feeds_earlier(s[j] as int, s[i] as int);
        }
    }
    assert forall|i: int, q: int| 0 <= i < s.len() && #[trigger] g.feeds(s[i] as int, q) implies exists|j: int|
        i < j < s.len() && s[j] == q by {
        g.lemma_extend_path(start, s[i] as int, q);
        g.lemma_feeds_earlier(s[i] as int, q);
        let j = choose|j: int| 0 <= j < s.len() && s[j] == q;
        if j <= i {
            if j < i {
                assert(s[j] > s[i]);
            }
        }
    }
}

/// From a node whose operator has a gradient, every node that gradient
/// reaches has one too: the outputs of argmax and one-hot need no gradient,
/// so gradient never flows into them.
pub proof fn lemma_backward_succeeds<T: Copy>(g: &Graph<T>, start: int, n: int)
    requires
        g.wf(),
        0 <= start < g.nodes@.len(),
        g.nodes@[start].op.differentiable(),
        g.reaches(start, n),
    ensures
        0 <= n < g.nodes@.len(),
        g.nodes@[n].op.differentiable(),
{
    let path = choose|path: Seq<int>| #[trigger] g.is_path(path) && path[0] == start && path.last() == n;
    if path.len() > 1 {
        let i = path.len() - 2;
        assert(g.feeds(path[i], path[i + 1]));
        let m = path[i];
        let k = choose|k: int| 0 <= k < g.nodes@[m].inputs@.len() && #[trigger] g.grad_edge(m, k, n);
        let t = g.nodes@[m].inputs@[k];
        assert(g.input_ok(m, t));
        assert(g.vars@[t as int].wf());
        g.lemma_feeds_earlier(m, n);
        assert(g.nodes@[n].output == t);
    }
}

/// A backward pass from a node without gradient (the output of argmax or of
/// one-hot) fails: the traversal reaches that node itself.
pub proof fn lemma_backward_fails_without_gradient<T: Copy>(g: &Graph<T>, start: int)
    requires
        g.wf(),
        0 <= start < g.nodes@.len(),
        !g.nodes@[start].op.differentiable(),
    ensures
        g.reaches(start, start),
        !(forall|n: int| g.reaches(start, n) ==> g.nodes@[n].op.differentiable()),
{
    let path = seq![start];
    assert(g.is_path(path));
}

/// Starts a backward pass at tensor `root` and returns the order in which the
/// node backward steps must then run (`backward` runs them).
///
/// A tensor without parent is a leaf: nothing changes and the order is empty.
/// Otherwise the order is `schedule` from the root's parent: each node that
/// gradient reaches runs exactly once, after every node that passes gradient to it,
/// so a tensor used by several nodes collects all their contributions before
/// its own producer runs. When every such node has a gradient, the root's
/// gradient is set to all ones; else nothing changes and a node without
/// gradient is named.
pub fn start_backward<T: Copy>(g: &mut Graph<T>, root: usize) -> (r: Result<Vec<usize>, GradError>)
    requires
        old(g).wf(),
        old(g).has(root),
    ensures
        final(g).wf(),
        final(g).nodes@ == old(g).nodes@,
        final(g).zero == old(g).zero,
        final(g).one == old(g).one,
        old(g).vars@[root as int].parent is None ==> (r matches Ok(s) && s@.len() == 0)
            && final(g).vars@ == old(g).vars@,
        old(g).vars@[root as int].parent matches Some(p) ==> {
            &&& (r is Ok <==> (forall|n: int| old(g).reaches(p as int, n) ==> old(g).nodes@[n].op.differentiable()))
            &&& (r matches Ok(s) ==> {
                &&& old(g).is_schedule(p as int, s@)
                &&& final(g).vars@ == old(g).vars@.update(root as int, final(g).vars@[root as int])
                &&& final(g).vars@[root as int].grad@ == filled(shape_size(old(g).shape_of(root)), old(g).one)
                &&& final(g).vars@[root as int].data@ == old(g).vars@[root as int].data@
                &&& final(g).vars@[root as int].shape@ == old(g).shape_of(root)
                &&& final(g).vars@[root as int].need_grad == old(g).vars@[root as int].need_grad
                &&& final(g).vars@[root as int].parent == old(g).vars@[root as int].parent
            })
            &&& (r is Err ==> final(g).vars@ == old(g).vars@)
            &&& (r matches Err(GradError::NoGradient(n)) ==> old(g).reaches(p as int, n as int)
                && !old(g).nodes@[n as int].op.differentiable())
        },
{
    let p = match g.vars[root].parent {
        None => {
            return Ok(Vec::new());
        },
        Some(p) => p,
    };
    proof {
        assert(g.vars@[root as int].wf());
    }
    let order = g.schedule(p);
    match order {
        Ok(s) => {
            let one = g.one;
            g.vars[root].fill_grad(one);
            proof {
                assert(g.vars@ =~= old(g).vars@.update(root as int, g.vars@[root as int]));
                g.lemma_same_links(old(g), root);
            }
            Ok(s)
        },
        Err(e) => Err(e),
    }
}

} // verus!

pub use crate::backprop::backward;
