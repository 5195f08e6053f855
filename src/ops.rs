use vstd::prelude::*;
use crate::shape::shape_size;

verus! {

/// `a` and `b` are the same shape.
pub fn shapes_equal(a: &Vec<usize>, b: &Vec<usize>) -> (r: bool)
    ensures
        r == (a@ == b@),
{
    if a.len() != b.len() {
        return false;
    }
    let mut i: usize = 0;
    while i < a.len()
        invariant
            i <= a.len(),
            a.len() == b.len(),
            forall|k: int| 0 <= k < i ==> a@[k] == b@[k],
        decreases a.len() - i,
    {
        if a[i] != b[i] {
            return false;
        }
        i = i + 1;
    }
    proof {
        assert(a@ =~= b@);
    }
    true
}

/// Both inputs and the output have one shape.
pub open spec fn elementwise2_shapes(x: Seq<usize>, y: Seq<usize>, out: Seq<usize>) -> bool {
    x == y && x == out
}

/// The input and the output have one shape.
pub open spec fn elementwise1_shapes(x: Seq<usize>, out: Seq<usize>) -> bool {
    x == out
}

/// `x` is `[m, k]`, `y` is `[k, n]` and the output is `[m, n]`.
pub open spec fn matmul_shapes(x: Seq<usize>, y: Seq<usize>, out: Seq<usize>) -> bool {
    &&& x.len() == 2
    &&& y.len() == 2
    &&& out.len() == 2
    &&& x[1] == y[0]
    &&& out[0] == x[0]
    &&& out[1] == y[1]
}

/// The output is `target`; `x` has the rank of `target`, a leading dimension of
/// one, and every other dimension equal to that of `target`. Only the leading
/// (batch) axis is replicated: the forward rule copies `x` once per batch
/// index and defines nothing for a non-leading dimension of one, so such a
/// dimension is rejected rather than left with undefined values.
pub open spec fn broadcast_shapes(x: Seq<usize>, target: Seq<usize>, out: Seq<usize>) -> bool {
    &&& out == target
    &&& x.len() == target.len()
    &&& x.len() >= 1
    &&& x[0] == 1
    &&& forall|i: int| 1 <= i < x.len() ==> x[i] == target[i]
}

/// The output holds a single element.
pub open spec fn mean_shapes(x: Seq<usize>, out: Seq<usize>) -> bool {
    shape_size(out) == 1
}

/// A rank-2 input, processed row by row, and an output of the same shape.
pub open spec fn row_shapes(x: Seq<usize>, out: Seq<usize>) -> bool {
    x.len() == 2 && out == x
}

/// A rank-2 input `[n, k]` and a rank-1 output `[n]`.
pub open spec fn argmax_shapes(x: Seq<usize>, out: Seq<usize>) -> bool {
    &&& x.len() == 2
    &&& out.len() == 1
    &&& out[0] == x[0]
}

/// A rank-1 input `[n]` and a rank-2 output `[n, num_classes]`.
pub open spec fn onehot_shapes(x: Seq<usize>, out: Seq<usize>, num_classes: nat) -> bool {
    &&& x.len() == 1
    &&& out.len() == 2
    &&& out[0] == x[0]
    &&& out[1] == num_classes
}

/// Elementwise sum.
pub struct Add {}

/// Elementwise difference.
pub struct Sub {}

/// Elementwise product.
pub struct Mul {}

/// Elementwise quotient.
pub struct Div {}

/// Elementwise negation.
pub struct Neg {}

/// Elementwise square.
pub struct Square {}

/// Product of two matrices.
pub struct MatMul {}

/// Replication along the leading (batch) axis up to `shape`.
pub struct Broadcast {
    pub shape: Vec<usize>,
}

/// Mean of all elements, as a one-element tensor.
pub struct Mean {}

/// Row-wise softmax of a matrix.
pub struct Softmax {}

/// Row-wise logarithm of the softmax of a matrix.
pub struct LogSoftmax {}

/// Elementwise natural logarithm.
pub struct Log {}

/// Elementwise `max(0, x)`.
pub struct ReLu {}

/// Row-wise index of the first maximum of a matrix; it has no gradient.
pub struct Argmax {}

/// One-hot encoding of class indices into `num_classes` columns; it has no gradient.
pub struct Onehot {
    pub num_classes: u32,
}

impl Add {
    /// Whether the given shapes fit this operator.
    pub fn validate(&self, x: &Vec<usize>, y: &Vec<usize>, out: &Vec<usize>) -> (r: bool)
        ensures
            r == elementwise2_shapes(x@, y@, out@),
    {
        shapes_equal(x, y) && shapes_equal(x, out)
    }
}

impl Sub {
    /// Whether the given shapes fit this operator.
    pub fn validate(&self, x: &Vec<usize>, y: &Vec<usize>, out: &Vec<usize>) -> (r: bool)
        ensures
            r == elementwise2_shapes(x@, y@, out@),
    {
        shapes_equal(x, y) && shapes_equal(x, out)
    }
}

impl Mul {
    /// Whether the given shapes fit this operator.
    pub fn validate(&self, x: &Vec<usize>, y: &Vec<usize>, out: &Vec<usize>) -> (r: bool)
        ensures
            r == elementwise2_shapes(x@, y@, out@),
    {
        shapes_equal(x, y) && shapes_equal(x, out)
    }
}

impl Div {
    /// Whether the given shapes fit this operator.
    pub fn validate(&self, x: &Vec<usize>, y: &Vec<usize>, out: &Vec<usize>) -> (r: bool)
        ensures
            r == elementwise2_shapes(x@, y@, out@),
    {
        shapes_equal(x, y) && shapes_equal(x, out)
    }
}

impl Neg {
    /// Whether the given shapes fit this operator.
    pub fn validate(&self, x: &Vec<usize>, out: &Vec<usize>) -> (r: bool)
        ensures
            r == elementwise1_shapes(x@, out@),
    {
        shapes_equal(x, out)
    }
}

impl Square {
    /// Whether the given shapes fit this operator.
    pub fn validate(&self, x: &Vec<usize>, out: &Vec<usize>) -> (r: bool)
        ensures
            r == elementwise1_shapes(x@, out@),
    {
        shapes_equal(x, out)
    }
}

impl Log {
    /// Whether the given shapes fit this operator.
    pub fn validate(&self, x: &Vec<usize>, out: &Vec<usize>) -> (r: bool)
        ensures
            r == elementwise1_shapes(x@, out@),
    {
        shapes_equal(x, out)
    }
}

impl ReLu {
    /// Whether the given shapes fit this operator.
    pub fn validate(&self, x: &Vec<usize>, out: &Vec<usize>) -> (r: bool)
        ensures
            r == elementwise1_shapes(x@, out@),
    {
        shapes_equal(x, out)
    }
}

impl MatMul {
    /// Whether the given shapes fit this operator.
    pub fn validate(&self, x: &Vec<usize>, y: &Vec<usize>, out: &Vec<usize>) -> (r: bool)
        ensures
            r == matmul_shapes(x@, y@, out@),
    {
        x.len() == 2 && y.len() == 2 && out.len() == 2 && x[1] == y[0] && out[0] == x[0]
            && out[1] == y[1]
    }
}

impl Broadcast {
    /// Whether the given shapes fit this operator.
    pub fn validate(&self, x: &Vec<usize>, out: &Vec<usize>) -> (r: bool)
        ensures
            r == broadcast_shapes(x@, self.shape@, out@),
    {
        if !shapes_equal(out, &self.shape) || x.len() != self.shape.len() || x.len() == 0 {
            return false;
        }
        if x[0] != 1 {
            return false;
        }
        let mut i: usize = 1;
        while i < x.len()
            invariant
                1 <= i <= x.len(),
                x.len() == self.shape.len(),
                forall|k: int| 1 <= k < i ==> x@[k] == self.shape@[k],
            decreases x.len() - i,
        {
            if x[i] != self.shape[i] {
                return false;
            }
            i = i + 1;
        }
        true
    }
}

impl Mean {
    /// Whether the given shapes fit this operator.
    pub fn validate(&self, x: &Vec<usize>, out: &Vec<usize>) -> (r: bool)
        ensures
            r == mean_shapes(x@, out@),
    {
        let mut k: usize = 0;
        while k < out.len()
            invariant
                k <= out.len(),
                forall|j: int| 0 <= j < k ==> out@[j] == 1,
            decreases out.len() - k,
        {
            if out[k] != 1 {
                proof {
                    lemma_size_one_all_ones(out@);
                }
                return false;
            }
            k = k + 1;
        }
        proof {
            lemma_size_one_all_ones(out@);
        }
        true
    }
}

/// A shape holds exactly one element when every dimension is one.
pub proof fn lemma_size_one_all_ones(s: Seq<usize>)
    ensures
        (shape_size(s) == 1) == (forall|j: int| 0 <= j < s.len() ==> s[j] == 1),
    decreases s.len(),
{
    if s.len() > 0 {
        lemma_size_one_all_ones(s.drop_last());
        let a = shape_size(s.drop_last());
        let d = s.last() as nat;
        assert((a * d == 1) == (a == 1 && d == 1)) by (nonlinear_arith);
        if forall|j: int| 0 <= j < s.len() ==> s[j] == 1 {
            assert forall|j: int| 0 <= j < s.drop_last().len() implies s.drop_last()[j] == 1 by {
                assert(s.drop_last()[j] == s[j]);
            }
        }
        if shape_size(s) == 1 {
            assert forall|j: int| 0 <= j < s.len() implies s[j] == 1 by {
                if j < s.len() - 1 {
                    assert(s.drop_last()[j] == s[j]);
                }
            }
        }
    }
}

impl Softmax {
    /// Whether the given shapes fit this operator.
    pub fn validate(&self, x: &Vec<usize>, out: &Vec<usize>) -> (r: bool)
        ensures
            r == row_shapes(x@, out@),
    {
        x.len() == 2 && shapes_equal(x, out)
    }
}

impl LogSoftmax {
    /// Whether the given shapes fit this operator.
    pub fn validate(&self, x: &Vec<usize>, out: &Vec<usize>) -> (r: bool)
        ensures
            r == row_shapes(x@, out@),
    {
        x.len() == 2 && shapes_equal(x, out)
    }
}

impl Argmax {
    /// Whether the given shapes fit this operator.
    pub fn validate(&self, x: &Vec<usize>, out: &Vec<usize>) -> (r: bool)
        ensures
            r == argmax_shapes(x@, out@),
    {
        x.len() == 2 && out.len() == 1 && out[0] == x[0]
    }
}

impl Onehot {
    /// Whether the given shapes fit this operator.
    pub fn validate(&self, x: &Vec<usize>, out: &Vec<usize>) -> (r: bool)
        ensures
            r == onehot_shapes(x@, out@, self.num_classes as nat),
    {
        x.len() == 1 && out.len() == 2 && out[0] == x[0] && out[1] as u64 == self.num_classes as u64
    }
}

} // verus!

verus! {

/// One recorded operator, with its parameters.
pub enum Op {
    Add(Add),
    Sub(Sub),
    Mul(Mul),
    Div(Div),
    Neg(Neg),
    Square(Square),
    MatMul(MatMul),
    Broadcast(Broadcast),
    Mean(Mean),
    Softmax(Softmax),
    LogSoftmax(LogSoftmax),
    Log(Log),
    ReLu(ReLu),
    Argmax(Argmax),
    Onehot(Onehot),
}

impl Op {
    /// Every operator but argmax and one-hot has a backward step.
    pub open spec fn differentiable(&self) -> bool {
        !(self is Argmax || self is Onehot)
    }

    /// Whether this operator has a backward step.
    pub fn has_gradient(&self) -> (r: bool)
        ensures
            r == self.differentiable(),
    {
        match self {
            Op::Argmax(_) => false,
            Op::Onehot(_) => false,
            _ => true,
        }
    }

    /// The operator's name.
    pub fn get_name(&self) -> &'static str {
        match self {
            Op::Add(_) => "Add",
            Op::Sub(_) => "Sub",
            Op::Mul(_) => "Mul",
            Op::Div(_) => "Div",
            Op::Neg(_) => "Neg",
            Op::Square(_) => "Square",
            Op::MatMul(_) => "MatMul",
            Op::Broadcast(_) => "Broadcast",
            Op::Mean(_) => "Mean",
            Op::Softmax(_) => "Softmax",
            Op::LogSoftmax(_) => "LogSoftmax",
            Op::Log(_) => "Log",
            Op::ReLu(_) => "ReLu",
            Op::Argmax(_) => "Argmax",
            Op::Onehot(_) => "Onehot",
        }
    }
}

} // verus!
