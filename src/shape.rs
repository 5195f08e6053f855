use vstd::prelude::*;

verus! {

/// Number of elements of a tensor of the given shape: the product of its
/// dimensions (the empty shape holds one element).
pub open spec fn shape_size(shape: Seq<usize>) -> nat
    decreases shape.len(),
{
    if shape.len() == 0 {
        1
    } else {
        shape_size(shape.drop_last()) * (shape.last() as nat)
    }
}

/// With no zero dimension, a prefix of a shape holds no more elements than the whole.
pub proof fn lemma_prefix_size_le(shape: Seq<usize>, i: int)
    requires
        0 <= i <= shape.len(),
        forall|k: int| 0 <= k < shape.len() ==> shape[k] >= 1,
    ensures
        shape_size(shape.subrange(0, i)) <= shape_size(shape),
    decreases shape.len() - i,
{
    if i < shape.len() {
        let s = shape.subrange(0, i + 1);
        assert(s.drop_last() =~= shape.subrange(0, i));
        let a = shape_size(shape.subrange(0, i));
        let d = shape[i] as nat;
        assert(a <= a * d) by (nonlinear_arith)
            requires d >= 1;
        lemma_prefix_size_le(shape, i + 1);
    } else {
        assert(shape.subrange(0, i) =~= shape);
    }
}

/// A shape with a zero dimension holds no element.
pub proof fn lemma_zero_dim(shape: Seq<usize>, i: int)
    requires
        0 <= i < shape.len(),
        shape[i] == 0,
    ensures
        shape_size(shape) == 0,
    decreases shape.len(),
{
    if i < shape.len() - 1 {
        lemma_zero_dim(shape.drop_last(), i);
        assert(shape_size(shape) == 0 * (shape.last() as nat));
    } else {
        assert(shape_size(shape.drop_last()) * 0 == 0);
    }
}

/// Number of elements of a tensor of shape `shape`.
pub fn size_of(shape: &Vec<usize>) -> (r: usize)
    requires
        shape_size(shape@) <= usize::MAX,
    ensures
        r == shape_size(shape@),
{
    match checked_size(shape) {
        Some(n) => n,
        None => 0,
    }
}

/// The size of a non-empty shape is its first dimension times the size of the rest.
pub proof fn lemma_size_first(shape: Seq<usize>)
    requires
        shape.len() >= 1,
    ensures
        shape_size(shape) == (shape[0] as nat) * shape_size(shape.drop_first()),
    decreases shape.len(),
{
    if shape.len() == 1 {
        assert(shape_size(shape.drop_last()) == 1);
        assert(shape_size(shape.drop_first()) == 1);
        assert(shape.last() == shape[0]);
        assert(shape_size(shape) == 1 * (shape[0] as nat));
        assert((shape[0] as nat) * 1 == 1 * (shape[0] as nat));
        assert(shape_size(shape) == (shape[0] as nat) * shape_size(shape.drop_first()));
    } else {
        let front = shape.drop_last();
        lemma_size_first(front);
        let rest = shape.drop_first();
        assert(front.drop_first() =~= rest.drop_last());
        assert(rest.last() == shape.last());
        let a = shape[0] as nat;
        let b = shape_size(front.drop_first());
        let c = shape.last() as nat;
        assert(shape_size(rest) == b * c);
        assert(shape_size(front) == a * b);
        assert(shape_size(shape) == a * b * c);
        assert(a * b * c == a * (b * c)) by (nonlinear_arith);
        assert(shape_size(shape) == a * shape_size(rest));
    }
}

/// The size of a rank-2 shape `[a, b]` is `a * b`.
pub proof fn lemma_size_two(shape: Seq<usize>)
    requires
        shape.len() == 2,
    ensures
        shape_size(shape) == (shape[0] as nat) * (shape[1] as nat),
{
    let front = shape.drop_last();
    assert(shape_size(front.drop_last()) == 1);
    assert(shape_size(front) == 1 * (shape[0] as nat));
    assert(shape_size(shape) == shape_size(front) * (shape[1] as nat));
}

/// A copy of a shape.
pub fn copy_shape(s: &Vec<usize>) -> (r: Vec<usize>)
    ensures
        r@ == s@,
{
    let mut r: Vec<usize> = Vec::new();
    let mut i: usize = 0;
    while i < s.len()
        invariant
            i <= s.len(),
            r@ == s@.subrange(0, i as int),
        decreases s.len() - i,
    {
        r.push(s[i]);
        i = i + 1;
        proof {
            assert(r@ =~= s@.subrange(0, i as int));
        }
    }
    proof {
        assert(s@.subrange(0, i as int) =~= s@);
    }
    r
}


/// Number of elements of a tensor of shape `shape`, or `None` when it exceeds
/// `usize::MAX`.
pub fn checked_size(shape: &Vec<usize>) -> (r: Option<usize>)
    ensures
        r is None <==> shape_size(shape@) > usize::MAX,
        r matches Some(n) ==> n == shape_size(shape@),
{
    let mut k: usize = 0;
    while k < shape.len()
        invariant
            k <= shape.len(),
            forall|j: int| 0 <= j < k ==> shape@[j] >= 1,
        decreases shape.len() - k,
    {
        if shape[k] == 0 {
            proof {
                lemma_zero_dim(shape@, k as int);
            }
            return Some(0);
        }
        k = k + 1;
    }
    let mut size: usize = 1;
    let mut i: usize = 0;
    while i < shape.len()
        invariant
            i <= shape.len(),
            forall|j: int| 0 <= j < shape.len() ==> shape@[j] >= 1,
            size == shape_size(shape@.subrange(0, i as int)),
        decreases shape.len() - i,
    {
        proof {
            let s = shape@.subrange(0, i + 1);
            assert(s.drop_last() =~= shape@.subrange(0, i as int));
            lemma_prefix_size_le(shape@, i + 1);
        }
        match size.checked_mul(shape[i]) {
            Some(v) => {
                size = v;
            },
            None => {
                return None;
            },
        }
        i = i + 1;
    }
    proof {
        assert(shape@.subrange(0, i as int) =~= shape@);
    }
    Some(size)
}

} // verus!
