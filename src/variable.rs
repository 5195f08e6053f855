use vstd::prelude::*;
use crate::shape::{shape_size, size_of};

verus! {

/// A sequence of `n` copies of `v`.
pub open spec fn filled<T>(n: nat, v: T) -> Seq<T> {
    Seq::new(n, |i: int| v)
}

/// A tensor: its shape, its values, its accumulated gradient, whether gradients
/// flow into it, and the index of the graph node that produced it.
pub struct Variable<T> {
    pub parent: Option<usize>,
    pub shape: Vec<usize>,
    pub data: Vec<T>,
    pub grad: Vec<T>,
    pub need_grad: bool,
}

/// A vector of `n` copies of `v`.
pub fn filled_vec<T: Copy>(n: usize, v: T) -> (r: Vec<T>)
    ensures
        r@ == filled(n as nat, v),
{
    let mut r: Vec<T> = Vec::new();
    let mut i: usize = 0;
    while i < n
        invariant
            i <= n,
            r@ == filled(i as nat, v),
        decreases n - i,
    {
        r.push(v);
        i = i + 1;
        proof {
            assert(r@ =~= filled(i as nat, v));
        }
    }
    r
}

impl<T: Copy> Variable<T> {
    /// Both buffers hold one element per position of the shape.
    pub open spec fn wf(&self) -> bool {
        &&& self.data@.len() == shape_size(self.shape@)
        &&& self.grad@.len() == shape_size(self.shape@)
    }

    /// Number of elements.
    pub open spec fn spec_size(&self) -> nat {
        shape_size(self.shape@)
    }

    /// A leaf tensor of the given shape whose values and gradient are all `zero`.
    pub fn new(shape: Vec<usize>, zero: T) -> (r: Self)
        requires
            shape_size(shape@) <= usize::MAX,
        ensures
            r.wf(),
            r.shape@ == shape@,
            r.data@ == filled(shape_size(shape@), zero),
            r.grad@ == filled(shape_size(shape@), zero),
            r.need_grad,
            r.parent is None,
    {
        let size = size_of(&shape);
        let data = filled_vec(size, zero);
        let grad = filled_vec(size, zero);
        Variable { parent: None, shape, data, grad, need_grad: true }
    }

    /// Number of elements: the product of the dimensions.
    pub fn size(&self) -> (r: usize)
        requires
            self.wf(),
        ensures
            r == self.spec_size(),
    {
        self.data.len()
    }

    /// Overwrites the values with `data`, which holds one value per element.
    pub fn set_data(&mut self, data: &[T])
        requires
            old(self).wf(),
            data@.len() == old(self).spec_size(),
        ensures
            final(self).wf(),
            final(self).data@ == data@,
            final(self).grad@ == old(self).grad@,
            final(self).shape@ == old(self).shape@,
            final(self).need_grad == old(self).need_grad,
            final(self).parent == old(self).parent,
    {
        let mut i: usize = 0;
        while i < data.len()
            invariant
                i <= data@.len(),
                self.data@.len() == data@.len(),
                forall|k: int| 0 <= k < i ==> self.data@[k] == data@[k],
                self.grad@ == old(self).grad@,
                self.shape@ == old(self).shape@,
                self.need_grad == old(self).need_grad,
                self.parent == old(self).parent,
            decreases data.len() - i,
        {
            self.data.set(i, data[i]);
            i = i + 1;
        }
        proof {
            assert(self.data@ =~= data@);
        }
    }

    /// Overwrites the gradient with `grad`, which holds one value per element.
    pub fn set_grad(&mut self, grad: &[T])
        requires
            old(self).wf(),
            grad@.len() == old(self).spec_size(),
        ensures
            final(self).wf(),
            final(self).grad@ == grad@,
            final(self).data@ == old(self).data@,
            final(self).shape@ == old(self).shape@,
            final(self).need_grad == old(self).need_grad,
            final(self).parent == old(self).parent,
    {
        let mut i: usize = 0;
        while i < grad.len()
            invariant
                i <= grad@.len(),
                self.grad@.len() == grad@.len(),
                forall|k: int| 0 <= k < i ==> self.grad@[k] == grad@[k],
                self.data@ == old(self).data@,
                self.shape@ == old(self).shape@,
                self.need_grad == old(self).need_grad,
                self.parent == old(self).parent,
            decreases grad.len() - i,
        {
            self.grad.set(i, grad[i]);
            i = i + 1;
        }
        proof {
            assert(self.grad@ =~= grad@);
        }
    }

    /// Sets whether gradients flow into this tensor.
    pub fn set_need_grad(&mut self, need_grad: bool)
        ensures
            final(self).need_grad == need_grad,
            final(self).data@ == old(self).data@,
            final(self).grad@ == old(self).grad@,
            final(self).shape@ == old(self).shape@,
            final(self).parent == old(self).parent,
    {
        self.need_grad = need_grad;
    }

    /// Sets every value to `v`.
    pub fn fill_data(&mut self, v: T)
        requires
            old(self).wf(),
        ensures
            final(self).wf(),
            final(self).data@ == filled(old(self).spec_size(), v),
            final(self).grad@ == old(self).grad@,
            final(self).shape@ == old(self).shape@,
            final(self).need_grad == old(self).need_grad,
            final(self).parent == old(self).parent,
    {
        let n = self.data.len();
        self.data = filled_vec(n, v);
    }

    /// Sets every gradient element to `v`.
    pub fn fill_grad(&mut self, v: T)
        requires
            old(self).wf(),
        ensures
            final(self).wf(),
            final(self).grad@ == filled(old(self).spec_size(), v),
            final(self).data@ == old(self).data@,
            final(self).shape@ == old(self).shape@,
            final(self).need_grad == old(self).need_grad,
            final(self).parent == old(self).parent,
    {
        let n = self.grad.len();
        self.grad = filled_vec(n, v);
    }

    /// Records the graph node that produced this tensor.
    pub fn set_parent(&mut self, parent: usize)
        ensures
            final(self).parent == Some(parent),
            final(self).data@ == old(self).data@,
            final(self).grad@ == old(self).grad@,
            final(self).shape@ == old(self).shape@,
            final(self).need_grad == old(self).need_grad,
    {
        self.parent = Some(parent);
    }
}

} // verus!
