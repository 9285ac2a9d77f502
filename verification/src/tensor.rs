//! Dense tensors as plain values: dimensions and row-major elements.

use crate::copy::copy_vec;
use vstd::prelude::*;

verus! {

/// A tensor: its dimensions and its elements in row-major order.
#[derive(Debug, Clone)]
pub struct DenseTensor<N> {
    pub dims: Vec<usize>,
    pub data: Vec<N>,
}

/// What a [`DenseTensor`] holds.
#[verifier::ext_equal]
pub struct DenseModel<N> {
    pub dims: Seq<usize>,
    pub data: Seq<N>,
}

impl<N> View for DenseTensor<N> {
    type V = DenseModel<N>;

    open spec fn view(&self) -> DenseModel<N> {
        DenseModel { dims: self.dims@, data: self.data@ }
    }
}

/// How many elements a tensor of these dimensions has.
pub open spec fn elem_count(dims: Seq<usize>) -> nat
    decreases dims.len(),
{
    if dims.len() == 0 {
        1
    } else {
        elem_count(dims.drop_last()) * dims.last() as nat
    }
}

impl<N> DenseModel<N> {
    /// The dimensions account for every element.
    pub open spec fn wf(self) -> bool {
        elem_count(self.dims) == self.data.len()
    }
}

proof fn zero_dim_no_elems(dims: Seq<usize>, i: int)
    requires
        0 <= i < dims.len(),
        dims[i] == 0,
    ensures
        elem_count(dims) == 0,
    decreases dims.len(),
{
    if i < dims.len() - 1 {
        zero_dim_no_elems(dims.drop_last(), i);
        assert(0 * dims.last() as nat == 0) by (nonlinear_arith);
    } else {
        assert(elem_count(dims.drop_last()) * 0 == 0) by (nonlinear_arith);
    }
}

proof fn prefix_count_le(dims: Seq<usize>, i: int)
    requires
        0 <= i <= dims.len(),
        forall|j: int| i <= j < dims.len() ==> dims[j] > 0,
    ensures
        elem_count(dims.take(i)) <= elem_count(dims),
    decreases dims.len(),
{
    if i == dims.len() {
        assert(dims.take(i) =~= dims);
    } else {
        let init = dims.drop_last();
        prefix_count_le(init, i);
        assert(init.take(i) =~= dims.take(i));
        let p = elem_count(init);
        let d = dims.last() as nat;
        assert(p <= p * d) by (nonlinear_arith)
            requires
                d >= 1,
        ;
    }
}

/// Whether `n` elements fill a tensor of these dimensions exactly.
pub fn fills(dims: &Vec<usize>, n: usize) -> (r: bool)
    ensures
        r == (elem_count(dims@) == n),
{
    let mut i: usize = 0;
    while i < dims.len()
        invariant
            i <= dims@.len(),
            forall|j: int| 0 <= j < i ==> dims@[j] > 0,
        decreases dims@.len() - i,
    {
        if dims[i] == 0 {
            proof {
                zero_dim_no_elems(dims@, i as int);
            }
            return n == 0;
        }
        i = i + 1;
    }
    let mut count: usize = 1;
    let mut k: usize = 0;
    while k < dims.len()
        invariant
            k <= dims@.len(),
            forall|j: int| 0 <= j < dims@.len() ==> dims@[j] > 0,
            count == elem_count(dims@.take(k as int)),
        decreases dims@.len() - k,
    {
        proof {
            assert(dims@.take(k + 1).drop_last() =~= dims@.take(k as int));
            prefix_count_le(dims@, k + 1);
        }
        match count.checked_mul(dims[k]) {
            Some(c) => {
                count = c;
            },
            None => {
                return false;
            },
        }
        k = k + 1;
    }
    assert(dims@.take(dims@.len() as int) =~= dims@);
    count == n
}

/// Whether two tensors have the same dimensions.
pub(crate) fn same_dims(a: &Vec<usize>, b: &Vec<usize>) -> (r: bool)
    ensures
        r == (a@ == b@),
{
    if a.len() != b.len() {
        return false;
    }
    let mut i: usize = 0;
    while i < a.len()
        invariant
            i <= a@.len(),
            a@.len() == b@.len(),
            forall|j: int| 0 <= j < i ==> a@[j] == b@[j],
        decreases a@.len() - i,
    {
        if a[i] != b[i] {
            return false;
        }
        i = i + 1;
    }
    assert(a@ =~= b@);
    true
}

impl<N: Copy> DenseTensor<N> {
    /// A second tensor with the same contents.
    pub fn duplicate(&self) -> (r: Self)
        ensures
            r@ == self@,
    {
        DenseTensor { dims: copy_vec(&self.dims), data: copy_vec(&self.data) }
    }
}

} // verus!
