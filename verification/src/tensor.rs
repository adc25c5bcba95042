//! Dense, shape-described arrays of scalar elements.
//!
//! A [`Tensor`] is a flat row-major array of [`Elem`] values together with a
//! shape descriptor and an element-type tag.  The store keeps one such array
//! per field; items pushed into the store and mini-batches gathered out of it
//! are tensors as well.

use crate::elem::{Dtype, Elem};
use vstd::prelude::*;

verus! {

/// The number of scalar elements in a dense array of the given shape:
/// the product of all dimensions (1 for the empty, scalar shape).
pub open spec fn shape_size(shape: Seq<usize>) -> nat
    decreases shape.len(),
{
    if shape.len() == 0 {
        1
    } else {
        shape_size(shape.drop_last()) * (shape.last() as nat)
    }
}

/// Prepending a dimension multiplies the element count by it.
pub proof fn lemma_shape_size_prepend(k: usize, s: Seq<usize>)
    ensures
        shape_size(seq![k].add(s)) == (k as nat) * shape_size(s),
    decreases s.len(),
{
    if s.len() == 0 {
        assert(seq![k].add(s) =~= seq![k]);
        assert(seq![k].drop_last() =~= Seq::<usize>::empty());
        assert(shape_size(seq![k]) == shape_size(seq![k].drop_last()) * (seq![k].last() as nat));
        assert(shape_size(s) == 1);
        assert(1 * (k as nat) == (k as nat) * 1) by (nonlinear_arith);
        assert(shape_size(seq![k].add(s)) == (k as nat) * shape_size(s));
    } else {
        let t = seq![k].add(s);
        assert(t.drop_last() =~= seq![k].add(s.drop_last()));
        assert(t.last() == s.last());
        assert(shape_size(t) == shape_size(t.drop_last()) * (t.last() as nat));
        assert(shape_size(s) == shape_size(s.drop_last()) * (s.last() as nat));
        lemma_shape_size_prepend(k, s.drop_last());
        assert(shape_size(t) == ((k as nat) * shape_size(s.drop_last())) * (s.last() as nat));
        assert(((k as nat) * shape_size(s.drop_last())) * (s.last() as nat) == (k as nat) * (
        shape_size(s.drop_last()) * (s.last() as nat))) by (nonlinear_arith);
        assert(shape_size(t) == (k as nat) * shape_size(s));
        assert(shape_size(seq![k].add(s)) == (k as nat) * shape_size(s));
    }
}

/// One more factor of the running product.
pub proof fn lemma_shape_size_take_succ(s: Seq<usize>, i: int)
    requires
        0 <= i < s.len(),
    ensures
        shape_size(s.take(i + 1)) == shape_size(s.take(i)) * (s[i] as nat),
{
    assert(s.take(i + 1).drop_last() =~= s.take(i));
    assert(s.take(i + 1).last() == s[i]);
}

/// With no zero dimension, a prefix of the shape never has more elements
/// than the whole shape.
pub proof fn lemma_shape_size_take_le(s: Seq<usize>, i: int)
    requires
        forall|j: int| 0 <= j < s.len() ==> s[j] >= 1,
        0 <= i <= s.len(),
    ensures
        shape_size(s.take(i)) <= shape_size(s),
    decreases s.len() - i,
{
    if i == s.len() {
        assert(s.take(i) =~= s);
    } else {
        lemma_shape_size_take_succ(s, i);
        assert(shape_size(s.take(i)) <= shape_size(s.take(i)) * (s[i] as nat)) by (
        nonlinear_arith)
            requires
                s[i] >= 1,
        ;
        lemma_shape_size_take_le(s, i + 1);
    }
}

/// The product of the dimensions, or `None` where it exceeds `usize::MAX`.
pub fn checked_shape_size(shape: &Vec<usize>) -> (r: Option<usize>)
    requires
        forall|j: int| 0 <= j < shape@.len() ==> shape@[j] >= 1,
    ensures
        match r {
            Some(n) => n == shape_size(shape@),
            None => shape_size(shape@) > usize::MAX,
        },
{
    let mut acc: usize = 1;
    let mut i: usize = 0;
    proof {
        assert(shape@.take(0) =~= Seq::<usize>::empty());
    }
    while i < shape.len()
        invariant
            0 <= i <= shape@.len(),
            forall|j: int| 0 <= j < shape@.len() ==> shape@[j] >= 1,
            acc == shape_size(shape@.take(i as int)),
        decreases shape@.len() - i,
    {
        proof {
            lemma_shape_size_take_succ(shape@, i as int);
        }
        match acc.checked_mul(shape[i]) {
            Some(v) => {
                acc = v;
            },
            None => {
                proof {
                    lemma_shape_size_take_le(shape@, i as int + 1);
                }
                return None;
            },
        }
        i += 1;
    }
    proof {
        assert(shape@.take(shape@.len() as int) =~= shape@);
    }
    Some(acc)
}

/// A dense row-major array: a shape and one scalar element per coordinate.
#[derive(Clone, Debug, PartialEq)]
pub struct Tensor {
    pub(crate) dt: Dtype,
    pub(crate) dims: Vec<usize>,
    pub(crate) elems: Vec<Elem>,
}

impl Tensor {
    /// The element type of the array.
    pub closed spec fn dtype(self) -> Dtype {
        self.dt
    }

    /// The shape of the array.
    pub closed spec fn shape(self) -> Seq<usize> {
        self.dims@
    }

    /// The elements of the array, row-major.
    pub closed spec fn data(self) -> Seq<Elem> {
        self.elems@
    }

    /// A valid tensor holds exactly one element per coordinate of its shape,
    /// all of its declared element type.
    pub open spec fn wf(self) -> bool {
        &&& self.data().len() == shape_size(self.shape())
        &&& forall|i: int| 0 <= i < self.data().len() ==> (#[trigger] self.data()[i]).dtype()
            == self.dtype()
    }

    /// The element type, as a value.
    pub fn dtype_val(&self) -> (d: Dtype)
        ensures
            d == self.dtype(),
    {
        self.dt
    }

    /// The shape, as a vector of dimensions.
    pub fn shape_vec(&self) -> (s: &Vec<usize>)
        ensures
            s@ == self.shape(),
    {
        &self.dims
    }

    /// The elements, row-major.
    pub fn data_vec(&self) -> (d: &Vec<Elem>)
        ensures
            d@ == self.data(),
    {
        &self.elems
    }

    /// Assembles a tensor from its parts, with no check; the callers in this
    /// crate prove well-formedness from the ensured field values.
    pub(crate) fn from_parts(dt: Dtype, dims: Vec<usize>, elems: Vec<Elem>) -> (t: Tensor)
        ensures
            t.dtype() == dt,
            t.shape() == dims@,
            t.data() == elems@,
    {
        Tensor { dt, dims, elems }
    }

    /// A zero-filled dense array of the requested shape and element type.
    /// Every supported element type has the all-zero scalar as its zero.
    pub fn zeros(dt: Dtype, shape: &Vec<usize>) -> (t: Tensor)
        requires
            forall|j: int| 0 <= j < shape@.len() ==> shape@[j] >= 1,
            shape_size(shape@) <= usize::MAX,
        ensures
            t.wf(),
            t.dtype() == dt,
            t.shape() == shape@,
            t.data().len() == shape_size(shape@),
            forall|i: int| 0 <= i < t.data().len() ==> t.data()[i] == dt.spec_zero(),
    {
        let n: usize = match checked_shape_size(shape) {
            Some(n) => n,
            None => {
                proof {
                    assert(false);
                }
                0
            },
        };
        let mut elems: Vec<Elem> = Vec::new();
        let mut i: usize = 0;
        while i < n
            invariant
                0 <= i <= n,
                elems@.len() == i,
                forall|j: int| 0 <= j < i ==> elems@[j] == dt.spec_zero(),
            decreases n - i,
        {
            elems.push(dt.zero());
            i += 1;
        }
        let mut dims: Vec<usize> = Vec::new();
        let mut k: usize = 0;
        while k < shape.len()
            invariant
                0 <= k <= shape@.len(),
                dims@ == shape@.take(k as int),
            decreases shape@.len() - k,
        {
            dims.push(shape[k]);
            k += 1;
        }
        proof {
            assert(dims@ =~= shape@);
        }
        Tensor { dt, dims, elems }
    }

    /// A dense array built from the given elements, checked against the
    /// shape and the element type: `None` where the element count does not
    /// match the shape or some element is of another type.
    pub fn from_data(dt: Dtype, shape: &Vec<usize>, data: Vec<Elem>) -> (r: Option<Tensor>)
        requires
            forall|j: int| 0 <= j < shape@.len() ==> shape@[j] >= 1,
        ensures
            match r {
                Some(t) => {
                    &&& t.wf()
                    &&& t.dtype() == dt
                    &&& t.shape() == shape@
                    &&& t.data() == data@
                },
                None => data@.len() != shape_size(shape@) || exists|i: int|
                    0 <= i < data@.len() && (#[trigger] data@[i]).dtype() != dt,
            },
    {
        let n_data: usize = data.len();
        let n: usize = match checked_shape_size(shape) {
            Some(n) => n,
            None => {
                return None;
            },
        };
        if n_data != n {
            return None;
        }
        let mut i: usize = 0;
        while i < data.len()
            invariant
                0 <= i <= data@.len(),
                forall|j: int| 0 <= j < i ==> (#[trigger] data@[j]).dtype() == dt,
            decreases data@.len() - i,
        {
            if data[i].dtype_val() != dt {
                return None;
            }
            i += 1;
        }
        let mut dims: Vec<usize> = Vec::new();
        let mut k: usize = 0;
        while k < shape.len()
            invariant
                0 <= k <= shape@.len(),
                dims@ == shape@.take(k as int),
            decreases shape@.len() - k,
        {
            dims.push(shape[k]);
            k += 1;
        }
        proof {
            assert(dims@ =~= shape@);
        }
        Some(Tensor { dt, dims, elems: data })
    }
}

} // verus!
