//! The typed field store: one fixed-capacity dense array per transition
//! field.
//!
//! A store owns `capacity` rows, all of one element type and one row shape.
//! Rows are overwritten in place by position-indexed writes and copied out by
//! gather-by-index-list reads; the store itself never grows or shrinks.

use crate::elem::{Dtype, Elem};
use crate::errors::ReplayError;
use crate::tensor::{checked_shape_size, lemma_shape_size_prepend, shape_size, Tensor};
use vstd::prelude::*;

verus! {

/// The rows of `rows` selected by `idxs`, in order, concatenated.
pub open spec fn gathered(rows: Seq<Seq<Elem>>, idxs: Seq<usize>) -> Seq<Elem>
    decreases idxs.len(),
{
    if idxs.len() == 0 {
        Seq::empty()
    } else {
        gathered(rows, idxs.drop_last()).add(rows[idxs.last() as int])
    }
}

/// A gather of `n` rows of `rs` elements each yields `n * rs` elements.
pub proof fn lemma_gathered_len(rows: Seq<Seq<Elem>>, idxs: Seq<usize>, rs: nat)
    requires
        forall|j: int| 0 <= j < idxs.len() ==> (idxs[j] as int) < rows.len(),
        forall|i: int| 0 <= i < rows.len() ==> (#[trigger] rows[i]).len() == rs,
    ensures
        gathered(rows, idxs).len() == idxs.len() * rs,
    decreases idxs.len(),
{
    if idxs.len() == 0 {
        assert(idxs.len() * rs == 0) by (nonlinear_arith)
            requires
                idxs.len() == 0,
        ;
    } else {
        lemma_gathered_len(rows, idxs.drop_last(), rs);
        assert((idxs.len() - 1) * rs + rs == idxs.len() * rs) by (nonlinear_arith);
    }
}

/// Row alignment of a gather: slice `j` of the gathered elements is exactly
/// the stored row at index `idxs[j]`.  Since the buffer gathers every field
/// at one shared index sequence, row `j` of every field of a sampled batch
/// belongs to the same stored transition.
pub proof fn lemma_gathered_row(rows: Seq<Seq<Elem>>, idxs: Seq<usize>, rs: nat, j: int)
    requires
        forall|j2: int| 0 <= j2 < idxs.len() ==> (idxs[j2] as int) < rows.len(),
        forall|i: int| 0 <= i < rows.len() ==> (#[trigger] rows[i]).len() == rs,
        0 <= j < idxs.len(),
    ensures
        gathered(rows, idxs).subrange(j * rs, (j + 1) * rs) == rows[idxs[j] as int],
    decreases idxs.len(),
{
    let g = gathered(rows, idxs);
    let g0 = gathered(rows, idxs.drop_last());
    lemma_gathered_len(rows, idxs.drop_last(), rs);
    lemma_gathered_len(rows, idxs, rs);
    assert((j + 1) * rs == j * rs + rs) by (nonlinear_arith);
    if j == idxs.len() - 1 {
        assert(j * rs == g0.len()) by (nonlinear_arith)
            requires
                g0.len() == (idxs.len() - 1) * rs && j == idxs.len() - 1,
        ;
        assert(g.subrange(j * rs, (j + 1) * rs) =~= rows[idxs[j] as int]);
    } else {
        lemma_gathered_row(rows, idxs.drop_last(), rs, j);
        assert(idxs.drop_last()[j] == idxs[j]);
        assert(0 <= j * rs && (j + 1) * rs <= g0.len()) by (nonlinear_arith)
            requires
                g0.len() == (idxs.len() - 1) * rs && 0 <= j && j + 1 <= idxs.len() - 1 && rs >= 0,
        ;
        assert(g.subrange(j * rs, (j + 1) * rs) =~= g0.subrange(j * rs, (j + 1) * rs));
    }
}

/// Last write wins: gathering the single index `i` right after writing row
/// `item` at slot `i` yields exactly that row.
pub proof fn lemma_last_write_wins(rows: Seq<Seq<Elem>>, i: usize, item: Seq<Elem>)
    requires
        (i as int) < rows.len(),
    ensures
        gathered(rows.update(i as int, item), seq![i]) == item,
{
    let rows2 = rows.update(i as int, item);
    let e = Seq::<usize>::empty();
    assert(gathered(rows2, e) == Seq::<Elem>::empty());
    assert(seq![i].drop_last() =~= e);
    assert(seq![i].last() == i);
    assert(gathered(rows2, seq![i]) == Seq::<Elem>::empty().add(rows2[i as int]));
    assert(Seq::<Elem>::empty().add(item) =~= item);
}

/// One transition field's fixed-capacity dense array: `capacity` rows of
/// shape `field_shape`, all of element type `dtype`.
pub struct FieldStore {
    dt: Dtype,
    fshape: Vec<usize>,
    storage: Vec<Vec<Elem>>,
}

impl FieldStore {
    /// The element type shared by every row.
    pub closed spec fn dtype(self) -> Dtype {
        self.dt
    }

    /// The shape of one row, excluding the leading slot dimension.
    pub closed spec fn field_shape(self) -> Seq<usize> {
        self.fshape@
    }

    /// The number of slots; fixed at construction.
    pub closed spec fn capacity(self) -> nat {
        self.storage@.len()
    }

    /// The stored rows, slot by slot.
    pub closed spec fn rows(self) -> Seq<Seq<Elem>> {
        self.storage@.map_values(|r: Vec<Elem>| r@)
    }

    /// The number of elements in one row.
    pub open spec fn row_size(self) -> nat {
        shape_size(self.field_shape())
    }

    /// The store holds exactly `capacity` rows — the leading dimension
    /// never changes — and every row holds exactly one element of the
    /// configured type per coordinate of the configured row shape, which is
    /// non-degenerate.
    pub open spec fn wf(self) -> bool {
        &&& self.rows().len() == self.capacity()
        &&& forall|j: int| 0 <= j < self.field_shape().len() ==> self.field_shape()[j] >= 1
        &&& self.row_size() <= usize::MAX
        &&& forall|i: int|
            0 <= i < self.rows().len() ==> (#[trigger] self.rows()[i]).len() == self.row_size()
        &&& forall|i: int, j: int|
            0 <= i < self.rows().len() && 0 <= j < self.rows()[i].len() ==> (
            #[trigger] self.rows()[i][j]).dtype() == self.dtype()
    }

    /// A store accepts an item whose element type matches and whose shape is
    /// the configured row shape, with or without a leading singleton batch
    /// dimension.
    pub open spec fn accepts(self, item: Tensor) -> bool {
        &&& item.dtype() == self.dtype()
        &&& (item.shape() == self.field_shape() || item.shape() == seq![1usize].add(
            self.field_shape(),
        ))
    }

    /// Whether the store accepts `item` for a write: matching element type
    /// and matching row shape, a leading singleton batch dimension allowed.
    pub fn accepts_item(&self, item: &Tensor) -> (b: bool)
        ensures
            b == self.accepts(*item),
    {
        if item.dtype_val() != self.dt {
            return false;
        }
        shapes_match(item.shape_vec(), &self.fshape)
    }

    /// The number of slots, as a value.
    pub fn capacity_val(&self) -> (c: usize)
        ensures
            c == self.capacity(),
    {
        self.storage.len()
    }

    /// Allocates a store of `capacity` zero-filled rows.
    pub fn new(dtype: Dtype, field_shape: Vec<usize>, capacity: usize) -> (s: FieldStore)
        requires
            forall|j: int| 0 <= j < field_shape@.len() ==> field_shape@[j] >= 1,
            shape_size(field_shape@) <= usize::MAX,
        ensures
            s.wf(),
            s.dtype() == dtype,
            s.field_shape() == field_shape@,
            s.capacity() == capacity,
            forall|i: int, x: int|
                0 <= i < capacity && 0 <= x < shape_size(field_shape@) ==> (#[trigger] s.rows()[i][x])
                    == dtype.spec_zero(),
    {
        let n: usize = match checked_shape_size(&field_shape) {
            Some(n) => n,
            None => {
                proof {
                    assert(false);
                }
                0
            },
        };
        let mut storage: Vec<Vec<Elem>> = Vec::new();
        let mut i: usize = 0;
        while i < capacity
            invariant
                0 <= i <= capacity,
                storage@.len() == i,
                forall|p: int| 0 <= p < i ==> (#[trigger] storage@[p])@.len() == shape_size(
                    field_shape@,
                ),
                forall|p: int, q: int|
                    0 <= p < i && 0 <= q < storage@[p]@.len() ==> (#[trigger] storage@[p]@[q])
                        == dtype.spec_zero(),
                n == shape_size(field_shape@),
            decreases capacity - i,
        {
            let mut row: Vec<Elem> = Vec::new();
            let mut j: usize = 0;
            while j < n
                invariant
                    0 <= j <= n,
                    row@.len() == j,
                    forall|q: int| 0 <= q < j ==> row@[q] == dtype.spec_zero(),
                decreases n - j,
            {
                row.push(dtype.zero());
                j += 1;
            }
            storage.push(row);
            i += 1;
        }
        let s = FieldStore { dt: dtype, fshape: field_shape, storage };
        proof {
            assert(forall|i: int|
                0 <= i < capacity ==> (#[trigger] s.rows()[i]) == s.storage@[i]@);
        }
        s
    }

    /// Overwrites slot `index` with the values of `item`.  The item must
    /// match the configured element type and row shape (a leading singleton
    /// batch dimension is allowed and stripped); on any error the store is
    /// unchanged.
    pub fn write(&mut self, index: usize, item: &Tensor) -> (r: Result<(), ReplayError>)
        requires
            old(self).wf(),
            item.wf(),
        ensures
            final(self).wf(),
            final(self).dtype() == old(self).dtype(),
            final(self).field_shape() == old(self).field_shape(),
            final(self).capacity() == old(self).capacity(),
            index >= old(self).capacity() ==> r == Err::<(), ReplayError>(
                ReplayError::IndexOutOfRange,
            ),
            index < old(self).capacity() && !old(self).accepts(*item) ==> r == Err::<(),
                ReplayError,
            >(ReplayError::ShapeMismatch),
            index < old(self).capacity() && old(self).accepts(*item) ==> r == Ok::<(),
                ReplayError,
            >(()) && final(self).rows() == old(self).rows().update(index as int, item.data()),
            r is Err ==> final(self).rows() == old(self).rows(),
    {
        if index >= self.storage.len() {
            return Err(ReplayError::IndexOutOfRange);
        }
        if item.dtype_val() != self.dt {
            return Err(ReplayError::ShapeMismatch);
        }
        if !shapes_match(item.shape_vec(), &self.fshape) {
            return Err(ReplayError::ShapeMismatch);
        }
        proof {
            if item.shape() == seq![1usize].add(self.field_shape()) {
                lemma_shape_size_prepend(1, self.field_shape());
                assert(1 * self.row_size() == self.row_size() * 1) by (nonlinear_arith);
                assert(self.row_size() * 1 == self.row_size()) by (nonlinear_arith);
            }
            assert(item.data().len() == self.row_size());
        }
        let src = item.data_vec();
        let mut row: Vec<Elem> = Vec::new();
        let mut j: usize = 0;
        while j < src.len()
            invariant
                0 <= j <= src@.len(),
                row@ == src@.take(j as int),
            decreases src@.len() - j,
        {
            row.push(src[j]);
            j += 1;
        }
        proof {
            assert(row@ =~= item.data());
        }
        let slot = &mut self.storage[index];
        *slot = row;
        proof {
            assert(self.rows() =~= old(self).rows().update(index as int, item.data()));
        }
        Ok(())
    }

    /// Copies the rows at `indices`, in order, into a freshly allocated
    /// dense array of shape `[indices.len(), *field_shape]`.  The store is
    /// never changed; an out-of-range index reports an error instead.
    pub fn gather(&self, indices: &Vec<usize>) -> (r: Result<Tensor, ReplayError>)
        requires
            self.wf(),
        ensures
            match r {
                Ok(t) => {
                    &&& forall|j: int|
                        0 <= j < indices@.len() ==> (indices@[j] as int) < self.capacity()
                    &&& t.wf()
                    &&& t.dtype() == self.dtype()
                    &&& t.shape() == seq![indices@.len() as usize].add(self.field_shape())
                    &&& t.data() == gathered(self.rows(), indices@)
                },
                Err(e) => {
                    &&& e == ReplayError::IndexOutOfRange
                    &&& exists|j: int|
                        0 <= j < indices@.len() && (indices@[j] as int) >= self.capacity()
                },
            },
    {
        let mut v: usize = 0;
        while v < indices.len()
            invariant
                0 <= v <= indices@.len(),
                forall|j: int| 0 <= j < v ==> (indices@[j] as int) < self.capacity(),
            decreases indices@.len() - v,
        {
            if indices[v] >= self.storage.len() {
                return Err(ReplayError::IndexOutOfRange);
            }
            v += 1;
        }
        let mut elems: Vec<Elem> = Vec::new();
        let mut j: usize = 0;
        while j < indices.len()
            invariant
                0 <= j <= indices@.len(),
                self.wf(),
                forall|j2: int| 0 <= j2 < indices@.len() ==> (indices@[j2] as int)
                    < self.capacity(),
                elems@ == gathered(self.rows(), indices@.take(j as int)),
                forall|q: int| 0 <= q < elems@.len() ==> (#[trigger] elems@[q]).dtype()
                    == self.dtype(),
            decreases indices@.len() - j,
        {
            let idx = indices[j];
            let src = &self.storage[idx];
            let ghost before: Seq<Elem> = elems@;
            let mut m: usize = 0;
            while m < src.len()
                invariant
                    0 <= m <= src@.len(),
                    elems@ == before.add(src@.take(m as int)),
                    src@ == self.rows()[indices@[j as int] as int],
                    before == gathered(self.rows(), indices@.take(j as int)),
                    j < indices@.len(),
                decreases src@.len() - m,
            {
                proof {
                    assert(before.add(src@.take(m as int)).push(src@[m as int]) =~= before.add(
                        src@.take(m as int + 1),
                    ));
                }
                elems.push(src[m]);
                m += 1;
            }
            proof {
                assert(src@.take(src@.len() as int) =~= src@);
                assert(indices@.take(j as int + 1).drop_last() =~= indices@.take(j as int));
                assert(indices@.take(j as int + 1).last() == indices@[j as int]);
                assert(elems@ =~= gathered(self.rows(), indices@.take(j as int + 1)));
            }
            j += 1;
        }
        proof {
            assert(indices@.take(indices@.len() as int) =~= indices@);
        }
        let mut dims: Vec<usize> = Vec::new();
        dims.push(indices.len());
        proof {
            assert(dims@ =~= seq![indices@.len() as usize].add(self.fshape@.take(0)));
        }
        let mut k: usize = 0;
        while k < self.fshape.len()
            invariant
                0 <= k <= self.fshape@.len(),
                dims@ == seq![indices@.len() as usize].add(self.fshape@.take(k as int)),
            decreases self.fshape@.len() - k,
        {
            proof {
                assert(seq![indices@.len() as usize].add(self.fshape@.take(k as int)).push(
                    self.fshape@[k as int],
                ) =~= seq![indices@.len() as usize].add(self.fshape@.take(k as int + 1)));
            }
            dims.push(self.fshape[k]);
            k += 1;
        }
        proof {
            assert(self.fshape@.take(self.fshape@.len() as int) =~= self.fshape@);
        }
        let t = Tensor::from_parts(self.dt, dims, elems);
        proof {
            lemma_gathered_len(self.rows(), indices@, self.row_size());
            lemma_shape_size_prepend(indices@.len() as usize, self.field_shape());
            assert(t.data().len() == shape_size(t.shape()));
        }
        Ok(t)
    }
}

/// Whether `item_shape` equals `field_shape`, or equals it after stripping
/// one leading singleton batch dimension.
fn shapes_match(item_shape: &Vec<usize>, field_shape: &Vec<usize>) -> (b: bool)
    ensures
        b == (item_shape@ == field_shape@ || item_shape@ == seq![1usize].add(field_shape@)),
{
    if item_shape.len() == field_shape.len() {
        let mut i: usize = 0;
        while i < field_shape.len()
            invariant
                0 <= i <= field_shape@.len(),
                item_shape@.len() == field_shape@.len(),
                forall|p: int| 0 <= p < i ==> item_shape@[p] == field_shape@[p],
            decreases field_shape@.len() - i,
        {
            if item_shape[i] != field_shape[i] {
                return false;
            }
            i += 1;
        }
        proof {
            assert(item_shape@ =~= field_shape@);
        }
        true
    } else if item_shape.len() > field_shape.len() && item_shape.len() - 1 == field_shape.len()
        && item_shape[0] == 1 {
        let mut i: usize = 0;
        while i < field_shape.len()
            invariant
                0 <= i <= field_shape@.len(),
                item_shape@.len() == field_shape@.len() + 1,
                item_shape@[0] == 1,
                forall|p: int| 0 <= p < i ==> item_shape@[p + 1] == field_shape@[p],
            decreases field_shape@.len() - i,
        {
            if item_shape[i + 1] != field_shape[i] {
                proof {
                    assert(seq![1usize].add(field_shape@)[i + 1] == field_shape@[i as int]);
                }
                return false;
            }
            i += 1;
        }
        proof {
            assert(item_shape@ =~= seq![1usize].add(field_shape@));
        }
        true
    } else {
        proof {
            assert(seq![1usize].add(field_shape@).len() == field_shape@.len() + 1);
        }
        false
    }
}

} // verus!
