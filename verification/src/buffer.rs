//! The replay buffer: one typed field store per transition field, a shared
//! write cursor and a count of the slots written so far.
//!
//! Pushing appends one full transition, overwriting the oldest slot once the
//! buffer is full (ring overwrite); sampling draws a uniformly random index
//! batch, with replacement, from the valid slots and gathers every field at
//! that one shared index sequence.

use crate::elem::Dtype;
use crate::errors::ReplayError;
use crate::store::{gathered, FieldStore};
use crate::tensor::{shape_size, Tensor};
use vstd::prelude::*;

verus! {

/// The configuration of one transition field: its name, its element type
/// and the shape of one item.
pub struct FieldSpec {
    /// The field's name, unique within one buffer.
    pub name: String,
    /// The element type of the field's store.
    pub dtype: Dtype,
    /// The shape of one item, excluding the slot dimension.
    pub shape: Vec<usize>,
}

/// A sampled mini-batch: the drawn slot indices and, per field, the rows
/// gathered at exactly those indices.  A batch is a snapshot; it keeps no
/// connection to the buffer it was sampled from.
#[derive(Debug, Clone, PartialEq)]
pub struct Batch {
    /// The sampled slot positions, in draw order; duplicates are allowed.
    pub indices: Vec<usize>,
    /// Per field, in the buffer's field order: the field name and the array
    /// of shape `[indices.len(), *field_shape]` gathered at `indices`.
    pub fields: Vec<(String, Tensor)>,
}

/// Whether some entry of `t` carries the field name `name`.
pub open spec fn supplies(t: Seq<(String, Tensor)>, name: Seq<char>) -> bool {
    exists|j: int| 0 <= j < t.len() && (#[trigger] t[j]).0@ == name
}

/// The item of the first entry of `t` carrying the field name `name`.
pub open spec fn item_for(t: Seq<(String, Tensor)>, name: Seq<char>) -> Tensor
    decreases t.len(),
{
    if t.len() == 0 {
        vstd::pervasive::arbitrary()
    } else if t[0].0@ == name {
        t[0].1
    } else {
        item_for(t.drop_first(), name)
    }
}

/// `item_for` picks exactly the first matching entry.
proof fn lemma_item_for_first(t: Seq<(String, Tensor)>, name: Seq<char>, j: int)
    requires
        0 <= j < t.len(),
        t[j].0@ == name,
        forall|q: int| 0 <= q < j ==> (#[trigger] t[q]).0@ != name,
    ensures
        item_for(t, name) == t[j].1,
    decreases j,
{
    if j > 0 {
        assert(t[0].0@ != name);
        assert(t.drop_first()[j - 1] == t[j]);
        assert(forall|q: int| 0 <= q < j - 1 ==> (#[trigger] t.drop_first()[q]).0@ != name);
        lemma_item_for_first(t.drop_first(), name, j - 1);
    }
}

/// Relies on rand::random_range over `0..bound`: the call draws a uniformly
/// distributed value from the range, and panics only on an empty range,
/// which the precondition rules out.  Nothing is assumed of the result
/// beyond membership in the range, which holds of every outcome.
#[verifier::external_body]
fn random_below(bound: usize) -> (r: usize)
    requires
        bound >= 1,
    ensures
        r < bound,
{
    rand::random_range(0..bound)
}

/// The index of the first entry of `t` whose name equals `name`.
fn find_entry(t: &Vec<(String, Tensor)>, name: &String) -> (r: Option<usize>)
    ensures
        match r {
            Some(j) => {
                &&& (j as int) < t@.len()
                &&& t@[j as int].0@ == name@
                &&& forall|q: int| 0 <= q < j ==> (#[trigger] t@[q]).0@ != name@
            },
            None => forall|q: int| 0 <= q < t@.len() ==> (#[trigger] t@[q]).0@ != name@,
        },
{
    let mut j: usize = 0;
    while j < t.len()
        invariant
            0 <= j <= t@.len(),
            forall|q: int| 0 <= q < j ==> (#[trigger] t@[q]).0@ != name@,
        decreases t@.len() - j,
    {
        if t[j].0 == *name {
            return Some(j);
        }
        j += 1;
    }
    None
}

/// The fixed-capacity, multi-field transition store.
pub struct ReplayBuffer {
    names: Vec<String>,
    stores: Vec<FieldStore>,
    cap: usize,
    cur: usize,
    count: usize,
}

impl ReplayBuffer {
    /// The shared slot capacity of every field store.
    pub closed spec fn capacity(self) -> nat {
        self.cap as nat
    }

    /// The next slot to overwrite.
    pub closed spec fn cursor(self) -> nat {
        self.cur as nat
    }

    /// The number of slots written so far, at most the capacity.
    pub closed spec fn size(self) -> nat {
        self.count as nat
    }

    /// The number of configured fields.
    pub closed spec fn num_fields(self) -> nat {
        self.names@.len()
    }

    /// The name of field `f`.
    pub closed spec fn field_name(self, f: int) -> Seq<char> {
        self.names@[f]@
    }

    /// The store of field `f`.
    pub closed spec fn field_store(self, f: int) -> FieldStore {
        self.stores@[f]
    }

    /// The buffer invariant: one well-formed store per field name, all of
    /// the buffer's capacity; unique field names; cursor inside, and count
    /// at most, the capacity.
    pub closed spec fn wf(self) -> bool {
        &&& self.stores@.len() == self.names@.len()
        &&& self.cap >= 1
        &&& self.cur < self.cap
        &&& self.count <= self.cap
        &&& forall|i: int| 0 <= i < self.stores@.len() ==> (#[trigger] self.stores@[i]).wf()
        &&& forall|i: int|
            0 <= i < self.stores@.len() ==> (#[trigger] self.stores@[i]).capacity()
                == self.cap as nat
        &&& forall|i: int, j: int|
            0 <= i < j < self.names@.len() ==> self.names@[i]@ != self.names@[j]@
    }

    /// A transition is accepted when every configured field is supplied an
    /// item of the field's element type and shape.
    pub open spec fn push_ok(self, t: Seq<(String, Tensor)>) -> bool {
        forall|f: int|
            0 <= f < self.num_fields() ==> supplies(t, #[trigger] self.field_name(f))
                && self.field_store(f).accepts(item_for(t, self.field_name(f)))
    }

    /// `b` is the batch that gathering every field of this buffer at `idxs`
    /// yields: the same index list, the buffer's fields in order, and per
    /// field the rows at `idxs` — row `j` of every field belongs to slot
    /// `idxs[j]`.
    pub open spec fn batch_aligned(self, b: Batch, idxs: Seq<usize>) -> bool {
        &&& b.indices@ == idxs
        &&& b.fields@.len() == self.num_fields()
        &&& forall|f: int|
            0 <= f < self.num_fields() ==> (#[trigger] b.fields@[f]).0@ == self.field_name(f)
        &&& forall|f: int|
            0 <= f < self.num_fields() ==> {
                let t = (#[trigger] b.fields@[f]).1;
                &&& t.wf()
                &&& t.dtype() == self.field_store(f).dtype()
                &&& t.shape() == seq![idxs.len() as usize].add(self.field_store(f).field_shape())
                &&& t.data() == gathered(self.field_store(f).rows(), idxs)
            }
    }

    /// What the buffer invariant guarantees, for callers: the capacity is
    /// at least one and shared by every field's store, which is itself
    /// well-formed — in particular each holds exactly `capacity` rows —
    /// and the cursor and the count stay inside it.
    pub proof fn lemma_wf_stores(self)
        requires
            self.wf(),
        ensures
            self.capacity() >= 1,
            self.cursor() < self.capacity(),
            self.size() <= self.capacity(),
            forall|f: int|
                0 <= f < self.num_fields() ==> (#[trigger] self.field_store(f)).wf()
                    && self.field_store(f).capacity() == self.capacity(),
    {
    }

    /// A batch is determined by its index sequence: any two batches aligned
    /// to the same indices carry the same field names, shapes and rows.  In
    /// particular, explicitly gathering every field again at a sampled
    /// batch's `indices` reproduces that batch's data exactly.
    pub proof fn lemma_batch_determined(self, b1: Batch, b2: Batch, idxs: Seq<usize>)
        requires
            self.batch_aligned(b1, idxs),
            self.batch_aligned(b2, idxs),
        ensures
            b1.indices@ == b2.indices@,
            b1.fields@.len() == b2.fields@.len(),
            forall|f: int|
                0 <= f < b1.fields@.len() ==> (#[trigger] b1.fields@[f]).0@ == b2.fields@[f].0@
                    && b1.fields@[f].1.shape() == b2.fields@[f].1.shape()
                    && b1.fields@[f].1.data() == b2.fields@[f].1.data(),
    {
    }

    /// Builds a buffer of the given capacity with one zero-filled store per
    /// field specification.
    pub fn new(capacity: usize, field_specs: &Vec<FieldSpec>) -> (b: ReplayBuffer)
        requires
            capacity >= 1,
            forall|i: int|
                0 <= i < field_specs@.len() ==> shape_size(
                    (#[trigger] field_specs@[i]).shape@,
                ) <= usize::MAX,
            forall|i: int, j: int|
                0 <= i < field_specs@.len() && 0 <= j < field_specs@[i].shape@.len() ==> (
                #[trigger] field_specs@[i].shape@[j]) >= 1,
            forall|i: int, j: int|
                0 <= i < j < field_specs@.len() ==> field_specs@[i].name@ != field_specs@[j].name@,
        ensures
            b.wf(),
            b.capacity() == capacity,
            b.size() == 0,
            b.cursor() == 0,
            b.num_fields() == field_specs@.len(),
            forall|f: int|
                0 <= f < field_specs@.len() ==> b.field_name(f) == (
                #[trigger] field_specs@[f]).name@,
            forall|f: int|
                0 <= f < field_specs@.len() ==> (#[trigger] b.field_store(f)).dtype()
                    == field_specs@[f].dtype && b.field_store(f).field_shape()
                    == field_specs@[f].shape@,
            forall|f: int, i: int, x: int|
                0 <= f < field_specs@.len() && 0 <= i < capacity && 0 <= x < shape_size(
                    field_specs@[f].shape@,
                ) ==> (#[trigger] b.field_store(f).rows()[i][x]) == field_specs@[f].dtype.spec_zero(),
    {
        let mut names: Vec<String> = Vec::new();
        let mut stores: Vec<FieldStore> = Vec::new();
        let mut f: usize = 0;
        while f < field_specs.len()
            invariant
                0 <= f <= field_specs@.len(),
                names@.len() == f,
                stores@.len() == f,
                capacity >= 1,
                forall|i: int|
                    0 <= i < field_specs@.len() ==> shape_size(
                        (#[trigger] field_specs@[i]).shape@,
                    ) <= usize::MAX,
                forall|i: int, j: int|
                    0 <= i < field_specs@.len() && 0 <= j < field_specs@[i].shape@.len() ==> (
                    #[trigger] field_specs@[i].shape@[j]) >= 1,
                forall|p: int| 0 <= p < f ==> (#[trigger] names@[p])@ == field_specs@[p].name@,
                forall|p: int|
                    0 <= p < f ==> {
                        let s = #[trigger] stores@[p];
                        &&& s.wf()
                        &&& s.capacity() == capacity
                        &&& s.dtype() == field_specs@[p].dtype
                        &&& s.field_shape() == field_specs@[p].shape@
                    },
                forall|p: int, i: int, x: int|
                    0 <= p < f && 0 <= i < capacity && 0 <= x < shape_size(
                        field_specs@[p].shape@,
                    ) ==> (#[trigger] stores@[p].rows()[i][x]) == field_specs@[p].dtype.spec_zero(),
            decreases field_specs@.len() - f,
        {
            let spec_f = &field_specs[f];
            let mut shape: Vec<usize> = Vec::new();
            let mut k: usize = 0;
            while k < spec_f.shape.len()
                invariant
                    0 <= k <= spec_f.shape@.len(),
                    shape@ == spec_f.shape@.take(k as int),
                decreases spec_f.shape@.len() - k,
            {
                shape.push(spec_f.shape[k]);
                k += 1;
            }
            proof {
                assert(shape@ =~= spec_f.shape@);
            }
            let store = FieldStore::new(spec_f.dtype, shape, capacity);
            names.push(spec_f.name.clone());
            stores.push(store);
            f += 1;
        }
        ReplayBuffer { names, stores, cap: capacity, cur: 0, count: 0 }
    }

    /// The number of valid (ever-written) slots.
    pub fn len(&self) -> (n: usize)
        ensures
            n == self.size(),
    {
        self.count
    }

    /// Whether every slot has been written at least once.
    pub fn is_full(&self) -> (b: bool)
        requires
            self.wf(),
        ensures
            b == (self.size() == self.capacity()),
    {
        self.count == self.cap
    }

    /// The slot the next push will overwrite.
    pub fn cursor_val(&self) -> (c: usize)
        ensures
            c == self.cursor(),
    {
        self.cur
    }

    /// The shared slot capacity, as a value.
    pub fn capacity_val(&self) -> (c: usize)
        ensures
            c == self.capacity(),
    {
        self.cap
    }

    /// Appends one transition: writes each supplied item into its field's
    /// store at the cursor slot, then advances the cursor modulo the
    /// capacity and, while the buffer is still filling, the count.
    ///
    /// All field items are validated before any store is touched: a failed
    /// push reports the first violated contract and changes nothing.
    pub fn push(&mut self, transition: &Vec<(String, Tensor)>) -> (r: Result<(), ReplayError>)
        requires
            old(self).wf(),
            forall|j: int| 0 <= j < transition@.len() ==> (#[trigger] transition@[j]).1.wf(),
        ensures
            final(self).wf(),
            final(self).capacity() == old(self).capacity(),
            final(self).num_fields() == old(self).num_fields(),
            forall|f: int|
                0 <= f < old(self).num_fields() ==> final(self).field_name(f) == old(
                    self,
                ).field_name(f),
            forall|f: int|
                0 <= f < old(self).num_fields() ==> (#[trigger] final(self).field_store(f)).dtype()
                    == old(self).field_store(f).dtype() && final(self).field_store(f).field_shape()
                    == old(self).field_store(f).field_shape(),
            r == Ok::<(), ReplayError>(()) <==> old(self).push_ok(transition@),
            r == Err::<(), ReplayError>(ReplayError::MissingField) <==> exists|f: int|
                0 <= f < old(self).num_fields() && !supplies(
                    transition@,
                    #[trigger] old(self).field_name(f),
                ),
            r is Err ==> {
                &&& *final(self) == *old(self)
                &&& (r == Err::<(), ReplayError>(ReplayError::MissingField) || r == Err::<(),
                    ReplayError,
                >(ReplayError::ShapeMismatch))
            },
            r is Ok ==> {
                &&& final(self).cursor() == (old(self).cursor() + 1) % old(self).capacity()
                &&& final(self).size() == (if old(self).size() < old(self).capacity() {
                    old(self).size() + 1
                } else {
                    old(self).size()
                })
                &&& forall|f: int|
                    0 <= f < old(self).num_fields() ==> (#[trigger] final(self).field_store(
                        f,
                    )).rows() == old(self).field_store(f).rows().update(
                        old(self).cursor() as int,
                        item_for(transition@, old(self).field_name(f)).data(),
                    )
            },
    {
        let ghost pre = *old(self);
        let mut pos: Vec<usize> = Vec::new();
        let mut f: usize = 0;
        while f < self.names.len()
            invariant
                *self == pre,
                pre.wf(),
                0 <= f <= self.names@.len(),
                pos@.len() == f,
                forall|j: int| 0 <= j < transition@.len() ==> (#[trigger] transition@[j]).1.wf(),
                forall|p: int|
                    0 <= p < f ==> {
                        let j = #[trigger] pos@[p] as int;
                        &&& 0 <= j < transition@.len()
                        &&& transition@[j].0@ == pre.field_name(p)
                        &&& (forall|q: int|
                            0 <= q < j ==> (#[trigger] transition@[q]).0@ != pre.field_name(p))
                        &&& pre.field_store(p).accepts(transition@[j].1)
                    },
            decreases self.names@.len() - f,
        {
            match find_entry(transition, &self.names[f]) {
                None => {
                    proof {
                        assert(!supplies(transition@, pre.field_name(f as int)));
                    }
                    return Err(ReplayError::MissingField);
                },
                Some(j) => {
                    let item = &transition[j].1;
                    if !self.stores[f].accepts_item(item) {
                        proof {
                            lemma_item_for_first(transition@, pre.field_name(f as int), j as int);
                            assert(supplies(transition@, pre.field_name(f as int)));
                            assert(!pre.push_ok(transition@));
                        }
                        if find_missing(self, transition) {
                            return Err(ReplayError::MissingField);
                        }
                        return Err(ReplayError::ShapeMismatch);
                    }
                    pos.push(j);
                },
            }
            f += 1;
        }
        // every field is supplied and every item accepted
        proof {
            assert forall|f2: int| 0 <= f2 < pre.num_fields() implies supplies(
                transition@,
                #[trigger] pre.field_name(f2),
            ) && pre.field_store(f2).accepts(item_for(transition@, pre.field_name(f2))) by {
                let j = pos@[f2] as int;
                lemma_item_for_first(transition@, pre.field_name(f2), j);
            }
            assert(pre.push_ok(transition@));
        }
        let mut f2: usize = 0;
        while f2 < self.stores.len()
            invariant
                pre.wf(),
                pre.push_ok(transition@),
                self.names@ == pre.names@,
                self.cap == pre.cap,
                self.cur == pre.cur,
                self.count == pre.count,
                self.stores@.len() == pre.stores@.len(),
                0 <= f2 <= self.stores@.len(),
                pos@.len() == pre.names@.len(),
                forall|j: int| 0 <= j < transition@.len() ==> (#[trigger] transition@[j]).1.wf(),
                forall|p: int|
                    0 <= p < pos@.len() ==> {
                        let j = #[trigger] pos@[p] as int;
                        &&& 0 <= j < transition@.len()
                        &&& transition@[j].0@ == pre.field_name(p)
                        &&& (forall|q: int|
                            0 <= q < j ==> (#[trigger] transition@[q]).0@ != pre.field_name(p))
                        &&& pre.field_store(p).accepts(transition@[j].1)
                    },
                forall|p: int|
                    0 <= p < f2 ==> {
                        let s = #[trigger] self.stores@[p];
                        &&& s.wf()
                        &&& s.capacity() == pre.field_store(p).capacity()
                        &&& s.dtype() == pre.field_store(p).dtype()
                        &&& s.field_shape() == pre.field_store(p).field_shape()
                        &&& s.rows() == pre.field_store(p).rows().update(
                            pre.cur as int,
                            transition@[pos@[p] as int].1.data(),
                        )
                    },
                forall|p: int|
                    f2 <= p < self.stores@.len() ==> (#[trigger] self.stores@[p]) == pre.stores@[p],
            decreases self.stores@.len() - f2,
        {
            let cur = self.cur;
            let idx = pos[f2];
            let item = &transition[idx].1;
            let st = &mut self.stores[f2];
            let res = st.write(cur, item);
            match res {
                Ok(()) => {},
                Err(_) => {
                    proof {
                        assert(false);
                    }
                },
            }
            f2 += 1;
        }
        self.cur = (self.cur + 1) % self.cap;
        if self.count < self.cap {
            self.count = self.count + 1;
        }
        proof {
            assert forall|f3: int| 0 <= f3 < pre.num_fields() implies (#[trigger] self.field_store(
                f3,
            )).rows() == pre.field_store(f3).rows().update(
                pre.cursor() as int,
                item_for(transition@, pre.field_name(f3)).data(),
            ) by {
                let j = pos@[f3] as int;
                lemma_item_for_first(transition@, pre.field_name(f3), j);
            }
        }
        Ok(())
    }

    /// Gathers every field at the given slot indices, producing an
    /// index-aligned batch.  Every index must name a slot that has been
    /// written (`index < len()`); otherwise nothing is gathered and an
    /// error is reported.
    pub fn sample_at(&self, indices: &Vec<usize>) -> (r: Result<Batch, ReplayError>)
        requires
            self.wf(),
        ensures
            r is Ok <==> forall|j: int|
                0 <= j < indices@.len() ==> ((#[trigger] indices@[j]) as int) < self.size(),
            r matches Ok(b) ==> self.batch_aligned(b, indices@),
            r matches Err(e) ==> e == ReplayError::IndexOutOfRange && exists|j: int|
                0 <= j < indices@.len() && ((#[trigger] indices@[j]) as int) >= self.size(),
    {
        let mut v: usize = 0;
        while v < indices.len()
            invariant
                0 <= v <= indices@.len(),
                forall|j: int| 0 <= j < v ==> ((#[trigger] indices@[j]) as int) < self.size(),
            decreases indices@.len() - v,
        {
            if indices[v] >= self.count {
                return Err(ReplayError::IndexOutOfRange);
            }
            v += 1;
        }
        let mut own_indices: Vec<usize> = Vec::new();
        let mut w: usize = 0;
        while w < indices.len()
            invariant
                0 <= w <= indices@.len(),
                own_indices@ == indices@.take(w as int),
            decreases indices@.len() - w,
        {
            own_indices.push(indices[w]);
            w += 1;
        }
        proof {
            assert(own_indices@ =~= indices@);
        }
        let mut fields: Vec<(String, Tensor)> = Vec::new();
        let mut f: usize = 0;
        while f < self.stores.len()
            invariant
                self.wf(),
                0 <= f <= self.stores@.len(),
                fields@.len() == f,
                forall|j: int| 0 <= j < indices@.len() ==> ((#[trigger] indices@[j]) as int)
                    < self.size(),
                forall|p: int|
                    0 <= p < f ==> (#[trigger] fields@[p]).0@ == self.field_name(p),
                forall|p: int|
                    0 <= p < f ==> {
                        let t = (#[trigger] fields@[p]).1;
                        &&& t.wf()
                        &&& t.dtype() == self.field_store(p).dtype()
                        &&& t.shape() == seq![indices@.len() as usize].add(
                            self.field_store(p).field_shape(),
                        )
                        &&& t.data() == gathered(self.field_store(p).rows(), indices@)
                    },
            decreases self.stores@.len() - f,
        {
            let res = self.stores[f].gather(indices);
            match res {
                Ok(t) => {
                    fields.push((self.names[f].clone(), t));
                },
                Err(_) => {
                    proof {
                        assert(false);
                    }
                },
            }
            f += 1;
        }
        Ok(Batch { indices: own_indices, fields })
    }

    /// Draws `batch_size` independent, uniformly random slot indices from
    /// the valid range `[0, len())`, with replacement, and gathers every
    /// field at that one index sequence.  Sampling an empty buffer fails
    /// with `EmptyBuffer`; a sampled index is never out of the written
    /// range.
    pub fn sample(&self, batch_size: usize) -> (r: Result<Batch, ReplayError>)
        requires
            self.wf(),
            batch_size >= 1,
        ensures
            r is Ok <==> self.size() >= 1,
            r matches Ok(b) ==> {
                &&& b.indices@.len() == batch_size
                &&& forall|j: int|
                    0 <= j < b.indices@.len() ==> ((#[trigger] b.indices@[j]) as int) < self.size()
                &&& self.batch_aligned(b, b.indices@)
            },
            r matches Err(e) ==> e == ReplayError::EmptyBuffer && self.size() == 0,
    {
        if self.count == 0 {
            return Err(ReplayError::EmptyBuffer);
        }
        let mut indices: Vec<usize> = Vec::new();
        let mut d: usize = 0;
        while d < batch_size
            invariant
                0 <= d <= batch_size,
                indices@.len() == d,
                self.count as int == self.size(),
                self.count >= 1,
                forall|j: int| 0 <= j < d ==> ((#[trigger] indices@[j]) as int) < self.size(),
            decreases batch_size - d,
        {
            let idx = random_below(self.count);
            indices.push(idx);
            d += 1;
        }
        match self.sample_at(&indices) {
            Ok(b) => Ok(b),
            Err(_) => {
                proof {
                    assert(false);
                }
                Err(ReplayError::EmptyBuffer)
            },
        }
    }
}

/// Whether some configured field of `b` is missing from `t`.
fn find_missing(b: &ReplayBuffer, t: &Vec<(String, Tensor)>) -> (r: bool)
    ensures
        r == exists|f: int|
            0 <= f < b.num_fields() && !supplies(t@, #[trigger] b.field_name(f)),
{
    let mut f: usize = 0;
    while f < b.names.len()
        invariant
            0 <= f <= b.names@.len(),
            forall|p: int| 0 <= p < f ==> supplies(t@, #[trigger] b.field_name(p)),
        decreases b.names@.len() - f,
    {
        match find_entry(t, &b.names[f]) {
            None => {
                proof {
                    assert(!supplies(t@, b.field_name(f as int)));
                }
                return true;
            },
            Some(_) => {},
        }
        f += 1;
    }
    false
}

/// The count of valid slots after `n` pushes into an initially empty buffer
/// of capacity `c`: the count climbs to the capacity and stays there.
pub open spec fn size_after(n: nat, c: nat) -> nat {
    if n <= c {
        n
    } else {
        c
    }
}

/// The cursor position after `n` pushes into an initially empty buffer of
/// capacity `c`: the pushes walk the slots in a ring.
pub open spec fn cursor_after(n: nat, c: nat) -> nat {
    n % c
}

/// For every sequence of `n` successful pushes into a buffer of capacity
/// `c`, the count is `min(n, c)` and the cursor is `n % c`: one more push
/// steps those closed forms exactly as the `push` contract steps the
/// buffer's counters — incrementing the count while it is below the
/// capacity, and advancing the cursor by one modulo the capacity.
pub proof fn lemma_counters_after_push(n: nat, c: nat)
    requires
        c >= 1,
    ensures
        size_after(n + 1, c) == (if size_after(n, c) < c {
            size_after(n, c) + 1
        } else {
            size_after(n, c)
        }),
        cursor_after(n + 1, c) == (cursor_after(n, c) + 1) % c,
{
    vstd::arithmetic::div_mod::lemma_add_mod_noop(n as int, 1, c as int);
    if c == 1 {
        vstd::arithmetic::div_mod::lemma_mod_self_0(1);
        assert((n as int) % 1 == 0) by (nonlinear_arith);
        assert((n as int + 1) % 1 == 0) by (nonlinear_arith);
    } else {
        vstd::arithmetic::div_mod::lemma_small_mod(1, c);
    }
}

/// Ring overwrite: after exactly `c` pushes into an initially empty buffer
/// of capacity `c` the cursor is back at slot 0, so the `c + 1`-th pushed
/// transition overwrites slot 0 — the slot the first push wrote.
pub proof fn lemma_cursor_wraps(c: nat)
    requires
        c >= 1,
    ensures
        cursor_after(c, c) == 0,
{
    vstd::arithmetic::div_mod::lemma_mod_self_0(c as int);
}

} // verus!
