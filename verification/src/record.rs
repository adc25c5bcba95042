//! Training-metrics records and the recorders that consume them.
//!
//! A [`Record`] maps metric names to values obtained during training or
//! evaluation.  Verus does not reason about floating-point values or
//! wall-clock dates, so a 32-bit float scalar is carried as its IEEE-754 bit
//! pattern and a datetime as a signed timestamp; code at the process edge
//! converts.

use vstd::prelude::*;

verus! {

/// A value stored under one key of a record.
#[derive(Clone, Debug, PartialEq)]
pub enum RecordValue {
    /// A 32-bit float scalar, carried as its IEEE-754 bit pattern.
    Scalar(u32),
    /// A point in time, as microseconds since the Unix epoch.
    DateTime(i64),
    /// A one-dimensional array of 32-bit floats, carried as bit patterns.
    Array1(Vec<u32>),
}

/// The ways a record query can fail.
#[derive(Clone, Debug, PartialEq)]
pub enum RecordError {
    /// The requested key is not present; carries the key.
    RecordKeyError(String),
    /// The value under the key is of another kind; carries the kind asked
    /// for.
    RecordValueTypeError(String),
}

/// The first value stored under `key`, scanning `entries` front to back.
pub open spec fn lookup(entries: Seq<(String, RecordValue)>, key: Seq<char>) -> Option<RecordValue>
    decreases entries.len(),
{
    if entries.len() == 0 {
        None
    } else if entries[0].0@ == key {
        Some(entries[0].1)
    } else {
        lookup(entries.drop_first(), key)
    }
}

/// The value under the last entry of `s` carrying `key`, if any: the value
/// that survives when the entries are inserted in order.
pub open spec fn lookup_last(s: Seq<(String, RecordValue)>, key: Seq<char>) -> Option<RecordValue>
    decreases s.len(),
{
    if s.len() == 0 {
        None
    } else if s.last().0@ == key {
        Some(s.last().1)
    } else {
        lookup_last(s.drop_last(), key)
    }
}

/// Appending an entry at the back only fills a key that was absent.
proof fn lemma_lookup_push(
    entries: Seq<(String, RecordValue)>,
    e: (String, RecordValue),
    key: Seq<char>,
)
    ensures
        lookup(entries.push(e), key) == (match lookup(entries, key) {
            Some(v) => Some(v),
            None => if e.0@ == key {
                Some(e.1)
            } else {
                None::<RecordValue>
            },
        }),
    decreases entries.len(),
{
    if entries.len() == 0 {
        assert(entries.push(e)[0] == e);
        assert(entries.push(e).drop_first() =~= entries);
    } else {
        assert(entries.push(e)[0] == entries[0]);
        assert(entries.push(e).drop_first() =~= entries.drop_first().push(e));
        lemma_lookup_push(entries.drop_first(), e, key);
    }
}

/// Replacing the entry at `i` while keeping its key changes no other key's
/// lookup.
proof fn lemma_lookup_update_other(
    entries: Seq<(String, RecordValue)>,
    i: int,
    e: (String, RecordValue),
    key: Seq<char>,
)
    requires
        0 <= i < entries.len(),
        entries[i].0@ == e.0@,
        e.0@ != key,
    ensures
        lookup(entries.update(i, e), key) == lookup(entries, key),
    decreases entries.len(),
{
    let u = entries.update(i, e);
    if i == 0 {
        assert(u[0] == e);
        assert(u.drop_first() =~= entries.drop_first());
    } else {
        assert(u[0] == entries[0]);
        assert(u.drop_first() =~= entries.drop_first().update(i - 1, e));
        if entries[0].0@ != key {
            lemma_lookup_update_other(entries.drop_first(), i - 1, e, key);
        }
    }
}

/// Replacing the first entry carrying `key` makes the lookup of `key`
/// yield the new value.
proof fn lemma_lookup_update_hit(
    entries: Seq<(String, RecordValue)>,
    i: int,
    e: (String, RecordValue),
)
    requires
        0 <= i < entries.len(),
        entries[i].0@ == e.0@,
        forall|q: int| 0 <= q < i ==> (#[trigger] entries[q]).0@ != e.0@,
    ensures
        lookup(entries.update(i, e), e.0@) == Some(e.1),
    decreases entries.len(),
{
    let u = entries.update(i, e);
    if i == 0 {
        assert(u[0] == e);
    } else {
        assert(u[0] == entries[0]);
        assert(entries[0].0@ != e.0@);
        assert(u.drop_first() =~= entries.drop_first().update(i - 1, e));
        assert(forall|q: int| 0 <= q < i - 1 ==> (#[trigger] entries.drop_first()[q]).0@ != e.0@);
        lemma_lookup_update_hit(entries.drop_first(), i - 1, e);
    }
}

/// A scan that matched at `i` and saw no earlier match names the looked-up
/// value.
proof fn lemma_lookup_found(s: Seq<(String, RecordValue)>, i: int, key: Seq<char>)
    requires
        0 <= i < s.len(),
        s[i].0@ == key,
        forall|q: int| 0 <= q < i ==> (#[trigger] s[q]).0@ != key,
    ensures
        lookup(s, key) == Some(s[i].1),
    decreases i,
{
    if i > 0 {
        assert(s.drop_first()[i - 1] == s[i]);
        assert(forall|q: int| 0 <= q < i - 1 ==> (#[trigger] s.drop_first()[q]).0@ != key);
        lemma_lookup_found(s.drop_first(), i - 1, key);
    }
}

/// A sequence none of whose entries carries `key` looks it up to nothing.
proof fn lemma_lookup_absent(s: Seq<(String, RecordValue)>, key: Seq<char>)
    requires
        forall|q: int| 0 <= q < s.len() ==> (#[trigger] s[q]).0@ != key,
    ensures
        lookup(s, key) is None,
    decreases s.len(),
{
    if s.len() > 0 {
        assert(forall|q: int| 0 <= q < s.len() - 1 ==> (#[trigger] s.drop_first()[q]).0@ != key);
        lemma_lookup_absent(s.drop_first(), key);
    }
}

/// The index of the first entry of `items` whose key equals `k`.
fn find_key(items: &Vec<(String, RecordValue)>, k: &String) -> (r: Option<usize>)
    ensures
        match r {
            Some(i) => {
                &&& (i as int) < items@.len()
                &&& items@[i as int].0@ == k@
                &&& forall|q: int| 0 <= q < i ==> (#[trigger] items@[q]).0@ != k@
            },
            None => forall|q: int| 0 <= q < items@.len() ==> (#[trigger] items@[q]).0@ != k@,
        },
{
    let mut i: usize = 0;
    while i < items.len()
        invariant
            0 <= i <= items@.len(),
            forall|q: int| 0 <= q < i ==> (#[trigger] items@[q]).0@ != k@,
        decreases items@.len() - i,
    {
        if items[i].0 == *k {
            return Some(i);
        }
        i += 1;
    }
    None
}

/// A mapping from metric names to values; keys are unique.
#[derive(Clone, Debug, PartialEq)]
pub struct Record {
    items: Vec<(String, RecordValue)>,
}

impl Record {
    /// The entries of the record, in insertion order.
    pub closed spec fn entries(self) -> Seq<(String, RecordValue)> {
        self.items@
    }

    /// The value stored under `key`, if any.
    pub open spec fn get_spec(self, key: Seq<char>) -> Option<RecordValue> {
        lookup(self.entries(), key)
    }

    /// Every key occurs at most once.
    pub open spec fn wf(self) -> bool {
        forall|a: int, b: int|
            0 <= a < b < self.entries().len() ==> self.entries()[a].0@ != self.entries()[b].0@
    }

    /// Constructs an empty record.
    pub fn empty() -> (r: Record)
        ensures
            r.wf(),
            r.entries() == Seq::<(String, RecordValue)>::empty(),
            forall|k: Seq<char>| #[trigger] r.get_spec(k) is None,
    {
        Record { items: Vec::new() }
    }

    /// Creates a record from a sequence of key-value pairs, a later pair
    /// overriding an earlier one of the same key.
    pub fn from_slice(s: Vec<(String, RecordValue)>) -> (r: Record)
        ensures
            r.wf(),
            forall|k: Seq<char>| #[trigger] r.get_spec(k) == lookup_last(s@, k),
    {
        let ghost orig = s@;
        let mut rest = s;
        let mut r = Record::empty();
        let ghost mut i: int = 0;
        while rest.len() > 0
            invariant
                r.wf(),
                0 <= i <= orig.len(),
                rest@ == orig.skip(i),
                forall|k: Seq<char>| #[trigger] r.get_spec(k) == lookup_last(orig.take(i), k),
            decreases rest@.len(),
        {
            let ghost prev = r;
            let pair = rest.remove(0);
            proof {
                assert(pair == orig[i]);
                assert(rest@ =~= orig.skip(i + 1));
            }
            r.insert(pair.0, pair.1);
            proof {
                assert(orig.take(i + 1).drop_last() =~= orig.take(i));
                assert(orig.take(i + 1).last() == orig[i]);
                assert forall|k: Seq<char>| #[trigger] r.get_spec(k) == lookup_last(
                    orig.take(i + 1),
                    k,
                ) by {
                    if k != orig[i].0@ {
                        assert(r.get_spec(k) == prev.get_spec(k));
                    }
                }
                i = i + 1;
            }
        }
        proof {
            assert(orig.take(orig.len() as int) =~= orig);
            assert(i == orig.len());
        }
        r
    }

    /// Inserts a key-value pair, overwriting any value stored under the
    /// same key.
    pub fn insert(&mut self, k: String, v: RecordValue)
        requires
            old(self).wf(),
        ensures
            final(self).wf(),
            final(self).get_spec(k@) == Some(v),
            forall|k2: Seq<char>|
                k2 != k@ ==> #[trigger] final(self).get_spec(k2) == old(self).get_spec(k2),
    {
        let ghost v0 = v;
        match find_key(&self.items, &k) {
            Some(i) => {
                let ghost pre_items = self.items@;
                let ghost e = (k, v);
                let slot = &mut self.items[i];
                *slot = (k, v);
                proof {
                    assert(self.items@ == pre_items.update(i as int, e));
                    lemma_lookup_update_hit(pre_items, i as int, e);
                    assert forall|k2: Seq<char>| k2 != k@ implies #[trigger] self.get_spec(k2)
                        == old(self).get_spec(k2) by {
                        lemma_lookup_update_other(pre_items, i as int, e, k2);
                    }
                    assert forall|a: int, b: int|
                        0 <= a < b < self.items@.len() implies self.items@[a].0@
                        != self.items@[b].0@ by {
                        assert(pre_items[a].0@ != pre_items[b].0@);
                    }
                }
            },
            None => {
                let ghost pre_items = self.items@;
                let ghost e = (k, v);
                self.items.push((k, v));
                proof {
                    lemma_lookup_absent(pre_items, e.0@);
                    assert forall|k2: Seq<char>| true implies #[trigger] lookup(self.items@, k2)
                        == (match lookup(pre_items, k2) {
                        Some(v2) => Some(v2),
                        None => if e.0@ == k2 {
                            Some(e.1)
                        } else {
                            None::<RecordValue>
                        },
                    }) by {
                        lemma_lookup_push(pre_items, e, k2);
                    }
                    assert forall|a: int, b: int|
                        0 <= a < b < self.items@.len() implies self.items@[a].0@
                        != self.items@[b].0@ by {
                        if b < pre_items.len() {
                            assert(pre_items[a].0@ != pre_items[b].0@);
                        } else {
                            assert(self.items@[b] == e);
                            assert(pre_items[a].0@ != e.0@);
                        }
                    }
                }
            },
        }
    }

    /// The value stored under `k`, if any.
    pub fn get(&self, k: &str) -> (r: Option<&RecordValue>)
        ensures
            match r {
                Some(v) => self.get_spec(k@) == Some(*v),
                None => self.get_spec(k@) is None,
            },
    {
        let k_string = String::from_str(k);
        let mut i: usize = 0;
        while i < self.items.len()
            invariant
                0 <= i <= self.items@.len(),
                k_string@ == k@,
                forall|q: int| 0 <= q < i ==> (#[trigger] self.items@[q]).0@ != k@,
            decreases self.items@.len() - i,
        {
            if self.items[i].0 == k_string {
                proof {
                    lemma_lookup_found(self.items@, i as int, k@);
                }
                return Some(&self.items[i].1);
            }
            i += 1;
        }
        proof {
            lemma_lookup_absent(self.items@, k@);
        }
        None
    }

    /// The float-bit scalar stored under `k`: the key must be present and
    /// its value must be a scalar, and each failure names what was missing.
    pub fn get_scalar(&self, k: &str) -> (r: Result<u32, RecordError>)
        ensures
            match self.get_spec(k@) {
                Some(RecordValue::Scalar(b)) => r == Ok::<u32, RecordError>(b),
                Some(v) => !(v is Scalar) && (r matches Err(
                    RecordError::RecordValueTypeError(s),
                ) && s@ == "Scalar"@),
                None => r matches Err(RecordError::RecordKeyError(s)) && s@ == k@,
            },
    {
        match self.get(k) {
            Some(v) => match v {
                RecordValue::Scalar(b) => Ok(*b),
                _ => Err(RecordError::RecordValueTypeError(String::from_str("Scalar"))),
            },
            None => Err(RecordError::RecordKeyError(String::from_str(k))),
        }
    }

    /// The keys of the record, in insertion order.
    pub fn keys(&self) -> (r: Vec<String>)
        ensures
            r@.len() == self.entries().len(),
            forall|i: int| 0 <= i < r@.len() ==> (#[trigger] r@[i])@ == self.entries()[i].0@,
    {
        let mut r: Vec<String> = Vec::new();
        let mut i: usize = 0;
        while i < self.items.len()
            invariant
                0 <= i <= self.items@.len(),
                r@.len() == i,
                forall|q: int| 0 <= q < i ==> (#[trigger] r@[q])@ == self.items@[q].0@,
            decreases self.items@.len() - i,
        {
            r.push(self.items[i].0.clone());
            i += 1;
        }
        r
    }

    /// The entries of the record, as a vector, oldest first.
    pub fn entries_vec(&self) -> (r: &Vec<(String, RecordValue)>)
        ensures
            r@ == self.entries(),
    {
        &self.items
    }

    /// The scalar entries of the record, in order, leaving out the one
    /// under `skip`: what a scalar-only metrics sink emits from a record,
    /// with the step entry named by `skip` handled separately.
    pub fn scalar_entries(&self, skip: &str) -> (r: Vec<(String, u32)>)
        ensures
            r@.len() == scalars_of(self.entries(), skip@).len(),
            forall|i: int|
                0 <= i < r@.len() ==> ((#[trigger] r@[i]).0@, r@[i].1) == scalars_of(
                    self.entries(),
                    skip@,
                )[i],
    {
        let skip_string = String::from_str(skip);
        let mut r: Vec<(String, u32)> = Vec::new();
        let mut i: usize = 0;
        while i < self.items.len()
            invariant
                0 <= i <= self.items@.len(),
                skip_string@ == skip@,
                r@.len() == scalars_of(self.items@.take(i as int), skip@).len(),
                forall|q: int|
                    0 <= q < r@.len() ==> ((#[trigger] r@[q]).0@, r@[q].1) == scalars_of(
                        self.items@.take(i as int),
                        skip@,
                    )[q],
            decreases self.items@.len() - i,
        {
            proof {
                assert(self.items@.take(i as int + 1).drop_last() =~= self.items@.take(i as int));
                assert(self.items@.take(i as int + 1).last() == self.items@[i as int]);
            }
            let entry = &self.items[i];
            if !(entry.0 == skip_string) {
                match &entry.1 {
                    RecordValue::Scalar(b) => {
                        r.push((entry.0.clone(), *b));
                    },
                    _ => {},
                }
            }
            i += 1;
        }
        proof {
            assert(self.items@.take(self.items@.len() as int) =~= self.items@);
        }
        r
    }

    /// Merges two records; where both store a key, the value of `other`
    /// wins.
    pub fn merge(self, other: Record) -> (r: Record)
        requires
            self.wf(),
            other.wf(),
        ensures
            r.wf(),
            forall|k: Seq<char>| #[trigger] r.get_spec(k) == (match other.get_spec(k) {
                Some(v) => Some(v),
                None => self.get_spec(k),
            }),
    {
        let ghost base = self;
        let ghost oitems = other.items@;
        let mut r = self;
        let mut rest = other.items;
        let ghost mut i: int = 0;
        while rest.len() > 0
            invariant
                r.wf(),
                0 <= i <= oitems.len(),
                rest@ == oitems.skip(i),
                forall|a: int, b: int| 0 <= a < b < oitems.len() ==> oitems[a].0@ != oitems[b].0@,
                forall|k: Seq<char>| #[trigger] r.get_spec(k) == (match lookup(
                    oitems.take(i),
                    k,
                ) {
                    Some(v) => Some(v),
                    None => base.get_spec(k),
                }),
            decreases rest@.len(),
        {
            let ghost prev = r;
            let pair = rest.remove(0);
            proof {
                assert(pair == oitems[i]);
                assert(rest@ =~= oitems.skip(i + 1));
            }
            r.insert(pair.0, pair.1);
            proof {
                assert(oitems.take(i + 1) =~= oitems.take(i).push(oitems[i]));
                assert(forall|q: int|
                    0 <= q < i ==> (#[trigger] oitems.take(i)[q]).0@ != oitems[i].0@);
                lemma_lookup_absent(oitems.take(i), oitems[i].0@);
                assert forall|k: Seq<char>| #[trigger] r.get_spec(k) == (match lookup(
                    oitems.take(i + 1),
                    k,
                ) {
                    Some(v) => Some(v),
                    None => base.get_spec(k),
                }) by {
                    lemma_lookup_push(oitems.take(i), oitems[i], k);
                    if k != oitems[i].0@ {
                        assert(r.get_spec(k) == prev.get_spec(k));
                    }
                }
                i = i + 1;
            }
        }
        proof {
            assert(oitems.take(oitems.len() as int) =~= oitems);
            assert(i == oitems.len());
        }
        r
    }
}

/// The keys and bit patterns of the scalar entries of `entries`, in order,
/// leaving out any entry whose key is `skip`.
pub open spec fn scalars_of(entries: Seq<(String, RecordValue)>, skip: Seq<char>) -> Seq<
    (Seq<char>, u32),
>
    decreases entries.len(),
{
    if entries.len() == 0 {
        Seq::empty()
    } else {
        let rest = scalars_of(entries.drop_last(), skip);
        if entries.last().0@ != skip && entries.last().1 is Scalar {
            rest.push((entries.last().0@, entries.last().1->Scalar_0))
        } else {
            rest
        }
    }
}

/// A recorder that discards every record; useful while debugging a
/// training loop.
pub struct NullRecorder {}

impl NullRecorder {
    /// Discards the given record.
    pub fn write(&mut self, record: Record) {
        let _ = record;
    }
}

/// A recorder that keeps every record it is given, in order; used to
/// collect observation and action sequences over an evaluation run.
pub struct BufferedRecorder {
    records: Vec<Record>,
}

impl BufferedRecorder {
    /// The records written so far, oldest first.
    pub closed spec fn records_seq(self) -> Seq<Record> {
        self.records@
    }

    /// Constructs an empty recorder.
    pub fn new() -> (r: BufferedRecorder)
        ensures
            r.records_seq() == Seq::<Record>::empty(),
    {
        BufferedRecorder { records: Vec::new() }
    }

    /// Appends a record to the buffer.
    pub fn write(&mut self, record: Record)
        ensures
            final(self).records_seq() == old(self).records_seq().push(record),
    {
        self.records.push(record);
    }

    /// The records written so far, oldest first.
    pub fn records(&self) -> (r: &Vec<Record>)
        ensures
            r@ == self.records_seq(),
    {
        &self.records
    }
}

} // verus!
