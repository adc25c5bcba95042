use replay_store::buffer::{FieldSpec, ReplayBuffer};
use replay_store::elem::{Dtype, Elem};
use replay_store::errors::ReplayError;
use replay_store::store::FieldStore;
use replay_store::tensor::Tensor;

fn f32_scalar(x: f32) -> Tensor {
    Tensor::from_data(Dtype::Float32, &vec![], vec![Elem::Float32Bits(x.to_bits())]).unwrap()
}

fn i32_scalar(x: i32) -> Tensor {
    Tensor::from_data(Dtype::Int32, &vec![], vec![Elem::Int32(x)]).unwrap()
}

fn i32_vector(xs: &[i32]) -> Tensor {
    let data: Vec<Elem> = xs.iter().map(|x| Elem::Int32(*x)).collect();
    Tensor::from_data(Dtype::Int32, &vec![xs.len()], data).unwrap()
}

fn single_field_push(buf: &mut ReplayBuffer, name: &str, t: Tensor) -> Result<(), ReplayError> {
    buf.push(&vec![(name.to_string(), t)])
}

#[test]
fn zeros_are_zero_filled() {
    let t = Tensor::zeros(Dtype::Int64, &vec![2, 3]);
    assert_eq!(t.shape_vec(), &vec![2, 3]);
    assert_eq!(t.data_vec().len(), 6);
    for e in t.data_vec() {
        assert_eq!(*e, Elem::Int64(0));
    }
    let scalar = Tensor::zeros(Dtype::Float32, &vec![]);
    assert_eq!(scalar.data_vec(), &vec![Elem::Float32Bits(0.0f32.to_bits())]);
}

#[test]
fn from_data_checks_shape_and_dtype() {
    assert!(Tensor::from_data(Dtype::Int32, &vec![2], vec![Elem::Int32(1)]).is_none());
    assert!(
        Tensor::from_data(Dtype::Int32, &vec![2], vec![Elem::Int32(1), Elem::Int64(2)]).is_none()
    );
    assert!(
        Tensor::from_data(Dtype::Int32, &vec![2], vec![Elem::Int32(1), Elem::Int32(2)]).is_some()
    );
    assert!(Tensor::from_data(Dtype::Uint8, &vec![usize::MAX, 2], vec![]).is_none());
}

#[test]
fn store_write_and_gather_roundtrip() {
    let mut store = FieldStore::new(Dtype::Int32, vec![2], 3);
    assert_eq!(store.capacity_val(), 3);
    let item = Tensor::from_data(Dtype::Int32, &vec![2], vec![Elem::Int32(7), Elem::Int32(8)])
        .unwrap();
    assert_eq!(store.write(1, &item), Ok(()));
    let gathered = store.gather(&vec![1]).unwrap();
    assert_eq!(gathered.shape_vec(), &vec![1, 2]);
    assert_eq!(gathered.data_vec(), &vec![Elem::Int32(7), Elem::Int32(8)]);
}

#[test]
fn store_last_write_wins() {
    let mut store = FieldStore::new(Dtype::Int32, vec![], 2);
    assert_eq!(store.write(0, &i32_scalar(5)), Ok(()));
    assert_eq!(store.write(0, &i32_scalar(9)), Ok(()));
    let gathered = store.gather(&vec![0]).unwrap();
    assert_eq!(gathered.data_vec(), &vec![Elem::Int32(9)]);
}

#[test]
fn store_rejects_bad_writes() {
    let mut store = FieldStore::new(Dtype::Int32, vec![2], 3);
    let item = i32_vector(&[1, 2]);
    assert_eq!(store.write(3, &item), Err(ReplayError::IndexOutOfRange));
    let wrong_shape = i32_vector(&[1, 2, 3]);
    assert_eq!(store.write(0, &wrong_shape), Err(ReplayError::ShapeMismatch));
    let wrong_dtype = Tensor::from_data(Dtype::Int64, &vec![2], vec![Elem::Int64(1), Elem::Int64(2)])
        .unwrap();
    assert_eq!(store.write(0, &wrong_dtype), Err(ReplayError::ShapeMismatch));
    assert_eq!(store.gather(&vec![0, 3]).err(), Some(ReplayError::IndexOutOfRange));
}

#[test]
fn store_accepts_leading_singleton_dimension() {
    let mut store = FieldStore::new(Dtype::Int32, vec![2], 3);
    let batched = Tensor::from_data(Dtype::Int32, &vec![1, 2], vec![Elem::Int32(4), Elem::Int32(5)])
        .unwrap();
    assert_eq!(store.write(2, &batched), Ok(()));
    let gathered = store.gather(&vec![2]).unwrap();
    assert_eq!(gathered.data_vec(), &vec![Elem::Int32(4), Elem::Int32(5)]);
}

#[test]
fn counters_follow_pushes() {
    // Counts climb to the capacity and stay; the cursor walks the ring.
    let mut buf = ReplayBuffer::new(
        3,
        &vec![FieldSpec { name: "x".to_string(), dtype: Dtype::Float32, shape: vec![] }],
    );
    assert_eq!(buf.len(), 0);
    assert_eq!(buf.cursor_val(), 0);
    assert!(!buf.is_full());
    let expected: [(usize, usize); 5] = [(1, 1), (2, 2), (3, 0), (3, 1), (3, 2)];
    for (n, (size, cursor)) in expected.iter().enumerate() {
        single_field_push(&mut buf, "x", f32_scalar(n as f32)).unwrap();
        assert_eq!(buf.len(), *size);
        assert_eq!(buf.cursor_val(), *cursor);
    }
    assert!(buf.is_full());
}

#[test]
fn ring_overwrite_replaces_oldest_slot() {
    // Pushing capacity + 1 transitions leaves the latest one in slot 0.
    let mut buf = ReplayBuffer::new(
        2,
        &vec![FieldSpec { name: "x".to_string(), dtype: Dtype::Int32, shape: vec![] }],
    );
    for v in [10, 20, 30] {
        single_field_push(&mut buf, "x", i32_scalar(v)).unwrap();
    }
    let batch = buf.sample_at(&vec![0, 1]).unwrap();
    assert_eq!(batch.fields[0].1.data_vec(), &vec![Elem::Int32(30), Elem::Int32(20)]);
}

#[test]
fn scalar_field_scenario() {
    // Capacity 3, one scalar float field: three pushes fill the buffer, a
    // fourth overwrites slot 0, and gathering [0, 1, 2] sees it.
    let mut buf = ReplayBuffer::new(
        3,
        &vec![FieldSpec { name: "x".to_string(), dtype: Dtype::Float32, shape: vec![] }],
    );
    for v in [0.0f32, 1.0, 2.0] {
        single_field_push(&mut buf, "x", f32_scalar(v)).unwrap();
    }
    assert_eq!(buf.len(), 3);
    assert_eq!(buf.cursor_val(), 0);
    single_field_push(&mut buf, "x", f32_scalar(3.0)).unwrap();
    assert_eq!(buf.len(), 3);
    assert_eq!(buf.cursor_val(), 1);
    let batch = buf.sample_at(&vec![0, 1, 2]).unwrap();
    assert_eq!(batch.indices, vec![0, 1, 2]);
    let expected: Vec<Elem> =
        [3.0f32, 1.0, 2.0].iter().map(|v| Elem::Float32Bits(v.to_bits())).collect();
    assert_eq!(batch.fields[0].1.data_vec(), &expected);
}

#[test]
fn two_field_alignment_scenario() {
    // Capacity 2, fields "obs" of shape [4] and "act" of scalar shape:
    // gathering at [1, 0] keeps the rows of every field aligned.
    let mut buf = ReplayBuffer::new(
        2,
        &vec![
            FieldSpec { name: "obs".to_string(), dtype: Dtype::Int32, shape: vec![4] },
            FieldSpec { name: "act".to_string(), dtype: Dtype::Int32, shape: vec![] },
        ],
    );
    buf.push(&vec![
        ("obs".to_string(), i32_vector(&[1, 2, 3, 4])),
        ("act".to_string(), i32_scalar(0)),
    ])
    .unwrap();
    buf.push(&vec![
        ("obs".to_string(), i32_vector(&[5, 6, 7, 8])),
        ("act".to_string(), i32_scalar(1)),
    ])
    .unwrap();
    let batch = buf.sample_at(&vec![1, 0]).unwrap();
    assert_eq!(batch.indices, vec![1, 0]);
    assert_eq!(batch.fields[0].0, "obs".to_string());
    assert_eq!(batch.fields[1].0, "act".to_string());
    let expected_obs: Vec<Elem> = [5, 6, 7, 8, 1, 2, 3, 4].iter().map(|v| Elem::Int32(*v)).collect();
    assert_eq!(batch.fields[0].1.data_vec(), &expected_obs);
    assert_eq!(batch.fields[0].1.shape_vec(), &vec![2, 4]);
    assert_eq!(batch.fields[1].1.data_vec(), &vec![Elem::Int32(1), Elem::Int32(0)]);
}

#[test]
fn sample_on_empty_buffer_fails() {
    let buf = ReplayBuffer::new(
        4,
        &vec![FieldSpec { name: "x".to_string(), dtype: Dtype::Uint8, shape: vec![] }],
    );
    for k in [1, 2, 16] {
        assert_eq!(buf.sample(k).err(), Some(ReplayError::EmptyBuffer));
    }
}

#[test]
fn sample_never_leaves_written_range() {
    let mut buf = ReplayBuffer::new(
        8,
        &vec![FieldSpec { name: "x".to_string(), dtype: Dtype::Int32, shape: vec![] }],
    );
    single_field_push(&mut buf, "x", i32_scalar(42)).unwrap();
    // With one written slot, every sampled index is 0 and every gathered
    // row carries the one stored value.
    for _ in 0..50 {
        let batch = buf.sample(4).unwrap();
        assert_eq!(batch.indices, vec![0, 0, 0, 0]);
        assert_eq!(
            batch.fields[0].1.data_vec(),
            &vec![Elem::Int32(42), Elem::Int32(42), Elem::Int32(42), Elem::Int32(42)]
        );
    }
    single_field_push(&mut buf, "x", i32_scalar(43)).unwrap();
    single_field_push(&mut buf, "x", i32_scalar(44)).unwrap();
    for _ in 0..50 {
        let batch = buf.sample(16).unwrap();
        assert_eq!(batch.indices.len(), 16);
        for idx in &batch.indices {
            assert!(*idx < 3);
        }
    }
}

#[test]
fn shape_violation_leaves_buffer_unchanged() {
    let mut buf = ReplayBuffer::new(
        3,
        &vec![FieldSpec { name: "x".to_string(), dtype: Dtype::Int32, shape: vec![2] }],
    );
    single_field_push(&mut buf, "x", i32_vector(&[1, 2])).unwrap();
    let before_len = buf.len();
    let before_cursor = buf.cursor_val();
    let r = single_field_push(&mut buf, "x", i32_vector(&[1, 2, 3]));
    assert_eq!(r, Err(ReplayError::ShapeMismatch));
    assert_eq!(buf.len(), before_len);
    assert_eq!(buf.cursor_val(), before_cursor);
    let batch = buf.sample_at(&vec![0]).unwrap();
    assert_eq!(batch.fields[0].1.data_vec(), &vec![Elem::Int32(1), Elem::Int32(2)]);
}

#[test]
fn missing_field_is_reported() {
    let mut buf = ReplayBuffer::new(
        2,
        &vec![
            FieldSpec { name: "obs".to_string(), dtype: Dtype::Int32, shape: vec![] },
            FieldSpec { name: "act".to_string(), dtype: Dtype::Int32, shape: vec![] },
        ],
    );
    let r = buf.push(&vec![("obs".to_string(), i32_scalar(1))]);
    assert_eq!(r, Err(ReplayError::MissingField));
    assert_eq!(buf.len(), 0);
    assert_eq!(buf.cursor_val(), 0);
}

#[test]
fn sample_at_rejects_unwritten_slots() {
    let mut buf = ReplayBuffer::new(
        4,
        &vec![FieldSpec { name: "x".to_string(), dtype: Dtype::Int32, shape: vec![] }],
    );
    single_field_push(&mut buf, "x", i32_scalar(1)).unwrap();
    single_field_push(&mut buf, "x", i32_scalar(2)).unwrap();
    // Slots 2 and 3 exist but were never written.
    assert_eq!(buf.sample_at(&vec![0, 2]).err(), Some(ReplayError::IndexOutOfRange));
    assert_eq!(buf.sample_at(&vec![4]).err(), Some(ReplayError::IndexOutOfRange));
    assert!(buf.sample_at(&vec![0, 1, 1, 0]).is_ok());
}

#[test]
fn push_with_leading_singleton_dimension() {
    let mut buf = ReplayBuffer::new(
        2,
        &vec![FieldSpec { name: "obs".to_string(), dtype: Dtype::Int32, shape: vec![2] }],
    );
    let batched = Tensor::from_data(Dtype::Int32, &vec![1, 2], vec![Elem::Int32(6), Elem::Int32(7)])
        .unwrap();
    buf.push(&vec![("obs".to_string(), batched)]).unwrap();
    let batch = buf.sample_at(&vec![0]).unwrap();
    assert_eq!(batch.fields[0].1.data_vec(), &vec![Elem::Int32(6), Elem::Int32(7)]);
    assert_eq!(batch.fields[0].1.shape_vec(), &vec![1, 2]);
}

#[test]
fn new_buffer_stores_are_zero_filled() {
    let buf = ReplayBuffer::new(
        2,
        &vec![FieldSpec { name: "x".to_string(), dtype: Dtype::Uint8, shape: vec![3] }],
    );
    let mut buf = buf;
    single_field_push(
        &mut buf,
        "x",
        Tensor::from_data(
            Dtype::Uint8,
            &vec![3],
            vec![Elem::Uint8(1), Elem::Uint8(2), Elem::Uint8(3)],
        )
        .unwrap(),
    )
    .unwrap();
    let batch = buf.sample_at(&vec![0]).unwrap();
    assert_eq!(
        batch.fields[0].1.data_vec(),
        &vec![Elem::Uint8(1), Elem::Uint8(2), Elem::Uint8(3)]
    );
}
