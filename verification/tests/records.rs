use replay_store::record::{BufferedRecorder, NullRecorder, Record, RecordError, RecordValue};

#[test]
fn empty_record_has_no_values() {
    let r = Record::empty();
    assert!(r.get("loss").is_none());
    assert_eq!(r.keys().len(), 0);
}

#[test]
fn insert_then_get() {
    let mut r = Record::empty();
    r.insert("loss".to_string(), RecordValue::Scalar(0.5f32.to_bits()));
    r.insert("step".to_string(), RecordValue::Scalar(3.0f32.to_bits()));
    assert_eq!(r.get("loss"), Some(&RecordValue::Scalar(0.5f32.to_bits())));
    assert_eq!(r.get("step"), Some(&RecordValue::Scalar(3.0f32.to_bits())));
    assert!(r.get("reward").is_none());
    r.insert("loss".to_string(), RecordValue::Scalar(0.25f32.to_bits()));
    assert_eq!(r.get("loss"), Some(&RecordValue::Scalar(0.25f32.to_bits())));
    assert_eq!(r.keys(), vec!["loss".to_string(), "step".to_string()]);
}

#[test]
fn get_scalar_reports_each_failure() {
    let mut r = Record::empty();
    r.insert("loss".to_string(), RecordValue::Scalar(1.5f32.to_bits()));
    r.insert("when".to_string(), RecordValue::DateTime(1_700_000_000_000_000));
    assert_eq!(r.get_scalar("loss"), Ok(1.5f32.to_bits()));
    assert_eq!(
        r.get_scalar("when"),
        Err(RecordError::RecordValueTypeError("Scalar".to_string()))
    );
    assert_eq!(
        r.get_scalar("missing"),
        Err(RecordError::RecordKeyError("missing".to_string()))
    );
}

#[test]
fn from_slice_later_entry_wins() {
    let r = Record::from_slice(vec![
        ("a".to_string(), RecordValue::Scalar(1.0f32.to_bits())),
        ("b".to_string(), RecordValue::Scalar(2.0f32.to_bits())),
        ("a".to_string(), RecordValue::Scalar(3.0f32.to_bits())),
    ]);
    assert_eq!(r.get("a"), Some(&RecordValue::Scalar(3.0f32.to_bits())));
    assert_eq!(r.get("b"), Some(&RecordValue::Scalar(2.0f32.to_bits())));
}

#[test]
fn merge_prefers_the_other_record() {
    let mut left = Record::empty();
    left.insert("a".to_string(), RecordValue::Scalar(1.0f32.to_bits()));
    left.insert("b".to_string(), RecordValue::Scalar(2.0f32.to_bits()));
    let mut right = Record::empty();
    right.insert("b".to_string(), RecordValue::Scalar(20.0f32.to_bits()));
    right.insert("c".to_string(), RecordValue::Array1(vec![0.5f32.to_bits()]));
    let merged = left.merge(right);
    assert_eq!(merged.get("a"), Some(&RecordValue::Scalar(1.0f32.to_bits())));
    assert_eq!(merged.get("b"), Some(&RecordValue::Scalar(20.0f32.to_bits())));
    assert_eq!(merged.get("c"), Some(&RecordValue::Array1(vec![0.5f32.to_bits()])));
}

#[test]
fn buffered_recorder_keeps_records_in_order() {
    let mut recorder = BufferedRecorder::new();
    assert_eq!(recorder.records().len(), 0);
    let mut first = Record::empty();
    first.insert("step".to_string(), RecordValue::Scalar(1.0f32.to_bits()));
    let mut second = Record::empty();
    second.insert("step".to_string(), RecordValue::Scalar(2.0f32.to_bits()));
    recorder.write(first);
    recorder.write(second);
    assert_eq!(recorder.records().len(), 2);
    assert_eq!(
        recorder.records()[0].get_scalar("step"),
        Ok(1.0f32.to_bits())
    );
    assert_eq!(
        recorder.records()[1].get_scalar("step"),
        Ok(2.0f32.to_bits())
    );
}

#[test]
fn null_recorder_discards_records() {
    let mut recorder = NullRecorder {};
    let mut record = Record::empty();
    record.insert("step".to_string(), RecordValue::Scalar(1.0f32.to_bits()));
    recorder.write(record);
}

#[test]
fn scalar_entries_skip_the_step_key_and_non_scalars() {
    let mut r = Record::empty();
    r.insert("n_opts".to_string(), RecordValue::Scalar(5.0f32.to_bits()));
    r.insert("loss".to_string(), RecordValue::Scalar(0.5f32.to_bits()));
    r.insert("when".to_string(), RecordValue::DateTime(123));
    r.insert("reward".to_string(), RecordValue::Scalar(7.0f32.to_bits()));
    let scalars = r.scalar_entries("n_opts");
    assert_eq!(
        scalars,
        vec![
            ("loss".to_string(), 0.5f32.to_bits()),
            ("reward".to_string(), 7.0f32.to_bits()),
        ]
    );
}

#[test]
fn entries_keep_insertion_order() {
    let mut r = Record::empty();
    r.insert("a".to_string(), RecordValue::Scalar(1.0f32.to_bits()));
    r.insert("b".to_string(), RecordValue::DateTime(7));
    let entries = r.entries_vec();
    assert_eq!(entries.len(), 2);
    assert_eq!(entries[0].0, "a".to_string());
    assert_eq!(entries[1].0, "b".to_string());
}
