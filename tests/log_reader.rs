use chroma_filter::log_reader::{MaterializedLogOperation, MaterializedLogRecord, MetadataLogReader};
use chroma_filter::metadata::{MetadataValue, PrimitiveOperator};

fn rec(oid: u32, op: MaterializedLogOperation, meta: Vec<(&str, MetadataValue)>, doc: Option<&str>) -> MaterializedLogRecord {
    MaterializedLogRecord {
        offset_id: oid,
        user_id: format!("u{}", oid),
        final_operation: op,
        metadata: meta.into_iter().map(|(k, v)| (k.to_string(), v)).collect(),
        document: doc.map(|d| d.to_string()),
    }
}

fn odd_values() -> Vec<MaterializedLogRecord> {
    vec![
        rec(10, MaterializedLogOperation::AddNew, vec![("k", MetadataValue::Int(1))], None),
        rec(11, MaterializedLogOperation::AddNew, vec![("k", MetadataValue::Int(3))], None),
        rec(12, MaterializedLogOperation::AddNew, vec![("k", MetadataValue::Int(5))], None),
        rec(13, MaterializedLogOperation::AddNew, vec![("k", MetadataValue::Int(7))], None),
        rec(14, MaterializedLogOperation::AddNew, vec![("k", MetadataValue::Int(5))], None),
    ]
}

fn ids(b: roaring::RoaringBitmap) -> Vec<u32> {
    b.iter().collect()
}

#[test]
fn range_greater_than_five() {
    let logs = odd_values();
    let r = MetadataLogReader::new(&logs);
    let got = r.get(&"k".to_string(), &MetadataValue::Int(5), PrimitiveOperator::GreaterThan);
    assert_eq!(ids(got), vec![13]);
}

#[test]
fn range_less_than_or_equal_five() {
    let logs = odd_values();
    let r = MetadataLogReader::new(&logs);
    let got = r.get(&"k".to_string(), &MetadataValue::Int(5), PrimitiveOperator::LessThanOrEqual);
    assert_eq!(ids(got), vec![10, 11, 12, 14]);
}

#[test]
fn range_other_operators() {
    let logs = odd_values();
    let r = MetadataLogReader::new(&logs);
    let k = "k".to_string();
    assert_eq!(ids(r.get(&k, &MetadataValue::Int(5), PrimitiveOperator::Equal)), vec![12, 14]);
    assert_eq!(ids(r.get(&k, &MetadataValue::Int(5), PrimitiveOperator::GreaterThanOrEqual)), vec![12, 13, 14]);
    assert_eq!(ids(r.get(&k, &MetadataValue::Int(5), PrimitiveOperator::LessThan)), vec![10, 11]);
}

#[test]
fn missing_key_is_empty() {
    let logs = odd_values();
    let r = MetadataLogReader::new(&logs);
    let got = r.get(&"nope".to_string(), &MetadataValue::Int(5), PrimitiveOperator::Equal);
    assert!(got.is_empty());
}

#[test]
fn deleted_records_are_not_indexed_but_touched() {
    let logs = vec![
        rec(1, MaterializedLogOperation::Initial, vec![("a", MetadataValue::Bool(true))], Some("hello world")),
        rec(2, MaterializedLogOperation::DeleteExisting, vec![("a", MetadataValue::Bool(true))], Some("hello")),
        rec(3, MaterializedLogOperation::UpdateExisting, vec![("a", MetadataValue::Bool(false))], Some("bye")),
        rec(4, MaterializedLogOperation::AddNew, vec![], None),
        rec(5, MaterializedLogOperation::OverwriteExisting, vec![], Some("say hello")),
    ];
    let r = MetadataLogReader::new(&logs);
    assert_eq!(ids(r.get(&"a".to_string(), &MetadataValue::Bool(true), PrimitiveOperator::Equal)), vec![1]);
    assert_eq!(ids(r.touched_oids()), vec![2, 3, 5]);
    assert_eq!(ids(r.filter_by_document(&"hello".to_string())), vec![1, 5]);
    assert_eq!(ids(r.filter_by_document(&"xyz".to_string())), Vec::<u32>::new());
    let uids = vec!["u1".to_string(), "u2".to_string(), "u4".to_string(), "unknown".to_string()];
    assert_eq!(ids(r.search_user_ids(&uids)), vec![1, 4]);
}

#[test]
fn string_values_order_by_bytes() {
    let logs = vec![
        rec(1, MaterializedLogOperation::AddNew, vec![("s", MetadataValue::Str("apple".to_string()))], None),
        rec(2, MaterializedLogOperation::AddNew, vec![("s", MetadataValue::Str("banana".to_string()))], None),
        rec(3, MaterializedLogOperation::AddNew, vec![("s", MetadataValue::Str("app".to_string()))], None),
    ];
    let r = MetadataLogReader::new(&logs);
    let s = "s".to_string();
    assert_eq!(ids(r.get(&s, &MetadataValue::Str("apple".to_string()), PrimitiveOperator::LessThan)), vec![3]);
    assert_eq!(ids(r.get(&s, &MetadataValue::Str("apple".to_string()), PrimitiveOperator::GreaterThanOrEqual)), vec![1, 2]);
}

#[test]
fn compare_values() {
    assert_eq!(MetadataValue::Int(3).compare(&MetadataValue::Int(4)), -1);
    assert_eq!(MetadataValue::Str("b".to_string()).compare(&MetadataValue::Str("ab".to_string())), 1);
    assert_eq!(MetadataValue::Bool(true).compare(&MetadataValue::Bool(true)), 0);
    assert!(MetadataValue::Float(-2).satisfies(&MetadataValue::Float(0), PrimitiveOperator::LessThan));
}

#[test]
fn range_scan_matches_brute_force_across_keys() {
    let keys = ["a", "b", "c"];
    let mut logs = Vec::new();
    let mut oid: u32 = 0;
    for round in 0..3i64 {
        for v in 0..20i64 {
            for k in keys.iter() {
                let value = (v * 7 + round * 3) % 23 - 5;
                logs.push(rec(oid, MaterializedLogOperation::AddNew, vec![(k, MetadataValue::Int(value))], None));
                oid += 1;
            }
        }
    }
    let r = MetadataLogReader::new(&logs);
    let ops = [
        PrimitiveOperator::Equal,
        PrimitiveOperator::GreaterThan,
        PrimitiveOperator::GreaterThanOrEqual,
        PrimitiveOperator::LessThan,
        PrimitiveOperator::LessThanOrEqual,
    ];
    for k in keys.iter() {
        for target in -7..20i64 {
            for op in ops.iter() {
                let got = ids(r.get(&k.to_string(), &MetadataValue::Int(target), *op));
                let want: Vec<u32> = logs
                    .iter()
                    .filter(|l| {
                        l.metadata.iter().any(|(mk, mv)| {
                            mk == k
                                && match mv {
                                    MetadataValue::Int(x) => match op {
                                        PrimitiveOperator::Equal => *x == target,
                                        PrimitiveOperator::GreaterThan => *x > target,
                                        PrimitiveOperator::GreaterThanOrEqual => *x >= target,
                                        PrimitiveOperator::LessThan => *x < target,
                                        PrimitiveOperator::LessThanOrEqual => *x <= target,
                                        PrimitiveOperator::NotEqual => false,
                                    },
                                    _ => false,
                                }
                        })
                    })
                    .map(|l| l.offset_id)
                    .collect();
                assert_eq!(got, want);
            }
        }
    }
}
