use chroma_filter::filter::{ErrorCodes, FetchLogOutput, FilterError, FilterInput, FilterOperator, PreFilterState};
use chroma_filter::index::MetadataBucket;
use chroma_filter::log_reader::{MaterializedLogOperation, MaterializedLogRecord, MetadataLogReader};
use chroma_filter::metadata::{
    BooleanOperator, DirectDocumentComparison, DirectWhereComparison, DocumentOperator, MetadataSetValue,
    MetadataValue, PrimitiveOperator, SetOperator, Where, WhereChildren, WhereComparison,
};
use chroma_filter::provider::MetadataProvider;
use chroma_filter::segment::{FetchSegmentOutput, MetadataSegmentReader, RecordSegmentReader};
use chroma_filter::selection::SignedRoaringBitmap;
use roaring::RoaringBitmap;

fn rec(oid: u32, op: MaterializedLogOperation, val: i64) -> MaterializedLogRecord {
    MaterializedLogRecord {
        offset_id: oid,
        user_id: format!("id{}", oid),
        final_operation: op,
        metadata: vec![("val".to_string(), MetadataValue::Int(val))],
        document: Some(format!("doc number {}", val)),
    }
}

fn empty_segment() -> MetadataSegmentReader {
    MetadataSegmentReader {
        bool_metadata_index_reader: None,
        int_metadata_index_reader: None,
        float_metadata_index_reader: None,
        string_metadata_index_reader: None,
        full_text_index_reader: None,
    }
}

fn prim(key: &str, op: PrimitiveOperator, v: MetadataValue) -> Where {
    Where::DirectWhereComparison(DirectWhereComparison {
        key: key.to_string(),
        comparison: WhereComparison::Primitive(op, v),
    })
}

fn sel(s: &SignedRoaringBitmap) -> (bool, Vec<u32>) {
    match s {
        SignedRoaringBitmap::Include(b) => (true, b.iter().collect()),
        SignedRoaringBitmap::Exclude(b) => (false, b.iter().collect()),
    }
}

fn small_log() -> Vec<MaterializedLogRecord> {
    (0..6).map(|i| rec(i, MaterializedLogOperation::AddNew, i as i64)).collect()
}

#[test]
fn not_equal_is_exclude_of_equal() {
    let logs = small_log();
    let reader = MetadataLogReader::new(&logs);
    let p = MetadataProvider::from_metadata_log_reader(&reader);
    let w = prim("val", PrimitiveOperator::NotEqual, MetadataValue::Int(3));
    let r = w.eval(&p);
    assert_eq!(sel(&r), (false, vec![3]));
    let s = SignedRoaringBitmap::Include([1u32, 3, 4].into_iter().collect());
    assert_eq!(sel(&s.and(&r)), (true, vec![1, 4]));
}

#[test]
fn in_and_not_in() {
    let logs = small_log();
    let reader = MetadataLogReader::new(&logs);
    let p = MetadataProvider::from_metadata_log_reader(&reader);
    let w_in = Where::DirectWhereComparison(DirectWhereComparison {
        key: "val".to_string(),
        comparison: WhereComparison::Membership(SetOperator::In, MetadataSetValue::Int(vec![1, 4, 99])),
    });
    assert_eq!(sel(&w_in.eval(&p)), (true, vec![1, 4]));
    let w_not_in = Where::DirectWhereComparison(DirectWhereComparison {
        key: "val".to_string(),
        comparison: WhereComparison::Membership(SetOperator::NotIn, MetadataSetValue::Int(vec![1, 4])),
    });
    assert_eq!(sel(&w_not_in.eval(&p)), (false, vec![1, 4]));
    let w_empty = Where::DirectWhereComparison(DirectWhereComparison {
        key: "val".to_string(),
        comparison: WhereComparison::Membership(SetOperator::In, MetadataSetValue::Int(vec![])),
    });
    assert_eq!(sel(&w_empty.eval(&p)), (true, vec![]));
}

#[test]
fn document_contains_and_not_contains() {
    let logs = small_log();
    let reader = MetadataLogReader::new(&logs);
    let p = MetadataProvider::from_metadata_log_reader(&reader);
    let c = Where::DirectWhereDocumentComparison(DirectDocumentComparison {
        document: "number 2".to_string(),
        operator: DocumentOperator::Contains,
    });
    assert_eq!(sel(&c.eval(&p)), (true, vec![2]));
    let n = Where::DirectWhereDocumentComparison(DirectDocumentComparison {
        document: "number 2".to_string(),
        operator: DocumentOperator::NotContains,
    });
    assert_eq!(sel(&n.eval(&p)), (false, vec![2]));
}

#[test]
fn nested_and_or() {
    let logs = small_log();
    let reader = MetadataLogReader::new(&logs);
    let p = MetadataProvider::from_metadata_log_reader(&reader);
    let w = Where::WhereChildren(WhereChildren {
        operator: BooleanOperator::Or,
        children: vec![
            Where::WhereChildren(WhereChildren {
                operator: BooleanOperator::And,
                children: vec![
                    prim("val", PrimitiveOperator::GreaterThan, MetadataValue::Int(1)),
                    prim("val", PrimitiveOperator::LessThan, MetadataValue::Int(4)),
                ],
            }),
            prim("val", PrimitiveOperator::Equal, MetadataValue::Int(5)),
        ],
    });
    assert_eq!(sel(&w.eval(&p)), (true, vec![2, 3, 5]));
    let empty_and = Where::WhereChildren(WhereChildren { operator: BooleanOperator::And, children: vec![] });
    assert_eq!(sel(&empty_and.eval(&p)), (false, vec![]));
}

#[test]
fn segment_typed_index_and_missing_index() {
    let mut seg = empty_segment();
    seg.int_metadata_index_reader = Some(vec![
        MetadataBucket { key: "val".to_string(), value: MetadataValue::Int(1), ids: [100u32].into_iter().collect() },
        MetadataBucket { key: "val".to_string(), value: MetadataValue::Int(9), ids: [101u32, 102].into_iter().collect() },
    ]);
    seg.full_text_index_reader = Some(vec![(100, "red fox".to_string()), (101, "blue fox".to_string())]);
    let p = MetadataProvider::from_metadata_segment_reader(&seg);
    let w = prim("val", PrimitiveOperator::GreaterThanOrEqual, MetadataValue::Int(2));
    assert_eq!(sel(&w.eval(&p)), (true, vec![101, 102]));
    let w_str = prim("val", PrimitiveOperator::Equal, MetadataValue::Str("x".to_string()));
    assert_eq!(sel(&w_str.eval(&p)), (true, vec![]));
    let d = Where::DirectWhereDocumentComparison(DirectDocumentComparison {
        document: "blue".to_string(),
        operator: DocumentOperator::Contains,
    });
    assert_eq!(sel(&d.eval(&p)), (true, vec![101]));
}

#[test]
fn try_from_requires_both_handles() {
    let state = PreFilterState { logs: Some(FetchLogOutput { records: vec![] }), segments: None };
    match FilterInput::try_from(state) {
        Err(e) => {
            assert!(matches!(e, FilterError::IncompleteInput));
            assert_eq!(e.code(), ErrorCodes::InvalidArgument);
        }
        Ok(_) => panic!("incomplete input accepted"),
    }
}

fn segment_with_records(persisted: &[(String, u32)]) -> FetchSegmentOutput {
    FetchSegmentOutput {
        record_segment_reader: Some(RecordSegmentReader { user_ids: persisted.to_vec() }),
        metadata_segment_reader: empty_segment(),
    }
}

#[test]
fn masking_without_expression() {
    let logs = vec![
        rec(1, MaterializedLogOperation::UpdateExisting, 1),
        rec(2, MaterializedLogOperation::DeleteExisting, 2),
        rec(3, MaterializedLogOperation::AddNew, 3),
    ];
    let input = FilterInput::try_from(PreFilterState {
        logs: Some(FetchLogOutput { records: logs }),
        segments: Some(segment_with_records(&[])),
    })
    .unwrap();
    let op = FilterOperator { query_ids: None, where_clause: None };
    let out = op.run(input).unwrap();
    assert_eq!(sel(&out.log_oids), (false, vec![]));
    assert_eq!(sel(&out.compact_oids), (false, vec![1, 2]));
}

#[test]
fn end_to_end_filter_with_ids() {
    // Log: values 0..999 on offsets 0..999; offsets below 100 update a
    // persisted record, the others are new.
    let logs: Vec<MaterializedLogRecord> = (0..1000u32)
        .map(|i| {
            let op = if i < 100 { MaterializedLogOperation::UpdateExisting } else { MaterializedLogOperation::AddNew };
            rec(i, op, i as i64)
        })
        .collect();
    // Persisted ids: id0..id99 (touched by the log) and old ids at offsets 2000..2099.
    let mut persisted: Vec<(String, u32)> = (0..100u32).map(|i| (format!("id{}", i), i)).collect();
    persisted.extend((0..100u32).map(|i| (format!("old{}", i), 2000 + i)));
    let mut seg = segment_with_records(&persisted);
    seg.metadata_segment_reader.int_metadata_index_reader = Some(vec![MetadataBucket {
        key: "val".to_string(),
        value: MetadataValue::Int(600),
        ids: (0..100u32).chain(2000..2100).collect(),
    }]);
    // 50 known ids: 25 from the log above 480, 25 mixing touched and old.
    let mut query: Vec<String> = (480..505u32).map(|i| format!("id{}", i)).collect();
    query.extend((0..10u32).map(|i| format!("id{}", i)));
    query.extend((0..15u32).map(|i| format!("old{}", i)));
    assert_eq!(query.len(), 50);
    let where_clause = Where::WhereChildren(WhereChildren {
        operator: BooleanOperator::And,
        children: vec![
            prim("val", PrimitiveOperator::GreaterThan, MetadataValue::Int(500)),
            prim("val", PrimitiveOperator::NotEqual, MetadataValue::Int(700)),
        ],
    });
    let input = FilterInput::try_from(PreFilterState {
        logs: Some(FetchLogOutput { records: logs }),
        segments: Some(seg),
    })
    .unwrap();
    let op = FilterOperator { query_ids: Some(query), where_clause: Some(where_clause) };
    let out = op.run(input).unwrap();
    assert_eq!(sel(&out.log_oids), (true, vec![501, 502, 503, 504]));
    let expected: Vec<u32> = (2000..2015).collect();
    assert_eq!(sel(&out.compact_oids), (true, expected));
    let lo: RoaringBitmap = match &out.log_oids {
        SignedRoaringBitmap::Include(b) => b.clone(),
        SignedRoaringBitmap::Exclude(_) => unreachable!(),
    };
    for x in lo.iter() {
        assert!(!out.compact_oids.contains(x));
    }
}
