use chroma_filter::knn::{knn_log, Distance, KnnLogError, LogDistance};
use chroma_filter::filter::{ErrorCodes, UpstreamError};
use chroma_filter::log_reader::MaterializedLogOperation;
use chroma_filter::selection::SignedRoaringBitmap;

fn cand(oid: u32, measure: i32) -> LogDistance {
    LogDistance { offset_id: oid, final_operation: MaterializedLogOperation::AddNew, measure }
}

fn run(cs: &[LogDistance], k: u32) -> Vec<(u32, i32)> {
    knn_log(&cs.to_vec(), &SignedRoaringBitmap::full(), k).iter().map(|d| (d.oid, d.measure)).collect()
}

fn sorted_prefix(cs: &[LogDistance], k: usize) -> Vec<i32> {
    let mut m: Vec<i32> = cs.iter().map(|c| c.measure).collect();
    m.sort();
    m.truncate(k);
    m
}

#[test]
fn fewer_candidates_than_k() {
    let cs = [cand(1, 30), cand(2, 10), cand(3, 20)];
    assert_eq!(run(&cs, 5), vec![(2, 10), (3, 20), (1, 30)]);
}

#[test]
fn exactly_k_candidates() {
    let cs = [cand(1, 30), cand(2, 10), cand(3, 20)];
    assert_eq!(run(&cs, 3), vec![(2, 10), (3, 20), (1, 30)]);
}

#[test]
fn more_candidates_than_k() {
    let cs: Vec<LogDistance> = (0..40u32).map(|i| cand(i, ((i * 37) % 41) as i32 - 20)).collect();
    let got = run(&cs, 7);
    let measures: Vec<i32> = got.iter().map(|p| p.1).collect();
    assert_eq!(measures, sorted_prefix(&cs, 7));
    for (oid, m) in got {
        assert_eq!(cs[oid as usize].measure, m);
    }
}

#[test]
fn duplicate_distances_are_kept() {
    let cs = [cand(1, 5), cand(2, 5), cand(3, 5), cand(4, 9)];
    let got = run(&cs, 3);
    assert_eq!(got.iter().map(|p| p.1).collect::<Vec<_>>(), vec![5, 5, 5]);
    let mut oids: Vec<u32> = got.iter().map(|p| p.0).collect();
    oids.sort();
    assert_eq!(oids, vec![1, 2, 3]);
}

#[test]
fn zero_k_is_empty() {
    let cs = [cand(1, 5)];
    assert!(run(&cs, 0).is_empty());
}

#[test]
fn deleted_and_filtered_records_are_skipped() {
    let cs = vec![
        LogDistance { offset_id: 1, final_operation: MaterializedLogOperation::DeleteExisting, measure: 0 },
        cand(2, 3),
        cand(3, 1),
        cand(4, 2),
    ];
    let pre = SignedRoaringBitmap::Exclude([3u32].into_iter().collect());
    let got: Vec<(u32, i32)> = knn_log(&cs, &pre, 10).iter().map(|d| (d.oid, d.measure)).collect();
    assert_eq!(got, vec![(4, 2), (2, 3)]);
    let only = SignedRoaringBitmap::Include([2u32, 3].into_iter().collect());
    let got: Vec<(u32, i32)> = knn_log(&cs, &only, 1).iter().map(|d| (d.oid, d.measure)).collect();
    assert_eq!(got, vec![(3, 1)]);
}

#[test]
fn knn_error_codes() {
    let e = KnnLogError::FetchLog(UpstreamError { code: ErrorCodes::Unavailable, message: "down".to_string() });
    assert_eq!(e.code(), ErrorCodes::Unavailable);
}

#[test]
fn distances_compare_by_measure_only() {
    let a = Distance { oid: 1, measure: -4 };
    let b = Distance { oid: 2, measure: 7 };
    let c = Distance { oid: 3, measure: 7 };
    assert!(a < b);
    assert!(b == c);
    assert_eq!(b.partial_cmp(&a), Some(std::cmp::Ordering::Greater));
}
