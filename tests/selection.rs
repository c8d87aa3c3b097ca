use chroma_filter::selection::SignedRoaringBitmap;
use roaring::RoaringBitmap;

fn bm(v: &[u32]) -> RoaringBitmap {
    v.iter().copied().collect()
}

fn ids(s: &SignedRoaringBitmap) -> (bool, Vec<u32>) {
    match s {
        SignedRoaringBitmap::Include(b) => (true, b.iter().collect()),
        SignedRoaringBitmap::Exclude(b) => (false, b.iter().collect()),
    }
}

#[test]
fn and_include_include_intersects() {
    let a = SignedRoaringBitmap::Include(bm(&[1, 2, 3]));
    let b = SignedRoaringBitmap::Include(bm(&[2, 3, 4]));
    assert_eq!(ids(&a.and(&b)), (true, vec![2, 3]));
}

#[test]
fn and_include_exclude_subtracts() {
    let a = SignedRoaringBitmap::Include(bm(&[1, 2, 3]));
    let b = SignedRoaringBitmap::Exclude(bm(&[2, 9]));
    assert_eq!(ids(&a.and(&b)), (true, vec![1, 3]));
    assert_eq!(ids(&b.and(&a)), (true, vec![1, 3]));
}

#[test]
fn and_exclude_exclude_unites() {
    let a = SignedRoaringBitmap::Exclude(bm(&[1, 2]));
    let b = SignedRoaringBitmap::Exclude(bm(&[2, 5]));
    assert_eq!(ids(&a.and(&b)), (false, vec![1, 2, 5]));
}

#[test]
fn or_include_include_unites() {
    let a = SignedRoaringBitmap::Include(bm(&[1, 2]));
    let b = SignedRoaringBitmap::Include(bm(&[2, 5]));
    assert_eq!(ids(&a.or(&b)), (true, vec![1, 2, 5]));
}

#[test]
fn or_include_exclude_gives_exclude() {
    let a = SignedRoaringBitmap::Include(bm(&[1, 2]));
    let b = SignedRoaringBitmap::Exclude(bm(&[2, 5]));
    assert_eq!(ids(&a.or(&b)), (false, vec![5]));
    assert_eq!(ids(&b.or(&a)), (false, vec![5]));
}

#[test]
fn or_exclude_exclude_intersects() {
    let a = SignedRoaringBitmap::Exclude(bm(&[1, 2]));
    let b = SignedRoaringBitmap::Exclude(bm(&[2, 5]));
    assert_eq!(ids(&a.or(&b)), (false, vec![2]));
}

#[test]
fn full_and_is_identity() {
    let x = SignedRoaringBitmap::Include(bm(&[4, 8]));
    assert_eq!(ids(&SignedRoaringBitmap::full().and(&x)), (true, vec![4, 8]));
    let y = SignedRoaringBitmap::Exclude(bm(&[4]));
    assert_eq!(ids(&SignedRoaringBitmap::full().and(&y)), (false, vec![4]));
}

#[test]
fn empty_or_is_identity() {
    let x = SignedRoaringBitmap::Include(bm(&[4, 8]));
    assert_eq!(ids(&SignedRoaringBitmap::empty().or(&x)), (true, vec![4, 8]));
    let y = SignedRoaringBitmap::Exclude(bm(&[4]));
    assert_eq!(ids(&SignedRoaringBitmap::empty().or(&y)), (false, vec![4]));
}

#[test]
fn include_and_exclude_stays_within_include() {
    let a = SignedRoaringBitmap::Include(bm(&[1, 2, 3, 4]));
    let b = SignedRoaringBitmap::Exclude(bm(&[3, 4, 100]));
    let r = a.and(&b);
    let (inc, v) = ids(&r);
    assert!(inc);
    assert_eq!(v, vec![1, 2]);
    assert!(!r.contains(100));
    assert!(!r.contains(3));
}

#[test]
fn and_or_are_associative_on_mixed_signs() {
    let a = SignedRoaringBitmap::Include(bm(&[1, 2, 3]));
    let b = SignedRoaringBitmap::Exclude(bm(&[2]));
    let c = SignedRoaringBitmap::Exclude(bm(&[3, 7]));
    assert_eq!(ids(&a.and(&b).and(&c)), ids(&a.and(&b.and(&c))));
    assert_eq!(ids(&a.or(&b).or(&c)), ids(&a.or(&b.or(&c))));
    assert_eq!(ids(&a.or(&b).or(&c)), (false, vec![]));
}

#[test]
fn contains_follows_sign() {
    let e = SignedRoaringBitmap::Exclude(bm(&[5]));
    assert!(e.contains(6));
    assert!(!e.contains(5));
    assert!(!SignedRoaringBitmap::empty().contains(0));
    assert!(SignedRoaringBitmap::full().contains(u32::MAX));
}
