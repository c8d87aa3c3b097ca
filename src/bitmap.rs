//! Identifier sets held in a `roaring::RoaringBitmap`.
use roaring::RoaringBitmap;
use vstd::prelude::*;

verus! {

#[verifier::external_type_specification]
#[verifier::external_body]
pub struct ExRoaringBitmap(RoaringBitmap);

/// The identifiers that a bitmap holds.
pub uninterp spec fn bitmap_ids(b: RoaringBitmap) -> Set<u32>;

/// Relies on `RoaringBitmap::new`: the new bitmap is empty.
#[verifier::external_body]
pub(crate) fn bitmap_new() -> (r: RoaringBitmap)
    ensures
        bitmap_ids(r) == Set::<u32>::empty(),
{
    RoaringBitmap::new()
}

/// Relies on `RoaringBitmap::insert`: the value is added, nothing else changes.
#[verifier::external_body]
pub(crate) fn bitmap_insert(b: &mut RoaringBitmap, value: u32)
    ensures
        bitmap_ids(*final(b)) == bitmap_ids(*old(b)).insert(value),
{
    b.insert(value);
}

/// Relies on `RoaringBitmap::contains`: membership of one value.
#[verifier::external_body]
pub(crate) fn bitmap_contains(b: &RoaringBitmap, value: u32) -> (r: bool)
    ensures
        r == bitmap_ids(*b).contains(value),
{
    b.contains(value)
}

/// Relies on `BitOr` for `&RoaringBitmap`: the union of two sets.
#[verifier::external_body]
pub(crate) fn bitmap_union(a: &RoaringBitmap, b: &RoaringBitmap) -> (r: RoaringBitmap)
    ensures
        bitmap_ids(r) == bitmap_ids(*a).union(bitmap_ids(*b)),
{
    a | b
}

/// Relies on `BitAnd` for `&RoaringBitmap`: the intersection of two sets.
#[verifier::external_body]
pub(crate) fn bitmap_intersection(a: &RoaringBitmap, b: &RoaringBitmap) -> (r: RoaringBitmap)
    ensures
        bitmap_ids(r) == bitmap_ids(*a).intersect(bitmap_ids(*b)),
{
    a & b
}

/// Relies on `Sub` for `&RoaringBitmap`: the values of `a` that are not in `b`.
#[verifier::external_body]
pub(crate) fn bitmap_difference(a: &RoaringBitmap, b: &RoaringBitmap) -> (r: RoaringBitmap)
    ensures
        bitmap_ids(r) == bitmap_ids(*a).difference(bitmap_ids(*b)),
{
    a - b
}

/// Relies on `RoaringBitmap::clone`: the copy holds the same values.
#[verifier::external_body]
pub(crate) fn bitmap_clone(b: &RoaringBitmap) -> (r: RoaringBitmap)
    ensures
        bitmap_ids(r) == bitmap_ids(*b),
{
    b.clone()
}

} // verus!
