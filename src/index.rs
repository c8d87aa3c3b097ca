//! Buckets of identifiers keyed by a metadata key and a value, and the
//! range queries over them.
use crate::bitmap::{bitmap_ids, bitmap_insert, bitmap_new, bitmap_union};
use crate::metadata::{
    compare_keys, key_cmp, lemma_cmp_zero_congruent, lemma_cmp_zero_self, lemma_key_cmp_antisym,
    lemma_key_cmp_trans, lemma_key_cmp_zero, lemma_value_cmp_antisym, lemma_value_cmp_trans, satisfies,
    value_cmp, MetadataValue, PrimitiveOperator,
};
use roaring::RoaringBitmap;
use vstd::prelude::*;

verus! {

/// The identifiers whose metadata holds `value` under `key`.
#[derive(Debug)]
pub struct MetadataBucket {
    pub key: String,
    pub value: MetadataValue,
    pub ids: RoaringBitmap,
}

/// No two buckets share a key and a value.
pub open spec fn buckets_distinct(bs: Seq<MetadataBucket>) -> bool {
    forall|k1: int, k2: int|
        #![trigger bs[k1], bs[k2]]
        0 <= k1 < bs.len() && 0 <= k2 < bs.len() && k1 != k2 ==> !(bs[k1].key@ == bs[k2].key@
            && value_cmp(bs[k1].value, bs[k2].value) == 0)
}

/// Whether bucket `b` is the one for `key` and a value equal to `val`.
pub open spec fn bucket_for(b: MetadataBucket, key: Seq<char>, val: MetadataValue) -> bool {
    b.key@ == key && value_cmp(val, b.value) == 0
}

/// The union of the buckets under `key` whose value stands in relation `op`
/// to `target`.
pub open spec fn buckets_ids(
    bs: Seq<MetadataBucket>,
    key: Seq<char>,
    target: MetadataValue,
    op: PrimitiveOperator,
) -> Set<u32> {
    Set::new(
        |x: u32|
            exists|k: int|
                #![trigger bs[k]]
                0 <= k < bs.len() && bs[k].key@ == key && satisfies(bs[k].value, target, op)
                    && bitmap_ids(bs[k].ids).contains(x),
    )
}

/// Answers a comparison on `key` from the buckets.
pub fn range_union(
    bs: &Vec<MetadataBucket>,
    key: &String,
    target: &MetadataValue,
    op: PrimitiveOperator,
) -> (r: RoaringBitmap)
    ensures
        bitmap_ids(r) == buckets_ids(bs@, key@, *target, op),
{
    let mut acc = bitmap_new();
    let mut k: usize = 0;
    while k < bs.len()
        invariant
            k <= bs@.len(),
            forall|x: u32|
                bitmap_ids(acc).contains(x) <==> exists|k2: int|
                    #![trigger bs@[k2]]
                    0 <= k2 < k && bs@[k2].key@ == key@ && satisfies(bs@[k2].value, *target, op)
                        && bitmap_ids(bs@[k2].ids).contains(x),
        decreases bs@.len() - k,
    {
        let b = &bs[k];
        if b.key == *key && b.value.satisfies(target, op) {
            acc = bitmap_union(&acc, &b.ids);
        }
        k = k + 1;
    }
    assert(bitmap_ids(acc) =~= buckets_ids(bs@, key@, *target, op));
    acc
}

/// The index of the bucket for `key` and `val`, if there is one.
pub fn find_bucket(bs: &Vec<MetadataBucket>, key: &String, val: &MetadataValue) -> (r: Option<usize>)
    ensures
        r matches Some(k) ==> k < bs@.len() && bucket_for(bs@[k as int], key@, *val),
        r is None ==> forall|k: int| 0 <= k < bs@.len() ==> !bucket_for(#[trigger] bs@[k], key@, *val),
{
    let mut k: usize = 0;
    while k < bs.len()
        invariant
            k <= bs@.len(),
            forall|k2: int| 0 <= k2 < k ==> !bucket_for(#[trigger] bs@[k2], key@, *val),
        decreases bs@.len() - k,
    {
        if bs[k].key == *key && val.compare(&bs[k].value) == 0 {
            return Some(k);
        }
        k = k + 1;
    }
    None
}

/// Records identifier `oid` under `key` and `val`: into the bucket for them,
/// or into a new bucket when there is none.
pub fn add_entry(bs: &mut Vec<MetadataBucket>, key: &String, val: &MetadataValue, oid: u32)
    requires
        buckets_distinct(old(bs)@),
    ensures
        buckets_distinct(final(bs)@),
        final(bs)@.len() >= old(bs)@.len(),
        forall|k: int|
            #![trigger final(bs)@[k]]
            0 <= k < old(bs)@.len() ==> final(bs)@[k].key == old(bs)@[k].key && final(bs)@[k].value
                == old(bs)@[k].value && bitmap_ids(final(bs)@[k].ids) == if bucket_for(
                old(bs)@[k],
                key@,
                *val,
            ) {
                bitmap_ids(old(bs)@[k].ids).insert(oid)
            } else {
                bitmap_ids(old(bs)@[k].ids)
            },
        forall|k: int|
            #![trigger final(bs)@[k]]
            old(bs)@.len() <= k < final(bs)@.len() ==> final(bs)@[k].key@ == key@ && final(bs)@[k].value
                == *val && bitmap_ids(final(bs)@[k].ids) == set![oid],
        exists|k: int|
            #![trigger final(bs)@[k]]
            0 <= k < final(bs)@.len() && bucket_for(final(bs)@[k], key@, *val),
        final(bs)@.len() > old(bs)@.len() ==> forall|k: int|
            #![trigger old(bs)@[k]]
            0 <= k < old(bs)@.len() ==> !bucket_for(old(bs)@[k], key@, *val),
{
    match find_bucket(bs, key, val) {
        Some(idx) => {
            let mut b = MetadataBucket {
                key: String::new(),
                value: MetadataValue::Bool(false),
                ids: bitmap_new(),
            };
            bs.set_and_swap(idx, &mut b);
            bitmap_insert(&mut b.ids, oid);
            bs.set(idx, b);
            assert forall|k: int| 0 <= k < old(bs)@.len() && k != idx implies !bucket_for(
                #[trigger] old(bs)@[k],
                key@,
                *val,
            ) by {
                if bucket_for(old(bs)@[k], key@, *val) {
                    lemma_cmp_zero_congruent(*val, old(bs)@[idx as int].value, old(bs)@[k].value);
                    lemma_cmp_zero_congruent(*val, old(bs)@[k].value, old(bs)@[k].value);
                    assert(old(bs)@[idx as int] == old(bs)@[idx as int]);
                    assert(old(bs)@[k] == old(bs)@[k]);
                }
            }
            assert(bs@[idx as int].key == old(bs)@[idx as int].key);
            assert(bucket_for(bs@[idx as int], key@, *val));
        },
        None => {
            let ids = {
                let mut ids = bitmap_new();
                bitmap_insert(&mut ids, oid);
                ids
            };
            assert(bitmap_ids(ids) =~= set![oid]);
            bs.push(MetadataBucket { key: key.clone(), value: val.duplicate(), ids });
            let ghost last: int = bs@.len() - 1;
            proof {
                lemma_cmp_zero_self(*val);
            }
            assert forall|k1: int, k2: int|
                0 <= k1 < bs@.len() && 0 <= k2 < bs@.len() && k1 != k2 implies !(
                #[trigger] bs@[k1].key@ == #[trigger] bs@[k2].key@ && value_cmp(
                    bs@[k1].value,
                    bs@[k2].value,
                ) == 0) by {
                if k2 == last && bs@[k1].key@ == key@ && value_cmp(bs@[k1].value, *val) == 0 {
                    lemma_cmp_zero_congruent(bs@[k1].value, *val, *val);
                    assert(old(bs)@[k1] == bs@[k1]);
                }
                if k1 == last && bs@[k2].key@ == key@ && value_cmp(*val, bs@[k2].value) == 0 {
                    assert(old(bs)@[k2] == bs@[k2]);
                }
                if k1 != last && k2 != last {
                    assert(old(bs)@[k1] == bs@[k1]);
                    assert(old(bs)@[k2] == bs@[k2]);
                }
            }
            assert(bucket_for(bs@[last], key@, *val));
        },
    }
}

} // verus!
verus! {

/// Bucket `a` comes no later than bucket `b`: by the bytes of the key, then
/// by value.
pub open spec fn bucket_le(a: MetadataBucket, b: MetadataBucket) -> bool {
    key_cmp(a.key, b.key@) < 0 || (key_cmp(a.key, b.key@) == 0 && value_cmp(a.value, b.value) <= 0)
}

/// `order` lists every bucket position, in bucket order.
pub open spec fn ordered_by(bs: Seq<MetadataBucket>, order: Seq<usize>) -> bool {
    &&& order.len() == bs.len()
    &&& forall|t: int| 0 <= t < order.len() ==> #[trigger] order[t] < bs.len()
    &&& forall|k: int| 0 <= k < bs.len() ==> #[trigger] order.contains(k as usize)
    &&& forall|t1: int, t2: int|
        #![trigger order[t1], order[t2]]
        0 <= t1 < t2 < order.len() ==> bucket_le(bs[order[t1] as int], bs[order[t2] as int])
}

proof fn lemma_bucket_le_trans(a: MetadataBucket, b: MetadataBucket, c: MetadataBucket)
    requires
        bucket_le(a, b),
        bucket_le(b, c),
    ensures
        bucket_le(a, c),
{
    lemma_key_cmp_trans(a.key, b.key, c.key@);
    lemma_key_cmp_zero(a.key, b.key@);
    lemma_key_cmp_zero(b.key, c.key@);
    if key_cmp(a.key, b.key@) == 0 && key_cmp(b.key, c.key@) == 0 {
        lemma_value_cmp_trans(a.value, b.value, c.value);
    }
}

proof fn lemma_bucket_le_total(a: MetadataBucket, b: MetadataBucket)
    ensures
        bucket_le(a, b) || bucket_le(b, a),
{
    lemma_key_cmp_antisym(a.key, b.key);
    lemma_value_cmp_antisym(a.value, b.value);
}

fn bucket_le_exec(a: &MetadataBucket, b: &MetadataBucket) -> (r: bool)
    ensures
        r == bucket_le(*a, *b),
{
    let kc = compare_keys(&a.key, &b.key);
    kc < 0 || (kc == 0 && a.value.compare(&b.value) <= 0)
}

/// The positions of the buckets, sorted by key and value.
pub fn sort_positions(bs: &Vec<MetadataBucket>) -> (order: Vec<usize>)
    ensures
        ordered_by(bs@, order@),
{
    let mut order: Vec<usize> = Vec::new();
    let mut b: usize = 0;
    while b < bs.len()
        invariant
            b <= bs@.len(),
            order@.len() == b,
            forall|t: int| 0 <= t < order@.len() ==> #[trigger] order@[t] < b,
            forall|k: int| 0 <= k < b ==> #[trigger] order@.contains(k as usize),
            forall|t1: int, t2: int|
                #![trigger order@[t1], order@[t2]]
                0 <= t1 < t2 < order@.len() ==> bucket_le(bs@[order@[t1] as int], bs@[order@[t2] as int]),
        decreases bs@.len() - b,
    {
        let mut p: usize = 0;
        while p < order.len() && bucket_le_exec(&bs[order[p]], &bs[b])
            invariant
                p <= order@.len(),
                b < bs@.len(),
                forall|t: int| 0 <= t < order@.len() ==> #[trigger] order@[t] < b,
                forall|t: int| 0 <= t < p ==> bucket_le(bs@[#[trigger] order@[t] as int], bs@[b as int]),
            decreases order@.len() - p,
        {
            p = p + 1;
        }
        let ghost pre = order@;
        order.insert(p, b);
        proof {
            if p < pre.len() {
                lemma_bucket_le_total(bs@[pre[p as int] as int], bs@[b as int]);
            }
            assert forall|t1: int, t2: int| 0 <= t1 < t2 < order@.len() implies bucket_le(
                bs@[#[trigger] order@[t1] as int],
                bs@[#[trigger] order@[t2] as int],
            ) by {
                if t2 < p {
                    assert(order@[t1] == pre[t1] && order@[t2] == pre[t2]);
                } else if t2 == p {
                    assert(order@[t1] == pre[t1]);
                } else if t1 < p {
                    assert(order@[t1] == pre[t1] && order@[t2] == pre[t2 - 1]);
                } else if t1 == p {
                    assert(order@[t2] == pre[t2 - 1]);
                    if t2 - 1 > p {
                        assert(pre[p as int] == pre[p as int] && pre[t2 - 1] == pre[t2 - 1]);
                        lemma_bucket_le_trans(
                            bs@[b as int],
                            bs@[pre[p as int] as int],
                            bs@[pre[t2 - 1] as int],
                        );
                    }
                } else {
                    assert(order@[t1] == pre[t1 - 1] && order@[t2] == pre[t2 - 1]);
                }
            }
            assert forall|t: int| 0 <= t < order@.len() implies #[trigger] order@[t] < b + 1 by {
                if t < p {
                    assert(order@[t] == pre[t]);
                } else if t > p {
                    assert(order@[t] == pre[t - 1]);
                }
            }
            assert forall|k: int| 0 <= k < b + 1 implies #[trigger] order@.contains(k as usize) by {
                if k == b {
                    assert(order@[p as int] == b);
                } else {
                    assert(pre.contains(k as usize));
                    let t = choose|t: int| 0 <= t < pre.len() && pre[t] == k as usize;
                    if t < p {
                        assert(order@[t] == pre[t]);
                    } else {
                        assert(order@[t + 1] == pre[t]);
                    }
                }
            }
        }
        b = b + 1;
    }
    order
}

} // verus!
verus! {

/// Bucket `b` lies before the range that a query on `key` and `target`
/// starts at: before the key, or, unless only the key bounds the range,
/// under the key with a smaller value.
pub open spec fn before_range(b: MetadataBucket, key: Seq<char>, target: MetadataValue, key_only: bool) -> bool {
    key_cmp(b.key, key) < 0 || (!key_only && key_cmp(b.key, key) == 0 && value_cmp(b.value, target)
        < 0)
}

proof fn lemma_before_range_down(
    a: MetadataBucket,
    b: MetadataBucket,
    key: Seq<char>,
    target: MetadataValue,
    key_only: bool,
)
    requires
        bucket_le(a, b),
        before_range(b, key, target, key_only),
    ensures
        before_range(a, key, target, key_only),
{
    lemma_key_cmp_trans(a.key, b.key, key);
    lemma_key_cmp_zero(a.key, b.key@);
    if key_cmp(a.key, b.key@) == 0 && key_cmp(b.key, key) == 0 {
        lemma_value_cmp_trans(a.value, b.value, target);
    }
}

fn before_range_exec(b: &MetadataBucket, key: &String, target: &MetadataValue, key_only: bool) -> (r: bool)
    ensures
        r == before_range(*b, key@, *target, key_only),
{
    let kc = compare_keys(&b.key, key);
    kc < 0 || (!key_only && kc == 0 && b.value.compare(target) < 0)
}

/// Answers a comparison on `key` by a range scan over the sorted positions:
/// a binary search finds where the range starts, and the scan stops where it
/// ends.
pub fn range_scan(
    bs: &Vec<MetadataBucket>,
    order: &Vec<usize>,
    key: &String,
    target: &MetadataValue,
    op: PrimitiveOperator,
) -> (r: RoaringBitmap)
    requires
        ordered_by(bs@, order@),
        op != PrimitiveOperator::NotEqual,
    ensures
        bitmap_ids(r) == buckets_ids(bs@, key@, *target, op),
{
    let key_only = op == PrimitiveOperator::LessThan || op == PrimitiveOperator::LessThanOrEqual;
    let n = order.len();
    let mut lo: usize = 0;
    let mut hi: usize = n;
    while lo < hi
        invariant
            ordered_by(bs@, order@),
            n == order@.len(),
            lo <= hi <= n,
            forall|t: int|
                0 <= t < lo ==> before_range(bs@[#[trigger] order@[t] as int], key@, *target, key_only),
            forall|t: int|
                hi <= t < n ==> !before_range(bs@[#[trigger] order@[t] as int], key@, *target, key_only),
        decreases hi - lo,
    {
        let mid = lo + (hi - lo) / 2;
        if before_range_exec(&bs[order[mid]], key, target, key_only) {
            proof {
                assert forall|t: int| 0 <= t < mid + 1 implies before_range(
                    bs@[#[trigger] order@[t] as int],
                    key@,
                    *target,
                    key_only,
                ) by {
                    if t < mid {
                        assert(order@[t] == order@[t] && order@[mid as int] == order@[mid as int]);
                        lemma_before_range_down(bs@[order@[t] as int], bs@[order@[mid as int] as int], key@, *target, key_only);
                    }
                }
            }
            lo = mid + 1;
        } else {
            proof {
                assert forall|t: int| mid <= t < n implies !before_range(
                    bs@[#[trigger] order@[t] as int],
                    key@,
                    *target,
                    key_only,
                ) by {
                    if t > mid {
                        assert(order@[t] == order@[t] && order@[mid as int] == order@[mid as int]);
                        if before_range(bs@[order@[t] as int], key@, *target, key_only) {
                            lemma_before_range_down(bs@[order@[mid as int] as int], bs@[order@[t] as int], key@, *target, key_only);
                        }
                    }
                }
            }
            hi = mid;
        }
    }
    let start = lo;
    let mut acc = bitmap_new();
    let mut t: usize = start;
    let mut done = false;
    while t < n && !done
        invariant
            ordered_by(bs@, order@),
            n == order@.len(),
            key_only == (op == PrimitiveOperator::LessThan || op == PrimitiveOperator::LessThanOrEqual),
            start <= t <= n,
            forall|t2: int|
                0 <= t2 < start ==> before_range(bs@[#[trigger] order@[t2] as int], key@, *target, key_only),
            forall|t2: int|
                start <= t2 < n ==> !before_range(bs@[#[trigger] order@[t2] as int], key@, *target, key_only),
            forall|x: u32|
                bitmap_ids(acc).contains(x) <==> exists|t2: int|
                    #![trigger order@[t2]]
                    start <= t2 < t && bs@[order@[t2] as int].key@ == key@ && satisfies(
                        bs@[order@[t2] as int].value,
                        *target,
                        op,
                    ) && bitmap_ids(bs@[order@[t2] as int].ids).contains(x),
            done ==> forall|t2: int|
                t <= t2 < n ==> !(bs@[#[trigger] order@[t2] as int].key@ == key@ && satisfies(
                    bs@[order@[t2] as int].value,
                    *target,
                    op,
                )),
        decreases n - t + (if done { 0int } else { 1int }),
    {
        let b = &bs[order[t]];
        let kc = compare_keys(&b.key, key);
        proof {
            lemma_key_cmp_zero(b.key, key@);
        }
        if kc != 0 {
            proof {
                assert forall|t2: int| t <= t2 < n implies !(bs@[#[trigger] order@[t2] as int].key@ == key@
                    && satisfies(bs@[order@[t2] as int].value, *target, op)) by {
                    let c = bs@[order@[t2] as int];
                    assert(order@[t as int] == order@[t as int]);
                    lemma_key_cmp_zero(c.key, key@);
                    if t2 > t {
                        lemma_key_cmp_antisym(b.key, c.key);
                        lemma_key_cmp_zero(b.key, c.key@);
                        if key_cmp(c.key, key@) <= 0 {
                            lemma_key_cmp_trans(b.key, c.key, key@);
                        }
                    }
                }
            }
            done = true;
        } else if b.value.satisfies(target, op) {
            acc = bitmap_union(&acc, &b.ids);
            t = t + 1;
        } else if op == PrimitiveOperator::Equal || key_only {
            proof {
                assert forall|t2: int| t <= t2 < n implies !(bs@[#[trigger] order@[t2] as int].key@ == key@
                    && satisfies(bs@[order@[t2] as int].value, *target, op)) by {
                    let c = bs@[order@[t2] as int];
                    assert(order@[t as int] == order@[t as int]);
                    if t2 > t && c.key@ == key@ {
                        lemma_key_cmp_zero(b.key, c.key@);
                        lemma_key_cmp_zero(c.key, key@);
                        if value_cmp(c.value, *target) <= 0 {
                            lemma_value_cmp_trans(b.value, c.value, *target);
                        }
                    }
                }
            }
            done = true;
        } else {
            t = t + 1;
        }
    }
    proof {
        assert forall|x: u32| #[trigger] buckets_ids(bs@, key@, *target, op).contains(x) implies bitmap_ids(
            acc,
        ).contains(x) by {
            let k = choose|k: int|
                #![trigger bs@[k]]
                0 <= k < bs@.len() && bs@[k].key@ == key@ && satisfies(bs@[k].value, *target, op)
                    && bitmap_ids(bs@[k].ids).contains(x);
            assert(order@.contains(k as usize));
            let t2 = choose|t2: int| 0 <= t2 < order@.len() && order@[t2] == k as usize;
            lemma_key_cmp_zero(bs@[k].key, key@);
            assert(order@[t2] == order@[t2]);
            if t2 < start {
                assert(before_range(bs@[k], key@, *target, key_only));
            }
        }
        assert forall|x: u32| #[trigger] bitmap_ids(acc).contains(x) implies buckets_ids(
            bs@,
            key@,
            *target,
            op,
        ).contains(x) by {
            let t2 = choose|t2: int|
                #![trigger order@[t2]]
                start <= t2 < t && bs@[order@[t2] as int].key@ == key@ && satisfies(
                    bs@[order@[t2] as int].value,
                    *target,
                    op,
                ) && bitmap_ids(bs@[order@[t2] as int].ids).contains(x);
            let k = order@[t2] as int;
            assert(bs@[k] == bs@[k]);
        }
        assert(bitmap_ids(acc) =~= buckets_ids(bs@, key@, *target, op));
    }
    acc
}

} // verus!
