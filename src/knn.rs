//! Nearest-neighbour selection over the log: the `k` closest eligible
//! records, in ascending order of distance.
use crate::filter::{ErrorCodes, FetchLogOutput, UpstreamError};
use crate::log_reader::MaterializedLogOperation;
use crate::selection::{selects, SelectionModel, SignedRoaringBitmap};
use vstd::prelude::*;

verus! {

/// A record's identifier and its distance to the query. The distance is held
/// as the signed integer whose order is the total order of the
/// floating-point distance.
#[derive(Clone, Copy, Debug)]
pub struct Distance {
    pub oid: u32,
    pub measure: i32,
}

/// The order of two distances: by measure alone.
pub open spec fn distance_order(a: Distance, b: Distance) -> core::cmp::Ordering {
    if a.measure < b.measure {
        core::cmp::Ordering::Less
    } else if a.measure > b.measure {
        core::cmp::Ordering::Greater
    } else {
        core::cmp::Ordering::Equal
    }
}

impl PartialEq for Distance {
    fn eq(&self, other: &Distance) -> (r: bool) {
        self.measure == other.measure
    }
}

impl vstd::std_specs::cmp::PartialEqSpecImpl for Distance {
    open spec fn obeys_eq_spec() -> bool {
        true
    }

    open spec fn eq_spec(&self, other: &Distance) -> bool {
        self.measure == other.measure
    }
}

impl Eq for Distance {

}

impl PartialOrd for Distance {
    fn partial_cmp(&self, other: &Distance) -> (r: Option<core::cmp::Ordering>) {
        if self.measure < other.measure {
            Some(core::cmp::Ordering::Less)
        } else if self.measure > other.measure {
            Some(core::cmp::Ordering::Greater)
        } else {
            Some(core::cmp::Ordering::Equal)
        }
    }
}

impl vstd::std_specs::cmp::PartialOrdSpecImpl for Distance {
    open spec fn obeys_partial_cmp_spec() -> bool {
        true
    }

    open spec fn partial_cmp_spec(&self, other: &Distance) -> Option<core::cmp::Ordering> {
        Some(distance_order(*self, *other))
    }
}

/// A record of the materialized log, with its distance to the query.
#[derive(Clone, Copy, Debug)]
pub struct LogDistance {
    pub offset_id: u32,
    pub final_operation: MaterializedLogOperation,
    pub measure: i32,
}

/// The nearest records, with the log handle passed through.
#[derive(Debug)]
pub struct KnnLogOutput {
    pub logs: FetchLogOutput,
    pub distances: Vec<Distance>,
}

#[derive(Debug)]
pub enum KnnLogError {
    FetchLog(UpstreamError),
    FetchSegment(UpstreamError),
    LogMaterializer(UpstreamError),
}

impl KnnLogError {
    /// The status code of the failure.
    pub fn code(&self) -> (r: ErrorCodes)
        ensures
            r == match self {
                KnnLogError::FetchLog(e) => e.code,
                KnnLogError::FetchSegment(e) => e.code,
                KnnLogError::LogMaterializer(e) => e.code,
            },
    {
        match self {
            KnnLogError::FetchLog(e) => e.code,
            KnnLogError::FetchSegment(e) => e.code,
            KnnLogError::LogMaterializer(e) => e.code,
        }
    }
}

/// A record takes part: it is not deleted and the prefilter selects it.
pub open spec fn eligible(c: LogDistance, sel: SelectionModel) -> bool {
    c.final_operation != MaterializedLogOperation::DeleteExisting && selects(sel, c.offset_id)
}

/// `r` lists the candidates at positions `idx`, in ascending order of
/// distance, at most `k` of them; every eligible candidate is listed when
/// fewer than `k` are, and none left out is closer than one listed.
pub open spec fn nearest_witness(
    cs: Seq<LogDistance>,
    sel: SelectionModel,
    k: int,
    r: Seq<Distance>,
    idx: Seq<int>,
) -> bool {
    &&& idx.len() == r.len()
    &&& r.len() <= k
    &&& forall|t: int|
        #![trigger idx[t]]
        0 <= t < idx.len() ==> 0 <= idx[t] < cs.len() && eligible(cs[idx[t]], sel) && r[t].oid
            == cs[idx[t]].offset_id && r[t].measure == cs[idx[t]].measure
    &&& forall|t1: int, t2: int|
        #![trigger idx[t1], idx[t2]]
        0 <= t1 < idx.len() && 0 <= t2 < idx.len() && t1 != t2 ==> idx[t1] != idx[t2]
    &&& forall|t1: int, t2: int|
        #![trigger r[t1], r[t2]]
        0 <= t1 < t2 < r.len() ==> r[t1].measure <= r[t2].measure
    &&& forall|j: int|
        #![trigger cs[j]]
        0 <= j < cs.len() && eligible(cs[j], sel) && !idx.contains(j) ==> r.len() == k && forall|
            t: int,
        |
            #![trigger r[t]]
            0 <= t < r.len() ==> r[t].measure <= cs[j].measure
}

/// `r` is the `k` nearest eligible candidates in ascending order.
pub open spec fn is_nearest(cs: Seq<LogDistance>, sel: SelectionModel, k: int, r: Seq<Distance>) -> bool {
    exists|idx: Seq<int>| nearest_witness(cs, sel, k, r, idx)
}

/// The positions `best` index eligible candidates before `i`, sorted by
/// distance, at most `k`, and none left out is closer than one kept.
pub open spec fn heap_inv(cs: Seq<LogDistance>, sel: SelectionModel, k: int, i: int, best: Seq<usize>) -> bool {
    &&& best.len() <= k
    &&& forall|t: int|
        #![trigger best[t]]
        0 <= t < best.len() ==> best[t] < i && eligible(cs[best[t] as int], sel)
    &&& forall|t1: int, t2: int|
        #![trigger best[t1], best[t2]]
        0 <= t1 < best.len() && 0 <= t2 < best.len() && t1 != t2 ==> best[t1] != best[t2]
    &&& forall|t1: int, t2: int|
        #![trigger best[t1], best[t2]]
        0 <= t1 < t2 < best.len() ==> cs[best[t1] as int].measure <= cs[best[t2] as int].measure
    &&& forall|j: int|
        #![trigger cs[j]]
        0 <= j < i && eligible(cs[j], sel) && !best.contains(j as usize) ==> best.len() == k
            && forall|t: int|
            #![trigger best[t]]
            0 <= t < best.len() ==> cs[best[t] as int].measure <= cs[j].measure
}

/// Inserts position `j` into `best` after every position at least as close.
fn insert_sorted(cs: &Vec<LogDistance>, best: &mut Vec<usize>, j: usize)
    requires
        j < cs@.len(),
        forall|t: int| 0 <= t < old(best)@.len() ==> #[trigger] old(best)@[t] < cs@.len(),
        forall|t1: int, t2: int|
            #![trigger old(best)@[t1], old(best)@[t2]]
            0 <= t1 < t2 < old(best)@.len() ==> cs@[old(best)@[t1] as int].measure
                <= cs@[old(best)@[t2] as int].measure,
    ensures
        exists|p: int| 0 <= p <= old(best)@.len() && final(best)@ == old(best)@.insert(p, j),
        forall|t1: int, t2: int|
            #![trigger final(best)@[t1], final(best)@[t2]]
            0 <= t1 < t2 < final(best)@.len() ==> cs@[final(best)@[t1] as int].measure
                <= cs@[final(best)@[t2] as int].measure,
{
    let m = cs[j].measure;
    let mut p: usize = 0;
    while p < best.len() && cs[best[p]].measure <= m
        invariant
            p <= best@.len(),
            forall|t: int| 0 <= t < best@.len() ==> #[trigger] best@[t] < cs@.len(),
            forall|t: int| 0 <= t < p ==> cs@[#[trigger] best@[t] as int].measure <= m,
        decreases best@.len() - p,
    {
        p = p + 1;
    }
    let ghost pre = best@;
    best.insert(p, j);
    assert forall|t1: int, t2: int| 0 <= t1 < t2 < best@.len() implies cs@[#[trigger] best@[t1] as int].measure
        <= cs@[#[trigger] best@[t2] as int].measure by {
        if t2 < p {
            assert(best@[t1] == pre[t1] && best@[t2] == pre[t2]);
        } else if t2 == p {
            assert(best@[t1] == pre[t1]);
        } else if t1 < p {
            assert(best@[t1] == pre[t1] && best@[t2] == pre[t2 - 1]);
            assert(cs@[pre[p as int] as int].measure > m);
            if t2 - 1 > p {
                assert(pre[p as int] == pre[p as int] && pre[t2 - 1] == pre[t2 - 1]);
            }
        } else if t1 == p {
            assert(best@[t2] == pre[t2 - 1]);
            assert(cs@[pre[p as int] as int].measure > m);
            if t2 - 1 > p {
                assert(pre[p as int] == pre[p as int] && pre[t2 - 1] == pre[t2 - 1]);
            }
        } else {
            assert(best@[t1] == pre[t1 - 1] && best@[t2] == pre[t2 - 1]);
        }
    }
}

} // verus!
verus! {

/// The `fetch` nearest records of the log that are not deleted and that the
/// prefilter selects, in ascending order of distance. A record replaces the
/// farthest one kept only when it is strictly closer.
pub fn knn_log(candidates: &Vec<LogDistance>, log_oids: &SignedRoaringBitmap, fetch: u32) -> (r: Vec<
    Distance,
>)
    ensures
        is_nearest(candidates@, log_oids@, fetch as int, r@),
{
    let ghost cs = candidates@;
    let ghost sel = log_oids@;
    let k = fetch as usize;
    let mut best: Vec<usize> = Vec::new();
    let mut i: usize = 0;
    while i < candidates.len()
        invariant
            cs == candidates@,
            sel == log_oids@,
            k == fetch as int,
            i <= cs.len(),
            heap_inv(cs, sel, k as int, i as int, best@),
        decreases cs.len() - i,
    {
        let c = candidates[i];
        if c.final_operation != MaterializedLogOperation::DeleteExisting && log_oids.contains(
            c.offset_id,
        ) {
            let ghost pre = best@;
            if best.len() < k {
                insert_sorted(candidates, &mut best, i);
                proof {
                    lemma_insert_keeps(cs, sel, k as int, i, pre, best@);
                }
            } else if k > 0 && c.measure < candidates[best[best.len() - 1]].measure {
                best.pop();
                let ghost popped = best@;
                assert(popped =~= pre.drop_last());
                insert_sorted(candidates, &mut best, i);
                proof {
                    lemma_replace_keeps(cs, sel, k as int, i, pre, best@);
                }
            } else {
                proof {
                    assert forall|j: int|
                        #![trigger cs[j]]
                        0 <= j < i + 1 && eligible(cs[j], sel) && !best@.contains(j as usize) implies best@.len() == k
                            && forall|t: int|
                            #![trigger best@[t]]
                            0 <= t < best@.len() ==> cs[best@[t] as int].measure <= cs[j].measure by {
                        if j == i && k > 0 {
                            assert forall|t: int| 0 <= t < best@.len() implies cs[#[trigger] best@[t] as int].measure
                                <= cs[j].measure by {
                                if t < best@.len() - 1 {
                                    assert(best@[t] == best@[t] && best@[best@.len() - 1] == best@[best@.len() - 1]);
                                }
                            }
                        }
                    }
                }
            }
        } else {
            proof {
                assert forall|j: int|
                    #![trigger cs[j]]
                    0 <= j < i + 1 && eligible(cs[j], sel) && !best@.contains(j as usize) implies best@.len() == k
                        && forall|t: int|
                        #![trigger best@[t]]
                        0 <= t < best@.len() ==> cs[best@[t] as int].measure <= cs[j].measure by {
                    assert(j < i);
                }
            }
        }
        i = i + 1;
    }
    let mut r: Vec<Distance> = Vec::new();
    let mut t: usize = 0;
    while t < best.len()
        invariant
            cs == candidates@,
            t <= best@.len(),
            r@.len() == t,
            heap_inv(cs, sel, k as int, cs.len() as int, best@),
            forall|t2: int|
                #![trigger r@[t2]]
                0 <= t2 < t ==> r@[t2].oid == cs[best@[t2] as int].offset_id && r@[t2].measure
                    == cs[best@[t2] as int].measure,
        decreases best@.len() - t,
    {
        let c = candidates[best[t]];
        r.push(Distance { oid: c.offset_id, measure: c.measure });
        t = t + 1;
    }
    proof {
        let idx = best@.map_values(|v: usize| v as int);
        assert forall|t1: int, t2: int| 0 <= t1 < t2 < r@.len() implies r@[t1].measure <= r@[t2].measure by {
            assert(best@[t1] == best@[t1] && best@[t2] == best@[t2]);
        }
        assert forall|t: int| 0 <= t < idx.len() implies 0 <= #[trigger] idx[t] < cs.len() && eligible(
            cs[idx[t]],
            sel,
        ) && r@[t].oid == cs[idx[t]].offset_id && r@[t].measure == cs[idx[t]].measure by {
            assert(idx[t] == best@[t] as int);
            assert(r@[t] == r@[t]);
        }
        assert forall|t1: int, t2: int|
            0 <= t1 < idx.len() && 0 <= t2 < idx.len() && t1 != t2 implies #[trigger] idx[t1]
            != #[trigger] idx[t2] by {
            assert(best@[t1] == best@[t1] && best@[t2] == best@[t2]);
        }
        assert forall|j: int|
            #![trigger cs[j]]
            0 <= j < cs.len() && eligible(cs[j], sel) && !idx.contains(j) implies r@.len() == k
                && forall|t: int| #![trigger r@[t]] 0 <= t < r@.len() ==> r@[t].measure <= cs[j].measure by {
            if best@.contains(j as usize) {
                let t = choose|t: int| 0 <= t < best@.len() && best@[t] == j as usize;
                assert(idx[t] == j);
            }
            assert forall|t: int| 0 <= t < r@.len() implies #[trigger] r@[t].measure <= cs[j].measure by {
                assert(best@[t] == best@[t]);
            }
        }
        assert(nearest_witness(cs, sel, k as int, r@, idx));
    }
    r
}

proof fn lemma_insert_keeps(
    cs: Seq<LogDistance>,
    sel: SelectionModel,
    k: int,
    i: usize,
    pre: Seq<usize>,
    post: Seq<usize>,
)
    requires
        i < cs.len(),
        eligible(cs[i as int], sel),
        heap_inv(cs, sel, k, i as int, pre),
        pre.len() < k,
        exists|p: int| 0 <= p <= pre.len() && post == pre.insert(p, i),
        forall|t1: int, t2: int|
            #![trigger post[t1], post[t2]]
            0 <= t1 < t2 < post.len() ==> cs[post[t1] as int].measure <= cs[post[t2] as int].measure,
    ensures
        heap_inv(cs, sel, k, i + 1, post),
{
    let p = choose|p: int| 0 <= p <= pre.len() && post == pre.insert(p, i);
    assert forall|t: int| 0 <= t < post.len() implies #[trigger] post[t] < i + 1 && eligible(
        cs[post[t] as int],
        sel,
    ) by {
        if t < p {
            assert(post[t] == pre[t]);
        } else if t > p {
            assert(post[t] == pre[t - 1]);
        }
    }
    assert forall|t1: int, t2: int|
        0 <= t1 < post.len() && 0 <= t2 < post.len() && t1 != t2 implies #[trigger] post[t1]
        != #[trigger] post[t2] by {
        let a = if t1 < p { t1 } else { t1 - 1 };
        let b = if t2 < p { t2 } else { t2 - 1 };
        if t1 != p && t2 != p {
            assert(post[t1] == pre[a] && post[t2] == pre[b]);
        } else if t1 == p {
            assert(post[t2] == pre[b]);
        } else {
            assert(post[t1] == pre[a]);
        }
    }
    assert forall|j: int|
        0 <= j < i + 1 && eligible(#[trigger] cs[j], sel) && !post.contains(j as usize) implies false by {
        if j == i as int {
            assert(post[p] == i);
        } else {
            assert(pre.contains(j as usize));
            let t = choose|t: int| 0 <= t < pre.len() && pre[t] == j as usize;
            if t < p {
                assert(post[t] == pre[t]);
            } else {
                assert(post[t + 1] == pre[t]);
            }
        }
    }
}

proof fn lemma_replace_keeps(
    cs: Seq<LogDistance>,
    sel: SelectionModel,
    k: int,
    i: usize,
    pre: Seq<usize>,
    post: Seq<usize>,
)
    requires
        i < cs.len(),
        eligible(cs[i as int], sel),
        heap_inv(cs, sel, k, i as int, pre),
        pre.len() == k,
        k > 0,
        cs[i as int].measure < cs[pre.last() as int].measure,
        exists|p: int| 0 <= p <= pre.len() - 1 && post == pre.drop_last().insert(p, i),
        forall|t1: int, t2: int|
            #![trigger post[t1], post[t2]]
            0 <= t1 < t2 < post.len() ==> cs[post[t1] as int].measure <= cs[post[t2] as int].measure,
    ensures
        heap_inv(cs, sel, k, i + 1, post),
{
    let p = choose|p: int| 0 <= p <= pre.len() - 1 && post == pre.drop_last().insert(p, i);
    let n = pre.len() - 1;
    let far = pre[n];
    let fm = cs[far as int].measure;
    assert forall|t: int| 0 <= t < pre.len() implies cs[#[trigger] pre[t] as int].measure <= fm by {
        if t < n {
            assert(pre[t] == pre[t] && pre[n] == pre[n]);
        }
    }
    assert forall|t: int| 0 <= t < post.len() implies #[trigger] post[t] < i + 1 && eligible(
        cs[post[t] as int],
        sel,
    ) && cs[post[t] as int].measure <= fm by {
        if t < p {
            assert(post[t] == pre[t]);
        } else if t > p {
            assert(post[t] == pre[t - 1]);
        }
    }
    assert forall|t1: int, t2: int|
        0 <= t1 < post.len() && 0 <= t2 < post.len() && t1 != t2 implies #[trigger] post[t1]
        != #[trigger] post[t2] by {
        let a = if t1 < p { t1 } else { t1 - 1 };
        let b = if t2 < p { t2 } else { t2 - 1 };
        if t1 != p && t2 != p {
            assert(post[t1] == pre[a] && post[t2] == pre[b]);
        } else if t1 == p {
            assert(post[t2] == pre[b]);
        } else {
            assert(post[t1] == pre[a]);
        }
    }
    assert forall|j: int|
        #![trigger cs[j]]
        0 <= j < i + 1 && eligible(cs[j], sel) && !post.contains(j as usize) implies post.len() == k
            && forall|t: int|
            #![trigger post[t]]
            0 <= t < post.len() ==> cs[post[t] as int].measure <= cs[j].measure by {
        if j == i as int {
            assert(post[p] == i);
        } else if j == far as int {
        } else {
            if pre.contains(j as usize) {
                let t = choose|t: int| 0 <= t < pre.len() && pre[t] == j as usize;
                if t == n {
                } else if t < p {
                    assert(post[t] == pre[t]);
                } else {
                    assert(post[t + 1] == pre[t]);
                }
            } else {
                assert(cs[pre[n] as int].measure <= cs[j].measure);
            }
        }
    }
}

} // verus!
