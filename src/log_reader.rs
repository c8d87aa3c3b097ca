//! A queryable index over the materialized write log.
use crate::bitmap::{bitmap_clone, bitmap_ids, bitmap_insert, bitmap_new};
use crate::index::{
    add_entry, bucket_for, buckets_distinct, buckets_ids, ordered_by, range_scan, sort_positions,
    MetadataBucket,
};
use crate::metadata::{lemma_cmp_zero_congruent, lemma_cmp_zero_self, satisfies, value_cmp, MetadataValue, PrimitiveOperator};
use crate::text::{is_substring, text_contains};
use roaring::RoaringBitmap;
use vstd::prelude::*;

verus! {

/// The final state of one entity after the log was merged.
#[derive(Clone, Copy, Debug, PartialEq, Eq, Structural)]
pub enum MaterializedLogOperation {
    Initial,
    AddNew,
    OverwriteExisting,
    UpdateExisting,
    DeleteExisting,
}

/// One entity of the materialized log, with its merged metadata and document.
#[derive(Debug)]
pub struct MaterializedLogRecord {
    pub offset_id: u32,
    pub user_id: String,
    pub final_operation: MaterializedLogOperation,
    pub metadata: Vec<(String, MetadataValue)>,
    pub document: Option<String>,
}

/// The record still exists after the log.
pub open spec fn is_live(r: MaterializedLogRecord) -> bool {
    r.final_operation != MaterializedLogOperation::DeleteExisting
}

/// The record supersedes or deletes a persisted one.
pub open spec fn is_touched(r: MaterializedLogRecord) -> bool {
    !(r.final_operation == MaterializedLogOperation::Initial || r.final_operation
        == MaterializedLogOperation::AddNew)
}

/// Entry `j` of the metadata of live record `i`.
pub open spec fn live_entry(recs: Seq<MaterializedLogRecord>, i: int, j: int) -> bool {
    0 <= i < recs.len() && is_live(recs[i]) && 0 <= j < recs[i].metadata@.len()
}

/// The live records whose metadata under `key` stands in relation `op` to
/// `target`.
pub open spec fn log_metadata_ids(
    recs: Seq<MaterializedLogRecord>,
    key: Seq<char>,
    target: MetadataValue,
    op: PrimitiveOperator,
) -> Set<u32> {
    Set::new(
        |x: u32|
            exists|i: int, j: int|
                #![trigger recs[i].metadata@[j]]
                live_entry(recs, i, j) && recs[i].offset_id == x && recs[i].metadata@[j].0@ == key
                    && satisfies(recs[i].metadata@[j].1, target, op),
    )
}

/// Whether a document is present and contains `query`.
pub open spec fn document_contains(doc: Option<String>, query: Seq<char>) -> bool {
    match doc {
        Some(d) => is_substring(query, d@),
        None => false,
    }
}

/// The live records whose document contains `query`.
pub open spec fn log_document_ids(recs: Seq<MaterializedLogRecord>, query: Seq<char>) -> Set<u32> {
    Set::new(
        |x: u32|
            exists|i: int|
                #![trigger recs[i]]
                0 <= i < recs.len() && is_live(recs[i]) && recs[i].offset_id == x
                    && document_contains(recs[i].document, query),
    )
}

/// The persisted identifiers that the log supersedes or deletes.
pub open spec fn log_touched_ids(recs: Seq<MaterializedLogRecord>) -> Set<u32> {
    Set::new(
        |x: u32|
            exists|i: int|
                #![trigger recs[i]]
                0 <= i < recs.len() && is_touched(recs[i]) && recs[i].offset_id == x,
    )
}

/// Whether one of `uids` is the string `u`.
pub open spec fn names(uids: Seq<String>, u: Seq<char>) -> bool {
    exists|q: int| #![trigger uids[q]] 0 <= q < uids.len() && uids[q]@ == u
}

/// The live records whose user id is one of `uids`.
pub open spec fn log_user_ids(recs: Seq<MaterializedLogRecord>, uids: Seq<String>) -> Set<u32> {
    Set::new(
        |x: u32|
            exists|i: int|
                #![trigger recs[i]]
                0 <= i < recs.len() && is_live(recs[i]) && recs[i].offset_id == x && names(
                    uids,
                    recs[i].user_id@,
                ),
    )
}

/// An entry under `key` equal to `val` comes before position `(i, j)` and
/// belongs to record `x`.
pub open spec fn posted(
    recs: Seq<MaterializedLogRecord>,
    i: int,
    j: int,
    key: Seq<char>,
    val: MetadataValue,
    x: u32,
) -> bool {
    exists|a: int, b: int|
        #![trigger recs[a].metadata@[b]]
        (a < i || (a == i && b < j)) && live_entry(recs, a, b) && recs[a].offset_id == x
            && recs[a].metadata@[b].0@ == key && value_cmp(recs[a].metadata@[b].1, val) == 0
}

/// The buckets index exactly the entries before position `(i, j)`.
pub open spec fn buckets_index(
    recs: Seq<MaterializedLogRecord>,
    i: int,
    j: int,
    bs: Seq<MetadataBucket>,
) -> bool {
    &&& buckets_distinct(bs)
    &&& forall|k: int, x: u32|
        #![trigger bitmap_ids(bs[k].ids).contains(x)]
        0 <= k < bs.len() ==> (bitmap_ids(bs[k].ids).contains(x) <==> posted(
            recs,
            i,
            j,
            bs[k].key@,
            bs[k].value,
            x,
        ))
    &&& forall|a: int, b: int|
        #![trigger live_entry(recs, a, b)]
        (a < i || (a == i && b < j)) && live_entry(recs, a, b) ==> exists|k: int|
            #![trigger bs[k]]
            0 <= k < bs.len() && bs[k].key@ == recs[a].metadata@[b].0@ && value_cmp(
                recs[a].metadata@[b].1,
                bs[k].value,
            ) == 0
}

} // verus!
verus! {

proof fn lemma_posted_step(
    recs: Seq<MaterializedLogRecord>,
    i: int,
    j: int,
    key: Seq<char>,
    val: MetadataValue,
    x: u32,
)
    requires
        live_entry(recs, i, j),
    ensures
        posted(recs, i, j + 1, key, val, x) == (posted(recs, i, j, key, val, x) || (
        recs[i].offset_id == x && recs[i].metadata@[j].0@ == key && value_cmp(
            recs[i].metadata@[j].1,
            val,
        ) == 0)),
{
    if posted(recs, i, j + 1, key, val, x) {
        let (a, b) = choose|a: int, b: int|
            #![trigger recs[a].metadata@[b]]
            (a < i || (a == i && b < j + 1)) && live_entry(recs, a, b) && recs[a].offset_id == x
                && recs[a].metadata@[b].0@ == key && value_cmp(recs[a].metadata@[b].1, val) == 0;
        if !(a == i && b == j) {
            assert(posted(recs, i, j, key, val, x));
        }
    }
    if recs[i].offset_id == x && recs[i].metadata@[j].0@ == key && value_cmp(
        recs[i].metadata@[j].1,
        val,
    ) == 0 {
        assert(posted(recs, i, j + 1, key, val, x));
    }
    if posted(recs, i, j, key, val, x) {
        let (a, b) = choose|a: int, b: int|
            #![trigger recs[a].metadata@[b]]
            (a < i || (a == i && b < j)) && live_entry(recs, a, b) && recs[a].offset_id == x
                && recs[a].metadata@[b].0@ == key && value_cmp(recs[a].metadata@[b].1, val) == 0;
        assert(posted(recs, i, j + 1, key, val, x));
    }
}

proof fn lemma_posted_next(
    recs: Seq<MaterializedLogRecord>,
    i: int,
    j: int,
    key: Seq<char>,
    val: MetadataValue,
    x: u32,
)
    requires
        0 <= i < recs.len(),
        j >= recs[i].metadata@.len() || !is_live(recs[i]),
    ensures
        posted(recs, i, j, key, val, x) == posted(recs, i + 1, 0, key, val, x),
{
    if posted(recs, i, j, key, val, x) {
        let (a, b) = choose|a: int, b: int|
            #![trigger recs[a].metadata@[b]]
            (a < i || (a == i && b < j)) && live_entry(recs, a, b) && recs[a].offset_id == x
                && recs[a].metadata@[b].0@ == key && value_cmp(recs[a].metadata@[b].1, val) == 0;
        assert(posted(recs, i + 1, 0, key, val, x));
    }
    if posted(recs, i + 1, 0, key, val, x) {
        let (a, b) = choose|a: int, b: int|
            #![trigger recs[a].metadata@[b]]
            (a < i + 1 || (a == i + 1 && b < 0)) && live_entry(recs, a, b) && recs[a].offset_id
                == x && recs[a].metadata@[b].0@ == key && value_cmp(recs[a].metadata@[b].1, val)
                == 0;
        assert(posted(recs, i, j, key, val, x));
    }
}

/// Buckets that index everything before the end of record `i` index
/// everything before record `i + 1`.
proof fn lemma_index_next(recs: Seq<MaterializedLogRecord>, i: int, j: int, bs: Seq<MetadataBucket>)
    requires
        0 <= i < recs.len(),
        j >= recs[i].metadata@.len() || !is_live(recs[i]),
        buckets_index(recs, i, j, bs),
    ensures
        buckets_index(recs, i + 1, 0, bs),
{
    assert forall|k: int, x: u32| 0 <= k < bs.len() implies (#[trigger] bitmap_ids(
        bs[k].ids,
    ).contains(x) <==> posted(recs, i + 1, 0, bs[k].key@, bs[k].value, x)) by {
        lemma_posted_next(recs, i, j, bs[k].key@, bs[k].value, x);
    }
    assert forall|a: int, b: int|
        #![trigger live_entry(recs, a, b)]
        (a < i + 1 || (a == i + 1 && b < 0)) && live_entry(recs, a, b) implies exists|k: int|
        #![trigger bs[k]]
        0 <= k < bs.len() && bs[k].key@ == recs[a].metadata@[b].0@ && value_cmp(
            recs[a].metadata@[b].1,
            bs[k].value,
        ) == 0 by {
        assert(a < i || (a == i && b < j));
        assert(recs[a].metadata@[b] == recs[a].metadata@[b]);
    }
}

/// Adding entry `(i, j)` to buckets that index what comes before it yields
/// buckets that index it too.
proof fn lemma_index_step(
    recs: Seq<MaterializedLogRecord>,
    i: int,
    j: int,
    old_bs: Seq<MetadataBucket>,
    new_bs: Seq<MetadataBucket>,
)
    requires
        live_entry(recs, i, j),
        buckets_index(recs, i, j, old_bs),
        buckets_distinct(new_bs),
        new_bs.len() >= old_bs.len(),
        forall|k: int|
            #![trigger new_bs[k]]
            0 <= k < old_bs.len() ==> new_bs[k].key == old_bs[k].key && new_bs[k].value
                == old_bs[k].value && bitmap_ids(new_bs[k].ids) == if bucket_for(
                old_bs[k],
                recs[i].metadata@[j].0@,
                recs[i].metadata@[j].1,
            ) {
                bitmap_ids(old_bs[k].ids).insert(recs[i].offset_id)
            } else {
                bitmap_ids(old_bs[k].ids)
            },
        forall|k: int|
            #![trigger new_bs[k]]
            old_bs.len() <= k < new_bs.len() ==> new_bs[k].key@ == recs[i].metadata@[j].0@
                && new_bs[k].value == recs[i].metadata@[j].1 && bitmap_ids(new_bs[k].ids) == set![
                recs[i].offset_id],
        exists|k: int|
            #![trigger new_bs[k]]
            0 <= k < new_bs.len() && bucket_for(
                new_bs[k],
                recs[i].metadata@[j].0@,
                recs[i].metadata@[j].1,
            ),
        new_bs.len() > old_bs.len() ==> forall|k: int|
            #![trigger old_bs[k]]
            0 <= k < old_bs.len() ==> !bucket_for(
                old_bs[k],
                recs[i].metadata@[j].0@,
                recs[i].metadata@[j].1,
            ),
    ensures
        buckets_index(recs, i, j + 1, new_bs),
{
    let key = recs[i].metadata@[j].0@;
    let val = recs[i].metadata@[j].1;
    let oid = recs[i].offset_id;
    assert forall|k: int, x: u32| 0 <= k < new_bs.len() implies (#[trigger] bitmap_ids(
        new_bs[k].ids,
    ).contains(x) <==> posted(recs, i, j + 1, new_bs[k].key@, new_bs[k].value, x)) by {
        lemma_posted_step(recs, i, j, new_bs[k].key@, new_bs[k].value, x);
        if k < old_bs.len() {
            assert(bitmap_ids(old_bs[k].ids).contains(x) <==> posted(
                recs,
                i,
                j,
                old_bs[k].key@,
                old_bs[k].value,
                x,
            ));
            if bucket_for(old_bs[k], key, val) {
                lemma_cmp_zero_congruent(val, old_bs[k].value, old_bs[k].value);
            } else if key == old_bs[k].key@ && value_cmp(val, old_bs[k].value) != 0 {
                if value_cmp(val, old_bs[k].value) == 0 {
                    lemma_cmp_zero_congruent(val, old_bs[k].value, val);
                }
            }
        } else {
            lemma_cmp_zero_self(val);
            if posted(recs, i, j, key, val, x) {
                let (a, b) = choose|a: int, b: int|
                    #![trigger recs[a].metadata@[b]]
                    (a < i || (a == i && b < j)) && live_entry(recs, a, b) && recs[a].offset_id
                        == x && recs[a].metadata@[b].0@ == key && value_cmp(
                        recs[a].metadata@[b].1,
                        val,
                    ) == 0;
                let k2 = choose|k2: int|
                    #![trigger old_bs[k2]]
                    0 <= k2 < old_bs.len() && old_bs[k2].key@ == recs[a].metadata@[b].0@
                        && value_cmp(recs[a].metadata@[b].1, old_bs[k2].value) == 0;
                lemma_cmp_zero_congruent(recs[a].metadata@[b].1, val, old_bs[k2].value);
                assert(bucket_for(old_bs[k2], key, val));
            }
        }
    }
    assert forall|a: int, b: int|
        #![trigger live_entry(recs, a, b)]
        (a < i || (a == i && b < j + 1)) && live_entry(recs, a, b) implies exists|k: int|
        #![trigger new_bs[k]]
        0 <= k < new_bs.len() && new_bs[k].key@ == recs[a].metadata@[b].0@
            && value_cmp(recs[a].metadata@[b].1, new_bs[k].value) == 0 by {
        if a == i && b == j {
            let k = choose|k: int|
                #![trigger new_bs[k]]
                0 <= k < new_bs.len() && bucket_for(new_bs[k], key, val);
            assert(new_bs[k].key@ == recs[a].metadata@[b].0@);
        } else {
            let k = choose|k: int|
                #![trigger old_bs[k]]
                0 <= k < old_bs.len() && old_bs[k].key@ == recs[a].metadata@[b].0@ && value_cmp(
                    recs[a].metadata@[b].1,
                    old_bs[k].value,
                ) == 0;
            assert(new_bs[k].key == old_bs[k].key);
        }
    }
}

} // verus!
verus! {

pub open spec fn touched_upto(recs: Seq<MaterializedLogRecord>, n: int) -> Set<u32> {
    Set::new(
        |x: u32|
            exists|i: int|
                #![trigger recs[i]]
                0 <= i < n && is_touched(recs[i]) && recs[i].offset_id == x,
    )
}

/// Whether the pairs hold `(u, x)`.
pub open spec fn pairs_hold(pairs: Seq<(String, u32)>, u: Seq<char>, x: u32) -> bool {
    exists|k: int| #![trigger pairs[k]] 0 <= k < pairs.len() && pairs[k].0@ == u && pairs[k].1 == x
}

/// Whether a live record among the first `n` has user id `u` and identifier `x`.
pub open spec fn user_upto(recs: Seq<MaterializedLogRecord>, n: int, u: Seq<char>, x: u32) -> bool {
    exists|i: int|
        #![trigger recs[i]]
        0 <= i < n && is_live(recs[i]) && recs[i].user_id@ == u && recs[i].offset_id == x
}

/// Whether the documents hold `(x, d)`.
pub open spec fn docs_hold(docs: Seq<(u32, String)>, x: u32, d: Seq<char>) -> bool {
    exists|k: int| #![trigger docs[k]] 0 <= k < docs.len() && docs[k].0 == x && docs[k].1@ == d
}

/// Whether a live record among the first `n` has identifier `x` and document `d`.
pub open spec fn doc_upto(recs: Seq<MaterializedLogRecord>, n: int, x: u32, d: Seq<char>) -> bool {
    exists|i: int|
        #![trigger recs[i]]
        0 <= i < n && is_live(recs[i]) && recs[i].offset_id == x && recs[i].document.is_some()
            && recs[i].document.unwrap()@ == d
}

/// An index over the materialized log, with the same query surface as the
/// persisted metadata index.
pub struct MetadataLogReader {
    compact_metadata: Vec<MetadataBucket>,
    // positions of `compact_metadata` in order of key, then value
    value_order: Vec<usize>,
    document: Vec<(u32, String)>,
    touched_oids: RoaringBitmap,
    uid_to_oid: Vec<(String, u32)>,
    source: Ghost<Seq<MaterializedLogRecord>>,
}

impl MetadataLogReader {
    /// The materialized log that this index was built from.
    pub closed spec fn source(&self) -> Seq<MaterializedLogRecord> {
        self.source@
    }

    /// The index agrees with its log.
    pub closed spec fn wf(&self) -> bool {
        let recs = self.source@;
        &&& buckets_index(recs, recs.len() as int, 0, self.compact_metadata@)
        &&& ordered_by(self.compact_metadata@, self.value_order@)
        &&& bitmap_ids(self.touched_oids) == touched_upto(recs, recs.len() as int)
        &&& forall|u: Seq<char>, x: u32|
            pairs_hold(self.uid_to_oid@, u, x) == user_upto(recs, recs.len() as int, u, x)
        &&& forall|x: u32, d: Seq<char>|
            docs_hold(self.document@, x, d) == doc_upto(recs, recs.len() as int, x, d)
    }

    /// Builds the index in one pass over the log.
    pub fn new(logs: &Vec<MaterializedLogRecord>) -> (r: MetadataLogReader)
        ensures
            r.wf(),
            r.source() == logs@,
    {
        let ghost recs = logs@;
        let mut compact_metadata: Vec<MetadataBucket> = Vec::new();
        let mut document: Vec<(u32, String)> = Vec::new();
        let mut touched_oids = bitmap_new();
        let mut uid_to_oid: Vec<(String, u32)> = Vec::new();
        let mut i: usize = 0;
        while i < logs.len()
            invariant
                recs == logs@,
                i <= recs.len(),
                buckets_index(recs, i as int, 0, compact_metadata@),
                bitmap_ids(touched_oids) == touched_upto(recs, i as int),
                forall|u: Seq<char>, x: u32|
                    pairs_hold(uid_to_oid@, u, x) == user_upto(recs, i as int, u, x),
                forall|x: u32, d: Seq<char>|
                    docs_hold(document@, x, d) == doc_upto(recs, i as int, x, d),
            decreases recs.len() - i,
        {
            let log = &logs[i];
            let ghost old_touched = bitmap_ids(touched_oids);
            if !(log.final_operation == MaterializedLogOperation::Initial || log.final_operation
                == MaterializedLogOperation::AddNew) {
                bitmap_insert(&mut touched_oids, log.offset_id);
            }
            assert(bitmap_ids(touched_oids) =~= touched_upto(recs, i + 1));
            let ghost old_uids = uid_to_oid@;
            let ghost old_docs = document@;
            if log.final_operation != MaterializedLogOperation::DeleteExisting {
                uid_to_oid.push((log.user_id.clone(), log.offset_id));
                let mut j: usize = 0;
                while j < log.metadata.len()
                    invariant
                        recs == logs@,
                        0 <= i < recs.len(),
                        *log == recs[i as int],
                        is_live(recs[i as int]),
                        j <= log.metadata@.len(),
                        buckets_index(recs, i as int, j as int, compact_metadata@),
                    decreases log.metadata@.len() - j,
                {
                    let ghost old_bs = compact_metadata@;
                    add_entry(&mut compact_metadata, &log.metadata[j].0, &log.metadata[j].1, log.offset_id);
                    proof {
                        lemma_index_step(recs, i as int, j as int, old_bs, compact_metadata@);
                    }
                    j = j + 1;
                }
                proof {
                    lemma_index_next(recs, i as int, j as int, compact_metadata@);
                }
                match &log.document {
                    Some(doc) => {
                        document.push((log.offset_id, doc.clone()));
                    },
                    None => {},
                }
            } else {
                proof {
                    lemma_index_next(recs, i as int, 0, compact_metadata@);
                }
            }
            assert forall|u: Seq<char>, x: u32|
                pairs_hold(uid_to_oid@, u, x) == user_upto(recs, i + 1, u, x) by {
                assert(pairs_hold(old_uids, u, x) == user_upto(recs, i as int, u, x));
                if pairs_hold(uid_to_oid@, u, x) {
                    let k = choose|k: int| #![trigger uid_to_oid@[k]] 0 <= k < uid_to_oid@.len()
                        && uid_to_oid@[k].0@ == u && uid_to_oid@[k].1 == x;
                    if k < old_uids.len() {
                        assert(old_uids[k] == uid_to_oid@[k]);
                    }
                }
                if user_upto(recs, i + 1, u, x) && !user_upto(recs, i as int, u, x) {
                    assert(uid_to_oid@[old_uids.len() as int] == uid_to_oid@[old_uids.len() as int]);
                }
                if pairs_hold(old_uids, u, x) {
                    let k = choose|k: int| #![trigger old_uids[k]] 0 <= k < old_uids.len()
                        && old_uids[k].0@ == u && old_uids[k].1 == x;
                    assert(old_uids[k] == uid_to_oid@[k]);
                }
            }
            assert forall|x: u32, d: Seq<char>|
                docs_hold(document@, x, d) == doc_upto(recs, i + 1, x, d) by {
                assert(docs_hold(old_docs, x, d) == doc_upto(recs, i as int, x, d));
                if docs_hold(document@, x, d) {
                    let k = choose|k: int| #![trigger document@[k]] 0 <= k < document@.len()
                        && document@[k].0 == x && document@[k].1@ == d;
                    if k < old_docs.len() {
                        assert(old_docs[k] == document@[k]);
                    }
                }
                if doc_upto(recs, i + 1, x, d) && !doc_upto(recs, i as int, x, d) {
                    assert(document@[old_docs.len() as int] == document@[old_docs.len() as int]);
                }
                if docs_hold(old_docs, x, d) {
                    let k = choose|k: int| #![trigger old_docs[k]] 0 <= k < old_docs.len()
                        && old_docs[k].0 == x && old_docs[k].1@ == d;
                    assert(old_docs[k] == document@[k]);
                }
            }
            i = i + 1;
        }
        let value_order = sort_positions(&compact_metadata);
        MetadataLogReader {
            compact_metadata,
            value_order,
            document,
            touched_oids,
            uid_to_oid,
            source: Ghost(recs),
        }
    }

    /// The live records whose metadata under `key` stands in relation `op`
    /// to `val`: a scan over the range of values that `op` admits.
    pub fn get(&self, key: &String, val: &MetadataValue, op: PrimitiveOperator) -> (r: RoaringBitmap)
        requires
            self.wf(),
            op != PrimitiveOperator::NotEqual,
        ensures
            bitmap_ids(r) == log_metadata_ids(self.source(), key@, *val, op),
    {
        let r = range_scan(&self.compact_metadata, &self.value_order, key, val, op);
        proof {
            let recs = self.source@;
            let bs = self.compact_metadata@;
            assert forall|x: u32| #[trigger]
                buckets_ids(bs, key@, *val, op).contains(x) implies log_metadata_ids(
                recs,
                key@,
                *val,
                op,
            ).contains(x) by {
                let k = choose|k: int|
                    #![trigger bs[k]]
                    0 <= k < bs.len() && bs[k].key@ == key@ && satisfies(bs[k].value, *val, op)
                        && bitmap_ids(bs[k].ids).contains(x);
                assert(bitmap_ids(bs[k].ids).contains(x));
                let (a, b) = choose|a: int, b: int|
                    #![trigger recs[a].metadata@[b]]
                    (a < recs.len() || (a == recs.len() && b < 0)) && live_entry(recs, a, b)
                        && recs[a].offset_id == x && recs[a].metadata@[b].0@ == bs[k].key@
                        && value_cmp(recs[a].metadata@[b].1, bs[k].value) == 0;
                lemma_cmp_zero_congruent(recs[a].metadata@[b].1, bs[k].value, *val);
            }
            assert forall|x: u32| #[trigger]
                log_metadata_ids(recs, key@, *val, op).contains(x) implies buckets_ids(
                bs,
                key@,
                *val,
                op,
            ).contains(x) by {
                let (a, b) = choose|a: int, b: int|
                    #![trigger recs[a].metadata@[b]]
                    live_entry(recs, a, b) && recs[a].offset_id == x && recs[a].metadata@[b].0@
                        == key@ && satisfies(recs[a].metadata@[b].1, *val, op);
                assert(live_entry(recs, a, b));
                let k = choose|k: int|
                    #![trigger bs[k]]
                    0 <= k < bs.len() && bs[k].key@ == recs[a].metadata@[b].0@ && value_cmp(
                        recs[a].metadata@[b].1,
                        bs[k].value,
                    ) == 0;
                lemma_cmp_zero_congruent(recs[a].metadata@[b].1, bs[k].value, *val);
                assert(posted(recs, recs.len() as int, 0, bs[k].key@, bs[k].value, x));
                assert(bitmap_ids(bs[k].ids).contains(x));
            }
            assert(bitmap_ids(r) =~= log_metadata_ids(recs, key@, *val, op));
        }
        r
    }

    /// The live records whose document contains `query`.
    pub fn filter_by_document(&self, query: &String) -> (r: RoaringBitmap)
        requires
            self.wf(),
        ensures
            bitmap_ids(r) == log_document_ids(self.source(), query@),
    {
        let mut r = bitmap_new();
        let mut k: usize = 0;
        while k < self.document.len()
            invariant
                k <= self.document@.len(),
                forall|x: u32|
                    bitmap_ids(r).contains(x) <==> exists|k2: int|
                        #![trigger self.document@[k2]]
                        0 <= k2 < k && self.document@[k2].0 == x && is_substring(
                            query@,
                            self.document@[k2].1@,
                        ),
            decreases self.document@.len() - k,
        {
            let (oid, doc) = &self.document[k];
            if text_contains(doc.as_str(), query.as_str()) {
                bitmap_insert(&mut r, *oid);
            }
            k = k + 1;
        }
        proof {
            let recs = self.source@;
            let docs = self.document@;
            assert forall|x: u32| #[trigger] bitmap_ids(r).contains(x) implies log_document_ids(
                recs,
                query@,
            ).contains(x) by {
                let k2 = choose|k2: int|
                    #![trigger docs[k2]]
                    0 <= k2 < docs.len() && docs[k2].0 == x && is_substring(query@, docs[k2].1@);
                assert(docs_hold(docs, x, docs[k2].1@));
            }
            assert forall|x: u32| #[trigger]
                log_document_ids(recs, query@).contains(x) implies bitmap_ids(r).contains(x) by {
                let i = choose|i: int|
                    #![trigger recs[i]]
                    0 <= i < recs.len() && is_live(recs[i]) && recs[i].offset_id == x
                        && document_contains(recs[i].document, query@);
                let d = recs[i].document.unwrap()@;
                assert(doc_upto(recs, recs.len() as int, x, d));
                assert(docs_hold(docs, x, d));
            }
            assert(bitmap_ids(r) =~= log_document_ids(recs, query@));
        }
        r
    }

    /// The persisted identifiers that the log supersedes or deletes.
    pub fn touched_oids(&self) -> (r: RoaringBitmap)
        requires
            self.wf(),
        ensures
            bitmap_ids(r) == log_touched_ids(self.source()),
    {
        proof {
            assert(touched_upto(self.source@, self.source@.len() as int) =~= log_touched_ids(
                self.source@,
            ));
        }
        bitmap_clone(&self.touched_oids)
    }

    /// The identifiers of the live records whose user id is one of `uids`;
    /// unknown ids are dropped.
    pub fn search_user_ids(&self, uids: &Vec<String>) -> (r: RoaringBitmap)
        requires
            self.wf(),
        ensures
            bitmap_ids(r) == log_user_ids(self.source(), uids@),
    {
        let mut r = bitmap_new();
        let mut q: usize = 0;
        while q < uids.len()
            invariant
                q <= uids@.len(),
                forall|x: u32|
                    bitmap_ids(r).contains(x) <==> exists|q2: int, k2: int|
                        #![trigger uids@[q2], self.uid_to_oid@[k2]]
                        0 <= q2 < q && 0 <= k2 < self.uid_to_oid@.len() && self.uid_to_oid@[k2].0@
                            == uids@[q2]@ && self.uid_to_oid@[k2].1 == x,
            decreases uids@.len() - q,
        {
            let mut k: usize = 0;
            while k < self.uid_to_oid.len()
                invariant
                    q < uids@.len(),
                    k <= self.uid_to_oid@.len(),
                    forall|x: u32|
                        bitmap_ids(r).contains(x) <==> (exists|q2: int, k2: int|
                            #![trigger uids@[q2], self.uid_to_oid@[k2]]
                            0 <= q2 < q && 0 <= k2 < self.uid_to_oid@.len()
                                && self.uid_to_oid@[k2].0@ == uids@[q2]@ && self.uid_to_oid@[k2].1
                                == x) || (exists|k2: int|
                            #![trigger self.uid_to_oid@[k2]]
                            0 <= k2 < k && self.uid_to_oid@[k2].0@ == uids@[q as int]@
                                && self.uid_to_oid@[k2].1 == x),
                decreases self.uid_to_oid@.len() - k,
            {
                if self.uid_to_oid[k].0 == uids[q] {
                    bitmap_insert(&mut r, self.uid_to_oid[k].1);
                }
                k = k + 1;
            }
            q = q + 1;
        }
        proof {
            let recs = self.source@;
            let pairs = self.uid_to_oid@;
            assert forall|x: u32| #[trigger] bitmap_ids(r).contains(x) implies log_user_ids(
                recs,
                uids@,
            ).contains(x) by {
                let (q2, k2) = choose|q2: int, k2: int|
                    #![trigger uids@[q2], pairs[k2]]
                    0 <= q2 < uids@.len() && 0 <= k2 < pairs.len() && pairs[k2].0@ == uids@[q2]@
                        && pairs[k2].1 == x;
                assert(pairs_hold(pairs, uids@[q2]@, x));
                let i = choose|i: int|
                    #![trigger recs[i]]
                    0 <= i < recs.len() && is_live(recs[i]) && recs[i].user_id@ == uids@[q2]@
                        && recs[i].offset_id == x;
                assert(names(uids@, recs[i].user_id@));
            }
            assert forall|x: u32| #[trigger] log_user_ids(recs, uids@).contains(x) implies bitmap_ids(
                r,
            ).contains(x) by {
                let i = choose|i: int|
                    #![trigger recs[i]]
                    0 <= i < recs.len() && is_live(recs[i]) && recs[i].offset_id == x && names(
                        uids@,
                        recs[i].user_id@,
                    );
                let q2 = choose|q2: int|
                    #![trigger uids@[q2]]
                    0 <= q2 < uids@.len() && uids@[q2]@ == recs[i].user_id@;
                assert(user_upto(recs, recs.len() as int, recs[i].user_id@, x));
                assert(pairs_hold(pairs, recs[i].user_id@, x));
                let k2 = choose|k2: int|
                    #![trigger pairs[k2]]
                    0 <= k2 < pairs.len() && pairs[k2].0@ == recs[i].user_id@ && pairs[k2].1 == x;
                assert(uids@[q2] == uids@[q2] && pairs[k2] == pairs[k2]);
            }
            assert(bitmap_ids(r) =~= log_user_ids(recs, uids@));
        }
        r
    }
}

} // verus!
