//! The persisted segment as the query layer sees it: typed metadata indexes,
//! a full-text index and the user-id lookup of the record store.
use crate::bitmap::{bitmap_ids, bitmap_insert, bitmap_new};
use crate::index::{buckets_ids, range_union, MetadataBucket};
use crate::metadata::{MetadataValue, PrimitiveOperator};
use crate::text::{is_substring, text_contains};
use roaring::RoaringBitmap;
use vstd::prelude::*;

verus! {

/// The metadata and full-text indexes of a persisted segment. A missing index
/// answers every query with no identifier.
#[derive(Debug)]
pub struct MetadataSegmentReader {
    pub bool_metadata_index_reader: Option<Vec<MetadataBucket>>,
    pub int_metadata_index_reader: Option<Vec<MetadataBucket>>,
    pub float_metadata_index_reader: Option<Vec<MetadataBucket>>,
    pub string_metadata_index_reader: Option<Vec<MetadataBucket>>,
    pub full_text_index_reader: Option<Vec<(u32, String)>>,
}

/// The user-id lookup of a persisted record segment.
#[derive(Debug)]
pub struct RecordSegmentReader {
    pub user_ids: Vec<(String, u32)>,
}

/// The handles of a fetched segment.
#[derive(Debug)]
pub struct FetchSegmentOutput {
    /// Absent while the segment holds no persisted record yet.
    pub record_segment_reader: Option<RecordSegmentReader>,
    pub metadata_segment_reader: MetadataSegmentReader,
}

/// The typed index that answers queries on values of `v`'s type.
pub open spec fn typed_index(seg: MetadataSegmentReader, v: MetadataValue) -> Option<
    Vec<MetadataBucket>,
> {
    match v {
        MetadataValue::Bool(_) => seg.bool_metadata_index_reader,
        MetadataValue::Int(_) => seg.int_metadata_index_reader,
        MetadataValue::Float(_) => seg.float_metadata_index_reader,
        MetadataValue::Str(_) => seg.string_metadata_index_reader,
    }
}

/// The persisted records whose metadata under `key` stands in relation `op`
/// to `target`.
pub open spec fn segment_metadata_ids(
    seg: MetadataSegmentReader,
    key: Seq<char>,
    target: MetadataValue,
    op: PrimitiveOperator,
) -> Set<u32> {
    match typed_index(seg, target) {
        Some(bs) => buckets_ids(bs@, key, target, op),
        None => Set::empty(),
    }
}

/// The identifiers whose document contains `query`.
pub open spec fn docs_ids(docs: Seq<(u32, String)>, query: Seq<char>) -> Set<u32> {
    Set::new(
        |x: u32|
            exists|k: int|
                #![trigger docs[k]]
                0 <= k < docs.len() && docs[k].0 == x && is_substring(query, docs[k].1@),
    )
}

/// The persisted records whose document contains `query`.
pub open spec fn segment_document_ids(seg: MetadataSegmentReader, query: Seq<char>) -> Set<u32> {
    match seg.full_text_index_reader {
        Some(docs) => docs_ids(docs@, query),
        None => Set::empty(),
    }
}

/// The persisted offsets of the user ids `uids`.
pub open spec fn record_user_ids(reader: RecordSegmentReader, uids: Seq<String>) -> Set<u32> {
    Set::new(
        |x: u32|
            exists|q: int, k: int|
                #![trigger uids[q], reader.user_ids@[k]]
                0 <= q < uids.len() && 0 <= k < reader.user_ids@.len() && reader.user_ids@[k].0@
                    == uids[q]@ && reader.user_ids@[k].1 == x,
    )
}

impl MetadataSegmentReader {
    /// Answers a comparison from the index of the value's type.
    pub fn filter_by_metadata(
        &self,
        key: &String,
        val: &MetadataValue,
        op: PrimitiveOperator,
    ) -> (r: RoaringBitmap)
        ensures
            bitmap_ids(r) == segment_metadata_ids(*self, key@, *val, op),
    {
        let index = match val {
            MetadataValue::Bool(_) => &self.bool_metadata_index_reader,
            MetadataValue::Int(_) => &self.int_metadata_index_reader,
            MetadataValue::Float(_) => &self.float_metadata_index_reader,
            MetadataValue::Str(_) => &self.string_metadata_index_reader,
        };
        match index {
            Some(bs) => range_union(bs, key, val, op),
            None => bitmap_new(),
        }
    }

    /// Answers a substring query from the full-text index.
    pub fn filter_by_document(&self, query: &String) -> (r: RoaringBitmap)
        ensures
            bitmap_ids(r) == segment_document_ids(*self, query@),
    {
        match &self.full_text_index_reader {
            Some(docs) => {
                let mut r = bitmap_new();
                let mut k: usize = 0;
                while k < docs.len()
                    invariant
                        k <= docs@.len(),
                        forall|x: u32|
                            bitmap_ids(r).contains(x) <==> exists|k2: int|
                                #![trigger docs@[k2]]
                                0 <= k2 < k && docs@[k2].0 == x && is_substring(
                                    query@,
                                    docs@[k2].1@,
                                ),
                    decreases docs@.len() - k,
                {
                    if text_contains(docs[k].1.as_str(), query.as_str()) {
                        bitmap_insert(&mut r, docs[k].0);
                    }
                    k = k + 1;
                }
                assert(bitmap_ids(r) =~= docs_ids(docs@, query@));
                r
            },
            None => bitmap_new(),
        }
    }
}

impl RecordSegmentReader {
    /// The persisted offsets of the given user ids; unknown ids are dropped.
    pub fn offsets_of(&self, uids: &Vec<String>) -> (r: RoaringBitmap)
        ensures
            bitmap_ids(r) == record_user_ids(*self, uids@),
    {
        let mut r = bitmap_new();
        let mut q: usize = 0;
        while q < uids.len()
            invariant
                q <= uids@.len(),
                forall|x: u32|
                    bitmap_ids(r).contains(x) <==> exists|q2: int, k2: int|
                        #![trigger uids@[q2], self.user_ids@[k2]]
                        0 <= q2 < q && 0 <= k2 < self.user_ids@.len() && self.user_ids@[k2].0@
                            == uids@[q2]@ && self.user_ids@[k2].1 == x,
            decreases uids@.len() - q,
        {
            let mut k: usize = 0;
            while k < self.user_ids.len()
                invariant
                    q < uids@.len(),
                    k <= self.user_ids@.len(),
                    forall|x: u32|
                        bitmap_ids(r).contains(x) <==> (exists|q2: int, k2: int|
                            #![trigger uids@[q2], self.user_ids@[k2]]
                            0 <= q2 < q && 0 <= k2 < self.user_ids@.len()
                                && self.user_ids@[k2].0@ == uids@[q2]@ && self.user_ids@[k2].1
                                == x) || (exists|k2: int|
                            #![trigger self.user_ids@[k2]]
                            0 <= k2 < k && self.user_ids@[k2].0@ == uids@[q as int]@
                                && self.user_ids@[k2].1 == x),
                decreases self.user_ids@.len() - k,
            {
                if self.user_ids[k].0 == uids[q] {
                    bitmap_insert(&mut r, self.user_ids[k].1);
                }
                k = k + 1;
            }
            q = q + 1;
        }
        assert(bitmap_ids(r) =~= record_user_ids(*self, uids@));
        r
    }
}

} // verus!
