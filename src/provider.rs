//! One query surface over the two metadata sources, and the evaluation of
//! filter expressions against it.
use crate::bitmap::bitmap_ids;
use crate::log_reader::{log_document_ids, log_metadata_ids, MaterializedLogRecord, MetadataLogReader};
use crate::metadata::{
    BooleanOperator, DirectDocumentComparison, DirectWhereComparison, DocumentOperator,
    MetadataSetValue, MetadataValue, PrimitiveOperator, SetOperator, Where, WhereChildren,
    WhereComparison,
};
use crate::segment::{segment_document_ids, segment_metadata_ids, MetadataSegmentReader};
use crate::selection::{and_model, empty_model, full_model, or_model, SelectionModel, SignedRoaringBitmap};
use roaring::RoaringBitmap;
use vstd::prelude::*;

verus! {

/// What a provider answers from: a persisted segment or a materialized log.
pub ghost enum ProviderModel {
    CompactData(MetadataSegmentReader),
    Log(Seq<MaterializedLogRecord>),
}

/// The identifiers whose metadata under `key` stands in relation `op` to `val`.
pub open spec fn provider_metadata_ids(
    p: ProviderModel,
    key: Seq<char>,
    val: MetadataValue,
    op: PrimitiveOperator,
) -> Set<u32> {
    match p {
        ProviderModel::CompactData(seg) => segment_metadata_ids(seg, key, val, op),
        ProviderModel::Log(recs) => log_metadata_ids(recs, key, val, op),
    }
}

/// The identifiers whose document contains `query`.
pub open spec fn provider_document_ids(p: ProviderModel, query: Seq<char>) -> Set<u32> {
    match p {
        ProviderModel::CompactData(seg) => segment_document_ids(seg, query),
        ProviderModel::Log(recs) => log_document_ids(recs, query),
    }
}

/// A metadata source with one query surface.
pub enum MetadataProvider<'me> {
    CompactData(&'me MetadataSegmentReader),
    Log(&'me MetadataLogReader),
}

impl<'me> MetadataProvider<'me> {
    pub open spec fn model(&self) -> ProviderModel {
        match self {
            MetadataProvider::CompactData(seg) => ProviderModel::CompactData(**seg),
            MetadataProvider::Log(reader) => ProviderModel::Log(reader.source()),
        }
    }

    pub open spec fn wf(&self) -> bool {
        match self {
            MetadataProvider::CompactData(_) => true,
            MetadataProvider::Log(reader) => reader.wf(),
        }
    }

    pub fn from_metadata_segment_reader(reader: &'me MetadataSegmentReader) -> (r: Self)
        ensures
            r == MetadataProvider::CompactData(reader),
    {
        MetadataProvider::CompactData(reader)
    }

    pub fn from_metadata_log_reader(reader: &'me MetadataLogReader) -> (r: Self)
        ensures
            r == MetadataProvider::Log(reader),
    {
        MetadataProvider::Log(reader)
    }

    /// The identifiers whose document contains `query`.
    pub fn filter_by_document(&self, query: &String) -> (r: RoaringBitmap)
        requires
            self.wf(),
        ensures
            bitmap_ids(r) == provider_document_ids(self.model(), query@),
    {
        match self {
            MetadataProvider::CompactData(seg) => seg.filter_by_document(query),
            MetadataProvider::Log(reader) => reader.filter_by_document(query),
        }
    }

    /// The identifiers whose metadata under `key` stands in relation `op` to
    /// `val`. Inequality never reaches this level.
    pub fn filter_by_metadata(
        &self,
        key: &String,
        val: &MetadataValue,
        op: PrimitiveOperator,
    ) -> (r: RoaringBitmap)
        requires
            self.wf(),
            op != PrimitiveOperator::NotEqual,
        ensures
            bitmap_ids(r) == provider_metadata_ids(self.model(), key@, *val, op),
    {
        match self {
            MetadataProvider::CompactData(seg) => seg.filter_by_metadata(key, val, op),
            MetadataProvider::Log(reader) => reader.get(key, val, op),
        }
    }
}

/// The values of a list operand, each with its type.
pub open spec fn set_values(sv: MetadataSetValue) -> Seq<MetadataValue> {
    match sv {
        MetadataSetValue::Bool(v) => v@.map_values(|b: bool| MetadataValue::Bool(b)),
        MetadataSetValue::Int(v) => v@.map_values(|i: i64| MetadataValue::Int(i)),
        MetadataSetValue::Float(v) => v@.map_values(|f: i64| MetadataValue::Float(f)),
        MetadataSetValue::Str(v) => v@.map_values(|s: String| MetadataValue::Str(s)),
    }
}

/// `In`: the union of the equality matches of each value, from `empty`;
/// `NotIn`: the intersection of their complements, from `full`.
pub open spec fn membership_model(
    vals: Seq<MetadataValue>,
    op: SetOperator,
    key: Seq<char>,
    p: ProviderModel,
) -> SelectionModel
    decreases vals.len(),
{
    if vals.len() == 0 {
        match op {
            SetOperator::In => empty_model(),
            SetOperator::NotIn => full_model(),
        }
    } else {
        let rest = membership_model(vals.drop_last(), op, key, p);
        let ids = provider_metadata_ids(p, key, vals.last(), PrimitiveOperator::Equal);
        match op {
            SetOperator::In => or_model(rest, SelectionModel::Include(ids)),
            SetOperator::NotIn => and_model(rest, SelectionModel::Exclude(ids)),
        }
    }
}

/// The selection of one metadata comparison. `NotEqual` is the complement of
/// the equality match.
pub open spec fn comparison_model(c: DirectWhereComparison, p: ProviderModel) -> SelectionModel {
    match c.comparison {
        WhereComparison::Primitive(op, val) => if op == PrimitiveOperator::NotEqual {
            SelectionModel::Exclude(provider_metadata_ids(p, c.key@, val, PrimitiveOperator::Equal))
        } else {
            SelectionModel::Include(provider_metadata_ids(p, c.key@, val, op))
        },
        WhereComparison::Membership(op, sv) => membership_model(set_values(sv), op, c.key@, p),
    }
}

/// The selection of one document comparison.
pub open spec fn document_model(d: DirectDocumentComparison, p: ProviderModel) -> SelectionModel {
    let ids = provider_document_ids(p, d.document@);
    match d.operator {
        DocumentOperator::Contains => SelectionModel::Include(ids),
        DocumentOperator::NotContains => SelectionModel::Exclude(ids),
    }
}

/// The selection of a filter expression.
pub open spec fn where_model(w: Where, p: ProviderModel) -> SelectionModel
    decreases w,
{
    match w {
        Where::DirectWhereComparison(c) => comparison_model(c, p),
        Where::DirectWhereDocumentComparison(d) => document_model(d, p),
        Where::WhereChildren(ch) => children_model(ch.children@, ch.operator, p),
    }
}

/// `And`: the intersection of the children, from `full`; `Or`: their union,
/// from `empty`.
pub open spec fn children_model(cs: Seq<Where>, op: BooleanOperator, p: ProviderModel) -> SelectionModel
    decreases cs,
{
    if cs.len() == 0 {
        match op {
            BooleanOperator::And => full_model(),
            BooleanOperator::Or => empty_model(),
        }
    } else {
        let rest = children_model(cs.drop_last(), op, p);
        let last = where_model(cs.last(), p);
        match op {
            BooleanOperator::And => and_model(rest, last),
            BooleanOperator::Or => or_model(rest, last),
        }
    }
}

} // verus!
verus! {

/// The values of a list operand as a vector of typed values.
fn set_value_list(sv: &MetadataSetValue) -> (r: Vec<MetadataValue>)
    ensures
        r@ == set_values(*sv),
{
    let mut r: Vec<MetadataValue> = Vec::new();
    match sv {
        MetadataSetValue::Bool(v) => {
            let mut i: usize = 0;
            while i < v.len()
                invariant
                    i <= v@.len(),
                    r@ == v@.subrange(0, i as int).map_values(|b: bool| MetadataValue::Bool(b)),
                decreases v@.len() - i,
            {
                r.push(MetadataValue::Bool(v[i]));
                i = i + 1;
                assert(r@ =~= v@.subrange(0, i as int).map_values(|b: bool| MetadataValue::Bool(b)));
            }
            assert(v@.subrange(0, v@.len() as int) =~= v@);
        },
        MetadataSetValue::Int(v) => {
            let mut i: usize = 0;
            while i < v.len()
                invariant
                    i <= v@.len(),
                    r@ == v@.subrange(0, i as int).map_values(|x: i64| MetadataValue::Int(x)),
                decreases v@.len() - i,
            {
                r.push(MetadataValue::Int(v[i]));
                i = i + 1;
                assert(r@ =~= v@.subrange(0, i as int).map_values(|x: i64| MetadataValue::Int(x)));
            }
            assert(v@.subrange(0, v@.len() as int) =~= v@);
        },
        MetadataSetValue::Float(v) => {
            let mut i: usize = 0;
            while i < v.len()
                invariant
                    i <= v@.len(),
                    r@ == v@.subrange(0, i as int).map_values(|x: i64| MetadataValue::Float(x)),
                decreases v@.len() - i,
            {
                r.push(MetadataValue::Float(v[i]));
                i = i + 1;
                assert(r@ =~= v@.subrange(0, i as int).map_values(|x: i64| MetadataValue::Float(x)));
            }
            assert(v@.subrange(0, v@.len() as int) =~= v@);
        },
        MetadataSetValue::Str(v) => {
            let mut i: usize = 0;
            while i < v.len()
                invariant
                    i <= v@.len(),
                    r@ == v@.subrange(0, i as int).map_values(|s: String| MetadataValue::Str(s)),
                decreases v@.len() - i,
            {
                r.push(MetadataValue::Str(v[i].clone()));
                i = i + 1;
                assert(r@ =~= v@.subrange(0, i as int).map_values(|s: String| MetadataValue::Str(s)));
            }
            assert(v@.subrange(0, v@.len() as int) =~= v@);
        },
    }
    r
}

impl DirectWhereComparison {
    /// Evaluates one metadata comparison: `NotEqual` as the complement of an
    /// equality match, `In` and `NotIn` as folds over equality matches.
    pub fn eval(&self, meta_provider: &MetadataProvider) -> (r: SignedRoaringBitmap)
        requires
            meta_provider.wf(),
        ensures
            r@ == comparison_model(*self, meta_provider.model()),
    {
        match &self.comparison {
            WhereComparison::Primitive(op, val) => {
                if *op == PrimitiveOperator::NotEqual {
                    SignedRoaringBitmap::Exclude(
                        meta_provider.filter_by_metadata(&self.key, val, PrimitiveOperator::Equal),
                    )
                } else {
                    SignedRoaringBitmap::Include(meta_provider.filter_by_metadata(&self.key, val, *op))
                }
            },
            WhereComparison::Membership(op, sv) => {
                let vals = set_value_list(sv);
                let ghost p = meta_provider.model();
                let mut acc = match op {
                    SetOperator::In => SignedRoaringBitmap::empty(),
                    SetOperator::NotIn => SignedRoaringBitmap::full(),
                };
                let mut i: usize = 0;
                while i < vals.len()
                    invariant
                        meta_provider.wf(),
                        p == meta_provider.model(),
                        i <= vals@.len(),
                        acc@ == membership_model(vals@.subrange(0, i as int), *op, self.key@, p),
                    decreases vals@.len() - i,
                {
                    let ids = meta_provider.filter_by_metadata(
                        &self.key,
                        &vals[i],
                        PrimitiveOperator::Equal,
                    );
                    acc = match op {
                        SetOperator::In => acc.or(&SignedRoaringBitmap::Include(ids)),
                        SetOperator::NotIn => acc.and(&SignedRoaringBitmap::Exclude(ids)),
                    };
                    assert(vals@.subrange(0, i + 1).drop_last() =~= vals@.subrange(0, i as int));
                    i = i + 1;
                }
                assert(vals@.subrange(0, vals@.len() as int) =~= vals@);
                acc
            },
        }
    }
}

impl DirectDocumentComparison {
    /// Evaluates a substring test on documents.
    pub fn eval(&self, meta_provider: &MetadataProvider) -> (r: SignedRoaringBitmap)
        requires
            meta_provider.wf(),
        ensures
            r@ == document_model(*self, meta_provider.model()),
    {
        let contain = meta_provider.filter_by_document(&self.document);
        match self.operator {
            DocumentOperator::Contains => SignedRoaringBitmap::Include(contain),
            DocumentOperator::NotContains => SignedRoaringBitmap::Exclude(contain),
        }
    }
}

impl WhereChildren {
    /// Evaluates each child and folds the results.
    pub fn eval(&self, meta_provider: &MetadataProvider) -> (r: SignedRoaringBitmap)
        requires
            meta_provider.wf(),
        ensures
            r@ == children_model(self.children@, self.operator, meta_provider.model()),
        decreases self,
    {
        let ghost p = meta_provider.model();
        let mut acc = match self.operator {
            BooleanOperator::And => SignedRoaringBitmap::full(),
            BooleanOperator::Or => SignedRoaringBitmap::empty(),
        };
        let mut i: usize = 0;
        while i < self.children.len()
            invariant
                meta_provider.wf(),
                p == meta_provider.model(),
                i <= self.children@.len(),
                acc@ == children_model(self.children@.subrange(0, i as int), self.operator, p),
            decreases self.children@.len() - i,
        {
            let child = self.children[i].eval(meta_provider);
            acc = match self.operator {
                BooleanOperator::And => acc.and(&child),
                BooleanOperator::Or => acc.or(&child),
            };
            assert(self.children@.subrange(0, i + 1).drop_last() =~= self.children@.subrange(
                0,
                i as int,
            ));
            i = i + 1;
        }
        assert(self.children@.subrange(0, self.children@.len() as int) =~= self.children@);
        acc
    }
}

impl Where {
    /// Evaluates a filter expression against one metadata source.
    pub fn eval(&self, meta_provider: &MetadataProvider) -> (r: SignedRoaringBitmap)
        requires
            meta_provider.wf(),
        ensures
            r@ == where_model(*self, meta_provider.model()),
        decreases self,
    {
        match self {
            Where::DirectWhereComparison(direct_comparison) => direct_comparison.eval(meta_provider),
            Where::DirectWhereDocumentComparison(direct_document_comparison) => {
                direct_document_comparison.eval(meta_provider)
            },
            Where::WhereChildren(where_children) => where_children.eval(meta_provider),
        }
    }
}

} // verus!
verus! {

/// `key ≠ v` selects the complement of the equality match, and intersected
/// with `Include(s)` it leaves `s` without that match.
pub proof fn lemma_not_equal_rewrite(
    key: String,
    v: MetadataValue,
    p: ProviderModel,
    s: Set<u32>,
)
    ensures
        comparison_model(
            DirectWhereComparison {
                key,
                comparison: WhereComparison::Primitive(PrimitiveOperator::NotEqual, v),
            },
            p,
        ) == SelectionModel::Exclude(provider_metadata_ids(p, key@, v, PrimitiveOperator::Equal)),
        and_model(
            SelectionModel::Include(s),
            comparison_model(
                DirectWhereComparison {
                    key,
                    comparison: WhereComparison::Primitive(PrimitiveOperator::NotEqual, v),
                },
                p,
            ),
        ) == SelectionModel::Include(
            s.difference(provider_metadata_ids(p, key@, v, PrimitiveOperator::Equal)),
        ),
{
}

} // verus!
