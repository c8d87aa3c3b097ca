//! The filter operator: the selections of the log and of the persisted
//! segment for an id list and a filter expression.
use crate::log_reader::{log_touched_ids, log_user_ids, MaterializedLogRecord, MetadataLogReader};
use crate::metadata::Where;
use crate::provider::{where_model, MetadataProvider, ProviderModel};
use crate::segment::{record_user_ids, FetchSegmentOutput};
use crate::selection::{and_model, full_model, lemma_and_selects, selects, SelectionModel, SignedRoaringBitmap};
use vstd::prelude::*;

verus! {

/// Status codes for failures that cross the operator boundary.
#[derive(Clone, Copy, Debug, PartialEq, Eq, Structural)]
pub enum ErrorCodes {
    Success,
    Cancelled,
    Unknown,
    InvalidArgument,
    DeadlineExceeded,
    NotFound,
    AlreadyExists,
    PermissionDenied,
    ResourceExhausted,
    FailedPrecondition,
    Aborted,
    OutOfRange,
    Unimplemented,
    Internal,
    Unavailable,
    DataLoss,
    Unauthenticated,
}

/// A failure reported by a collaborator, passed on unchanged.
#[derive(Debug)]
pub struct UpstreamError {
    pub code: ErrorCodes,
    pub message: String,
}

/// The fetched log, merged by the log materializer into one final state per
/// entity.
#[derive(Debug)]
pub struct FetchLogOutput {
    pub records: Vec<MaterializedLogRecord>,
}

/// The filter to apply: an optional list of user ids and an optional
/// expression.
#[derive(Debug)]
pub struct FilterOperator {
    pub query_ids: Option<Vec<String>>,
    pub where_clause: Option<Where>,
}

/// What earlier stages have produced so far.
#[derive(Debug)]
pub struct PreFilterState {
    pub logs: Option<FetchLogOutput>,
    pub segments: Option<FetchSegmentOutput>,
}

/// The complete input of the filter operator.
#[derive(Debug)]
pub struct FilterInput {
    logs: FetchLogOutput,
    segments: FetchSegmentOutput,
}

/// The selections of the log and of the persisted segment, with the handles
/// passed through.
#[derive(Debug)]
pub struct FilterOutput {
    pub logs: FetchLogOutput,
    pub segments: FetchSegmentOutput,
    pub log_oids: SignedRoaringBitmap,
    pub compact_oids: SignedRoaringBitmap,
}

#[derive(Debug)]
pub enum FilterError {
    FetchSegment(UpstreamError),
    IndexError(UpstreamError),
    IncompleteInput,
    LogMaterializer(UpstreamError),
}

impl FilterError {
    /// The status code of the failure.
    pub fn code(&self) -> (r: ErrorCodes)
        ensures
            r == match self {
                FilterError::FetchSegment(e) => e.code,
                FilterError::IndexError(e) => e.code,
                FilterError::IncompleteInput => ErrorCodes::InvalidArgument,
                FilterError::LogMaterializer(e) => e.code,
            },
    {
        match self {
            FilterError::FetchSegment(e) => e.code,
            FilterError::IndexError(e) => e.code,
            FilterError::IncompleteInput => ErrorCodes::InvalidArgument,
            FilterError::LogMaterializer(e) => e.code,
        }
    }
}

impl FilterInput {
    pub closed spec fn spec_logs(&self) -> FetchLogOutput {
        self.logs
    }

    pub closed spec fn spec_segments(&self) -> FetchSegmentOutput {
        self.segments
    }

    /// The input, once both the log and the segment have been fetched.
    pub fn try_from(value: PreFilterState) -> (r: Result<FilterInput, FilterError>)
        ensures
            value.logs is Some && value.segments is Some ==> (r matches Ok(input) && input.spec_logs()
                == value.logs.unwrap() && input.spec_segments() == value.segments.unwrap()),
            !(value.logs is Some && value.segments is Some) ==> r matches Err(
                FilterError::IncompleteInput,
            ),
    {
        match value {
            PreFilterState { logs: Some(logs), segments: Some(segments) } => Ok(
                FilterInput { logs, segments },
            ),
            _ => Err(FilterError::IncompleteInput),
        }
    }

    pub fn logs(&self) -> (r: &FetchLogOutput)
        ensures
            *r == self.spec_logs(),
    {
        &self.logs
    }

    pub fn segments(&self) -> (r: &FetchSegmentOutput)
        ensures
            *r == self.spec_segments(),
    {
        &self.segments
    }
}

/// The log records that the id list admits.
pub open spec fn log_restriction(op: FilterOperator, recs: Seq<MaterializedLogRecord>) -> SelectionModel {
    match op.query_ids {
        Some(uids) => SelectionModel::Include(log_user_ids(recs, uids@)),
        None => full_model(),
    }
}

/// The persisted records that the id list admits; every one when the segment
/// has no persisted record yet.
pub open spec fn compact_restriction(op: FilterOperator, seg: FetchSegmentOutput) -> SelectionModel {
    match op.query_ids {
        Some(uids) => match seg.record_segment_reader {
            Some(reader) => SelectionModel::Include(record_user_ids(reader, uids@)),
            None => full_model(),
        },
        None => full_model(),
    }
}

/// The selection of the log.
pub open spec fn expected_log_oids(op: FilterOperator, recs: Seq<MaterializedLogRecord>) -> SelectionModel {
    match op.where_clause {
        Some(w) => and_model(where_model(w, ProviderModel::Log(recs)), log_restriction(op, recs)),
        None => log_restriction(op, recs),
    }
}

/// The selection of the persisted segment, without the records that the log
/// supersedes or deletes.
pub open spec fn expected_compact_oids(
    op: FilterOperator,
    recs: Seq<MaterializedLogRecord>,
    seg: FetchSegmentOutput,
) -> SelectionModel {
    let mask = SelectionModel::Exclude(log_touched_ids(recs));
    match op.where_clause {
        Some(w) => and_model(
            and_model(
                where_model(w, ProviderModel::CompactData(seg.metadata_segment_reader)),
                compact_restriction(op, seg),
            ),
            mask,
        ),
        None => and_model(compact_restriction(op, seg), mask),
    }
}

impl FilterOperator {
    /// Computes the selections of the log and of the persisted segment.
    pub fn run(&self, input: FilterInput) -> (r: Result<FilterOutput, FilterError>)
        ensures
            r matches Ok(out) && out.logs == input.spec_logs() && out.segments
                == input.spec_segments() && out.log_oids@ == expected_log_oids(
                *self,
                input.spec_logs().records@,
            ) && out.compact_oids@ == expected_compact_oids(
                *self,
                input.spec_logs().records@,
                input.spec_segments(),
            ),
    {
        let metadata_log_reader = MetadataLogReader::new(&input.logs.records);
        let log_metadata_provider = MetadataProvider::from_metadata_log_reader(&metadata_log_reader);
        let compact_metadata_provider = MetadataProvider::from_metadata_segment_reader(
            &input.segments.metadata_segment_reader,
        );
        let (user_log_oids, user_compact_oids) = match &self.query_ids {
            Some(uids) => {
                let log_oids = SignedRoaringBitmap::Include(metadata_log_reader.search_user_ids(uids));
                let compact_oids = match &input.segments.record_segment_reader {
                    Some(reader) => SignedRoaringBitmap::Include(reader.offsets_of(uids)),
                    None => SignedRoaringBitmap::full(),
                };
                (log_oids, compact_oids)
            },
            None => (SignedRoaringBitmap::full(), SignedRoaringBitmap::full()),
        };
        let log_oids = match &self.where_clause {
            Some(clause) => clause.eval(&log_metadata_provider).and(&user_log_oids),
            None => user_log_oids,
        };
        let touched = SignedRoaringBitmap::Exclude(metadata_log_reader.touched_oids());
        let compact_oids = match &self.where_clause {
            Some(clause) => clause.eval(&compact_metadata_provider).and(&user_compact_oids).and(
                &touched,
            ),
            None => user_compact_oids.and(&touched),
        };
        Ok(FilterOutput { logs: input.logs, segments: input.segments, log_oids, compact_oids })
    }
}

/// Masking: the persisted-side selection never holds an identifier that the
/// log supersedes or deletes, whatever the id list and the expression.
pub proof fn lemma_masking(
    op: FilterOperator,
    recs: Seq<MaterializedLogRecord>,
    seg: FetchSegmentOutput,
    x: u32,
)
    requires
        log_touched_ids(recs).contains(x),
    ensures
        !selects(expected_compact_oids(op, recs, seg), x),
{
    let mask = SelectionModel::Exclude(log_touched_ids(recs));
    match op.where_clause {
        Some(w) => {
            let inner = and_model(
                where_model(w, ProviderModel::CompactData(seg.metadata_segment_reader)),
                compact_restriction(op, seg),
            );
            lemma_and_selects(inner, mask, x);
        },
        None => {
            lemma_and_selects(compact_restriction(op, seg), mask, x);
        },
    }
}

} // verus!
