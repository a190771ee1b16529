//! The summarizer worker: for each closed segment it reads the file, asks the
//! oracle, stores the summary, and only then deletes the file.

use crate::error::{IoError, OracleError, StoreError};
use vstd::prelude::*;

verus! {

/// A request to summarize a closed segment.
#[derive(Debug, Clone, Copy, PartialEq, Eq)]
pub enum SummarizeRequest {
    FileWithIndex(usize),
}

/// Where the worker stands in the handling of a request.
#[derive(Debug, Clone, Copy, PartialEq, Eq)]
pub enum SummarizerPhase {
    /// Between two requests.
    Idle,
    /// The segment's file is being read.
    Reading { index: usize },
    /// The oracle is being asked for the summary of the segment's text.
    Summarizing { index: usize },
    /// The summary is being stored.
    Inserting { index: usize },
    /// The summary is stored and the segment's file is being deleted.
    Deleting { index: usize },
}

/// What the worker is told: a new request, or how the outside work ended that
/// it asked for last.
#[derive(Debug, PartialEq, Eq)]
pub enum SummarizerEvent {
    Requested(SummarizeRequest),
    SegmentRead(Result<String, IoError>),
    Summarized(Result<String, OracleError>),
    SummaryInserted(Result<i64, StoreError>),
    SegmentDeleted(Result<(), IoError>),
}

/// The outside work that the worker asks for next.
#[derive(Debug, PartialEq, Eq)]
pub enum SummarizerAction {
    /// Nothing is left to do for the current request: take the next one.
    AwaitRequest,
    /// Read the whole file of the segment.
    ReadSegment { index: usize },
    /// Ask the oracle to summarize the text.
    Summarize { text: String },
    /// Store the text as a new summary, linked to no digest.
    InsertSummary { text: String },
    /// Delete the file of the segment.
    DeleteSegment { index: usize },
}

/// The worker's next phase and action, given its phase and what it is told.
///
/// A request starts with the reading of its segment. Each success leads to
/// the next piece of work: reading, summarizing, storing, deleting. A failure,
/// or news that the phase did not wait for, ends the handling of the request
/// with nothing more done for it.
pub open spec fn spec_step(phase: SummarizerPhase, event: SummarizerEvent) -> (
    SummarizerPhase,
    SummarizerAction,
) {
    match event {
        SummarizerEvent::Requested(SummarizeRequest::FileWithIndex(index)) => (
            SummarizerPhase::Reading { index },
            SummarizerAction::ReadSegment { index },
        ),
        SummarizerEvent::SegmentRead(Ok(text)) => match phase {
            SummarizerPhase::Reading { index } => (
                SummarizerPhase::Summarizing { index },
                SummarizerAction::Summarize { text },
            ),
            _ => (SummarizerPhase::Idle, SummarizerAction::AwaitRequest),
        },
        SummarizerEvent::Summarized(Ok(text)) => match phase {
            SummarizerPhase::Summarizing { index } => (
                SummarizerPhase::Inserting { index },
                SummarizerAction::InsertSummary { text },
            ),
            _ => (SummarizerPhase::Idle, SummarizerAction::AwaitRequest),
        },
        SummarizerEvent::SummaryInserted(Ok(_)) => match phase {
            SummarizerPhase::Inserting { index } => (
                SummarizerPhase::Deleting { index },
                SummarizerAction::DeleteSegment { index },
            ),
            _ => (SummarizerPhase::Idle, SummarizerAction::AwaitRequest),
        },
        _ => (SummarizerPhase::Idle, SummarizerAction::AwaitRequest),
    }
}

/// The summarizer worker's state.
#[derive(Debug)]
pub struct SummarizerService {
    pub phase: SummarizerPhase,
}

impl SummarizerService {
    /// A worker that waits for its first request.
    pub fn new() -> (service: SummarizerService)
        ensures
            service.phase == SummarizerPhase::Idle,
    {
        SummarizerService { phase: SummarizerPhase::Idle }
    }

    /// Takes in a request, or the outcome of the work asked for last, and
    /// says what to do next.
    pub fn step(&mut self, event: SummarizerEvent) -> (action: SummarizerAction)
        ensures
            (final(self).phase, action) == spec_step(old(self).phase, event),
    {
        let phase = self.phase;
        self.phase = SummarizerPhase::Idle;
        match event {
            SummarizerEvent::Requested(SummarizeRequest::FileWithIndex(index)) => {
                self.phase = SummarizerPhase::Reading { index };
                SummarizerAction::ReadSegment { index }
            },
            SummarizerEvent::SegmentRead(Ok(text)) => match phase {
                SummarizerPhase::Reading { index } => {
                    self.phase = SummarizerPhase::Summarizing { index };
                    SummarizerAction::Summarize { text }
                },
                _ => SummarizerAction::AwaitRequest,
            },
            SummarizerEvent::Summarized(Ok(text)) => match phase {
                SummarizerPhase::Summarizing { index } => {
                    self.phase = SummarizerPhase::Inserting { index };
                    SummarizerAction::InsertSummary { text }
                },
                _ => SummarizerAction::AwaitRequest,
            },
            SummarizerEvent::SummaryInserted(Ok(_)) => match phase {
                SummarizerPhase::Inserting { index } => {
                    self.phase = SummarizerPhase::Deleting { index };
                    SummarizerAction::DeleteSegment { index }
                },
                _ => SummarizerAction::AwaitRequest,
            },
            _ => SummarizerAction::AwaitRequest,
        }
    }
}

/// A segment's file is deleted only once its summary is stored: the worker
/// asks for the deletion of a segment only when it is told that the summary
/// of that very segment was inserted.
pub proof fn lemma_delete_only_after_insert(phase: SummarizerPhase, event: SummarizerEvent)
    ensures
        spec_step(phase, event).1 matches SummarizerAction::DeleteSegment { index } ==> {
            &&& phase == SummarizerPhase::Inserting { index }
            &&& event matches SummarizerEvent::SummaryInserted(Ok(_))
        },
{
}

/// Once its summary is stored, a segment's file is deleted: told that the
/// summary was inserted, the worker asks for the deletion of the segment it
/// was storing.
pub proof fn lemma_insert_leads_to_delete(index: usize, id: i64)
    ensures
        spec_step(
            SummarizerPhase::Inserting { index },
            SummarizerEvent::SummaryInserted(Ok(id)),
        ) == (SummarizerPhase::Deleting { index }, SummarizerAction::DeleteSegment { index }),
{
}

/// A failure ends the handling of a request: after a failed read, a failed
/// call of the oracle or a failed insert, the worker asks for nothing more,
/// so that no summary is stored without an answer and no file is deleted
/// without a stored summary.
pub proof fn lemma_failure_skips_request(phase: SummarizerPhase, event: SummarizerEvent)
    requires
        event matches SummarizerEvent::SegmentRead(Err(_))
            || event matches SummarizerEvent::Summarized(Err(_))
            || event matches SummarizerEvent::SummaryInserted(Err(_)),
    ensures
        spec_step(phase, event) == (SummarizerPhase::Idle, SummarizerAction::AwaitRequest),
{
}

/// A summary is stored only for an answer of the oracle: the worker asks for
/// an insert only when it is told that the oracle summarized, and the text to
/// store is the oracle's.
pub proof fn lemma_insert_only_after_summary(phase: SummarizerPhase, event: SummarizerEvent)
    ensures
        spec_step(phase, event).1 matches SummarizerAction::InsertSummary { text } ==> {
            &&& phase is Summarizing
            &&& event == SummarizerEvent::Summarized(Ok(text))
        },
{
}

} // verus!
