//! The message batcher: it appends each message to the active segment and
//! rotates to a new segment, asking for a summary of the old one, before the
//! message that would exceed the token budget.

use crate::gpt::{estimate_token_count, estimate_tokens, spec_estimate_tokens};
use crate::segment::{
    format_entry, lemma_replay_concat, lemma_replay_of_entry, replayable, segment_index,
    spec_format_entry, spec_replay_tokens, spec_segment_index,
};
use crate::services::discord_handler::MessageEvent;
use crate::services::summarizer::SummarizeRequest;
use vstd::prelude::*;

verus! {

/// The largest segment index that the names in `names` carry, if any does.
pub fn find_last_log_file_index(names: &Vec<String>) -> (last: Option<usize>)
    ensures
        last is None <==> forall|i: int|
            0 <= i < names@.len() ==> spec_segment_index(#[trigger] names@[i]@) is None,
        last matches Some(m) ==> {
            &&& exists|i: int|
                0 <= i < names@.len() && spec_segment_index(#[trigger] names@[i]@) == Some(m)
            &&& forall|i: int|
                0 <= i < names@.len() ==> (spec_segment_index(#[trigger] names@[i]@) matches Some(k)
                    ==> k <= m)
        },
{
    let mut last: Option<usize> = None;
    let mut i: usize = 0;
    while i < names.len()
        invariant
            i <= names.len(),
            last is None <==> forall|j: int|
                0 <= j < i ==> spec_segment_index(#[trigger] names@[j]@) is None,
            last matches Some(m) ==> {
                &&& exists|j: int| 0 <= j < i && spec_segment_index(#[trigger] names@[j]@) == Some(m)
                &&& forall|j: int|
                    0 <= j < i ==> (spec_segment_index(#[trigger] names@[j]@) matches Some(k) ==> k
                        <= m)
            },
        decreases names.len() - i,
    {
        let found = segment_index(names[i].as_str());
        match found {
            None => {},
            Some(k) => {
                let larger = match last {
                    None => true,
                    Some(m) => k > m,
                };
                if larger {
                    last = Some(k);
                }
            },
        }
        i += 1;
    }
    last
}

/// The index of the segment that is active at startup: the largest index among
/// the segment files that exist, or 0 when there is none.
pub fn discover_active_index(names: &Vec<String>) -> (index: usize)
    ensures
        forall|i: int|
            0 <= i < names@.len() ==> (spec_segment_index(#[trigger] names@[i]@) matches Some(k)
                ==> k <= index),
        index != 0 ==> exists|i: int|
            0 <= i < names@.len() && spec_segment_index(#[trigger] names@[i]@) == Some(index),
{
    match find_last_log_file_index(names) {
        Some(index) => index,
        None => 0,
    }
}

/// What the batcher has planned for a message and waits to hear the outcome of.
#[derive(Debug, Clone, Copy, PartialEq, Eq)]
pub struct PendingIngest {
    /// Whether the plan rotates to a new segment first.
    pub rotate: bool,
    /// The tokens that the message counts for.
    pub incoming_tokens: usize,
}

/// How the carrying out of a plan ended.
#[derive(Debug, Clone, Copy, PartialEq, Eq)]
pub enum IngestOutcome {
    /// The new segment could not be opened, or the request for the old one
    /// could not be handed over: nothing was written.
    RotationFailed,
    /// The rotation, if one was planned, was done, but the entry could not be
    /// written.
    WriteFailed,
    /// The rotation, if one was planned, was done, and the entry was written.
    Written,
}

/// The batcher's state as a mathematical value.
pub struct BatcherState {
    /// The index of the one segment that is open for appends.
    pub index: nat,
    /// The tokens counted so far in the active segment.
    pub running: nat,
    /// The token budget of a segment.
    pub threshold: nat,
    /// The plan whose outcome is awaited, if any.
    pub pending: Option<PendingIngest>,
}

impl BatcherState {
    /// Whether a message of `incoming` tokens would exceed the budget of the
    /// active segment.
    pub open spec fn rotation_due(self, incoming: nat) -> bool {
        self.running + incoming > self.threshold
    }

    /// The state once a message of `incoming` tokens has been planned for.
    pub open spec fn ingest(self, incoming: usize) -> BatcherState {
        BatcherState {
            pending: Some(
                PendingIngest { rotate: self.rotation_due(incoming as nat), incoming_tokens: incoming },
            ),
            ..self
        }
    }

    /// The state once the outcome of the awaited plan is known. A failed
    /// rotation changes nothing. Otherwise a planned rotation takes effect:
    /// the next index becomes the active one, with a count of zero. The
    /// message's tokens are counted only if its entry was written.
    pub open spec fn complete(self, outcome: IngestOutcome) -> BatcherState {
        match self.pending {
            None => self,
            Some(plan) => {
                let index = if plan.rotate && outcome != IngestOutcome::RotationFailed {
                    self.index + 1
                } else {
                    self.index
                };
                let base = if plan.rotate && outcome != IngestOutcome::RotationFailed {
                    0nat
                } else {
                    self.running
                };
                let running = if outcome == IngestOutcome::Written {
                    (base + plan.incoming_tokens) as nat
                } else {
                    base
                };
                BatcherState { index, running, threshold: self.threshold, pending: None }
            },
        }
    }

    /// The segment that a summarize request was handed over for when the
    /// awaited plan was carried out with `outcome`.
    pub open spec fn requested(self, outcome: IngestOutcome) -> Option<nat> {
        match self.pending {
            Some(plan) => if plan.rotate && outcome != IngestOutcome::RotationFailed {
                Some(self.index)
            } else {
                None
            },
            None => None,
        }
    }
}

/// The rotation that a plan starts with.
#[derive(Debug, Clone, Copy, PartialEq, Eq)]
pub struct Rotation {
    /// The index of the segment to open, empty.
    pub new_index: usize,
    /// The request to hand over, once the new segment is open, for the
    /// segment that is closed.
    pub request: SummarizeRequest,
}

/// What is to be done for one message, in this order: the rotation, if there
/// is one, then the append of `entry` to the segment `segment`.
#[derive(Debug, PartialEq, Eq)]
pub struct IngestPlan {
    pub rotation: Option<Rotation>,
    /// The index of the segment that receives the entry.
    pub segment: usize,
    /// The text to append.
    pub entry: String,
    /// The tokens that the message counts for.
    pub incoming_tokens: usize,
}

/// The message batcher.
pub struct MessageLogService {
    log_file_index: usize,
    curr_file_token_count: usize,
    summary_tokens_threshold: usize,
    pending: Option<PendingIngest>,
}

impl View for MessageLogService {
    type V = BatcherState;

    closed spec fn view(&self) -> BatcherState {
        BatcherState {
            index: self.log_file_index as nat,
            running: self.curr_file_token_count as nat,
            threshold: self.summary_tokens_threshold as nat,
            pending: self.pending,
        }
    }
}

impl MessageLogService {
    #[verifier::type_invariant]
    spec fn inv(self) -> bool {
        self.pending matches Some(plan) ==> if plan.rotate {
            self.log_file_index < usize::MAX
        } else {
            self.curr_file_token_count + plan.incoming_tokens <= usize::MAX
        }
    }

    /// The batcher at startup: `log_file_index` is the active segment, whose
    /// file holds `active_segment_text`; the running count is recovered from
    /// that text.
    pub fn new(
        log_file_index: usize,
        active_segment_text: &str,
        summary_tokens_threshold: usize,
    ) -> (service: MessageLogService)
        ensures
            service@ == (BatcherState {
                index: log_file_index as nat,
                running: spec_replay_tokens(active_segment_text@),
                threshold: summary_tokens_threshold as nat,
                pending: None,
            }),
    {
        MessageLogService {
            log_file_index,
            curr_file_token_count: estimate_token_count(active_segment_text),
            summary_tokens_threshold,
            pending: None,
        }
    }

    /// The index of the active segment.
    pub fn log_file_index(&self) -> (index: usize)
        ensures
            index == self@.index,
    {
        self.log_file_index
    }

    /// The tokens counted so far in the active segment.
    pub fn curr_file_token_count(&self) -> (count: usize)
        ensures
            count == self@.running,
    {
        self.curr_file_token_count
    }

    /// The token budget of a segment.
    pub fn summary_tokens_threshold(&self) -> (threshold: usize)
        ensures
            threshold == self@.threshold,
    {
        self.summary_tokens_threshold
    }

    /// The plan whose outcome is awaited, if any.
    pub fn pending(&self) -> (pending: Option<PendingIngest>)
        ensures
            pending == self@.pending,
    {
        self.pending
    }

    /// Plans the handling of a message. A rotation is planned exactly when the
    /// running count and the message's tokens together exceed the budget; it
    /// opens the next index and requests a summary of the index that was
    /// active. The entry goes to the segment that is active after the
    /// rotation. The state changes only in that the plan is awaited.
    ///
    /// When a rotation is due and no index is left, there is no plan and the
    /// message is dropped.
    pub fn ingest(&mut self, event: &MessageEvent) -> (plan: Option<IngestPlan>)
        ensures
            ({
                let incoming = spec_estimate_tokens(event.text@);
                let due = old(self)@.rotation_due(incoming);
                if due && old(self)@.index == usize::MAX {
                    &&& plan is None
                    &&& final(self)@ == (BatcherState { pending: None, ..old(self)@ })
                } else {
                    &&& plan matches Some(p)
                    &&& p.incoming_tokens == incoming
                    &&& p.entry@ == spec_format_entry(
                        event.timestamp@,
                        event.author_name@,
                        event.text@,
                    )
                    &&& p.rotation == if due {
                        Some(
                            Rotation {
                                new_index: (old(self)@.index + 1) as usize,
                                request: SummarizeRequest::FileWithIndex(old(self)@.index as usize),
                            },
                        )
                    } else {
                        None
                    }
                    &&& p.segment == if due {
                        old(self)@.index + 1
                    } else {
                        old(self)@.index
                    }
                    &&& final(self)@ == old(self)@.ingest(p.incoming_tokens)
                }
            }),
    {
        proof {
            use_type_invariant(&*self);
        }
        let incoming = estimate_tokens(event.text.as_str());
        let due = self.curr_file_token_count > self.summary_tokens_threshold || incoming
            > self.summary_tokens_threshold - self.curr_file_token_count;
        if due && self.log_file_index == usize::MAX {
            self.pending = None;
            return None;
        }
        let entry = format_entry(
            event.timestamp.as_str(),
            event.author_name.as_str(),
            event.text.as_str(),
        );
        self.pending = Some(PendingIngest { rotate: due, incoming_tokens: incoming });
        if due {
            let new_index = self.log_file_index + 1;
            Some(
                IngestPlan {
                    rotation: Some(
                        Rotation {
                            new_index,
                            request: SummarizeRequest::FileWithIndex(self.log_file_index),
                        },
                    ),
                    segment: new_index,
                    entry,
                    incoming_tokens: incoming,
                },
            )
        } else {
            Some(
                IngestPlan {
                    rotation: None,
                    segment: self.log_file_index,
                    entry,
                    incoming_tokens: incoming,
                },
            )
        }
    }

    /// Takes in how the carrying out of the awaited plan ended.
    pub fn complete(&mut self, outcome: IngestOutcome)
        ensures
            final(self)@ == old(self)@.complete(outcome),
    {
        proof {
            use_type_invariant(&*self);
        }
        match self.pending {
            None => {},
            Some(plan) => {
                self.pending = None;
                let failed = match outcome {
                    IngestOutcome::RotationFailed => true,
                    _ => false,
                };
                let written = match outcome {
                    IngestOutcome::Written => true,
                    _ => false,
                };
                if plan.rotate && !failed {
                    self.log_file_index = self.log_file_index + 1;
                    self.curr_file_token_count = 0;
                }
                if written {
                    self.curr_file_token_count = self.curr_file_token_count + plan.incoming_tokens;
                }
            },
        }
    }
}

/// One message as the batcher's state sees it: its tokens, and how the
/// carrying out of its plan ended.
pub struct IngestStep {
    pub incoming: usize,
    pub outcome: IngestOutcome,
}

/// The state after the messages of `steps` were planned for and completed, one
/// after the other.
pub open spec fn state_after(start: BatcherState, steps: Seq<IngestStep>) -> BatcherState
    decreases steps.len(),
{
    if steps.len() == 0 {
        start
    } else {
        state_after(start, steps.drop_last()).ingest(steps.last().incoming).complete(steps.last().outcome)
    }
}

/// The segments for which a summarize request was handed over in the course
/// of `steps`, in order.
pub open spec fn requests(start: BatcherState, steps: Seq<IngestStep>) -> Seq<nat>
    decreases steps.len(),
{
    if steps.len() == 0 {
        Seq::empty()
    } else {
        let before = state_after(start, steps.drop_last()).ingest(steps.last().incoming);
        match before.requested(steps.last().outcome) {
            Some(index) => requests(start, steps.drop_last()).push(index),
            None => requests(start, steps.drop_last()),
        }
    }
}

/// Rotation happens exactly when the budget would be exceeded, and before
/// the message is written: for a message of `incoming` tokens a rotation is
/// planned if and only if the running count and `incoming` together exceed
/// the threshold. Once carried out, the request names the index that was
/// active before the message, the next index is the active one, and the
/// message's tokens are all that it counts.
pub proof fn lemma_rotation_exactly_when_over_budget(
    state: BatcherState,
    incoming: usize,
    outcome: IngestOutcome,
)
    ensures
        state.ingest(incoming).pending matches Some(plan) && (plan.rotate <==> state.running
            + incoming > state.threshold),
        state.ingest(incoming).requested(outcome) is Some <==> state.running + incoming
            > state.threshold && outcome != IngestOutcome::RotationFailed,
        state.ingest(incoming).requested(outcome) matches Some(index) ==> {
            &&& index == state.index
            &&& state.ingest(incoming).complete(outcome).index == state.index + 1
            &&& state.ingest(incoming).complete(outcome).running == if outcome
                == IngestOutcome::Written {
                incoming as nat
            } else {
                0
            }
        },
        state.ingest(incoming).requested(outcome) is None ==> {
            &&& state.ingest(incoming).complete(outcome).index == state.index
            &&& state.ingest(incoming).complete(outcome).running == if outcome
                == IngestOutcome::Written {
                (state.running + incoming) as nat
            } else {
                state.running
            }
        },
{
}

/// At every point exactly one segment is open for appends, and it is the one
/// after the segments that were closed: whatever messages came and however
/// their handling ended, the requests handed over so far name, each once and
/// in order, the indices from the first active one up to the one before the
/// active one. The active segment itself was never requested.
pub proof fn lemma_single_active_segment(start: BatcherState, steps: Seq<IngestStep>)
    ensures
        state_after(start, steps).index == start.index + requests(start, steps).len(),
        state_after(start, steps).threshold == start.threshold,
        forall|k: int|
            0 <= k < requests(start, steps).len() ==> #[trigger] requests(start, steps)[k]
                == start.index + k,
        forall|k: int|
            0 <= k < requests(start, steps).len() ==> #[trigger] requests(start, steps)[k] < state_after(
                start,
                steps,
            ).index,
    decreases steps.len(),
{
    if steps.len() > 0 {
        lemma_single_active_segment(start, steps.drop_last());
    }
}

/// The text of a segment that holds the entries of `events`, in order.
pub open spec fn segment_text(events: Seq<MessageEvent>) -> Seq<char>
    decreases events.len(),
{
    if events.len() == 0 {
        Seq::empty()
    } else {
        segment_text(events.drop_last()) + spec_format_entry(
            events.last().timestamp@,
            events.last().author_name@,
            events.last().text@,
        )
    }
}

/// The steps in which the entries of `events` are all written.
pub open spec fn written(events: Seq<MessageEvent>) -> Seq<IngestStep> {
    Seq::new(
        events.len(),
        |i: int|
            IngestStep {
                incoming: spec_estimate_tokens(events[i].text@) as usize,
                outcome: IngestOutcome::Written,
            },
    )
}

/// The tokens of all of `events`.
pub open spec fn total_tokens(events: Seq<MessageEvent>) -> nat
    decreases events.len(),
{
    if events.len() == 0 {
        0
    } else {
        total_tokens(events.drop_last()) + spec_estimate_tokens(events.last().text@)
    }
}

/// Replaying a segment gives the tokens of the messages that were written
/// into it: where `existing` is empty or ends with a line break, the count
/// recovered from `existing` followed by the entries of `events` is the count
/// recovered from `existing` and the tokens of all of `events`, provided each
/// message can be read back from its line. In particular a segment that
/// holds nothing but the entries of `events` counts for their tokens.
pub proof fn lemma_replay_counts_what_was_written(existing: Seq<char>, events: Seq<MessageEvent>)
    requires
        existing.len() == 0 || existing.last() == '\n',
        forall|i: int|
            0 <= i < events.len() ==> replayable(
                (#[trigger] events[i]).timestamp@,
                events[i].author_name@,
                events[i].text@,
            ),
    ensures
        spec_replay_tokens(existing + segment_text(events)) == spec_replay_tokens(existing)
            + total_tokens(events),
        spec_replay_tokens(segment_text(events)) == total_tokens(events),
        (existing + segment_text(events)).len() == 0 || (existing + segment_text(events)).last()
            == '\n',
    decreases events.len(), existing.len(),
{
    if events.len() == 0 {
        assert(existing + segment_text(events) == existing);
    } else {
        let init = events.drop_last();
        let last = events.last();
        lemma_replay_counts_what_was_written(existing, init);
        let before = existing + segment_text(init);
        let entry = spec_format_entry(last.timestamp@, last.author_name@, last.text@);
        assert(existing + segment_text(events) == before + entry);
        assert(replayable(events[events.len() - 1].timestamp@, last.author_name@, last.text@));
        lemma_replay_of_entry(last.timestamp@, last.author_name@, last.text@);
        lemma_replay_concat(before, entry);
        assert((before + entry).last() == '\n');
    }
    if existing.len() > 0 {
        lemma_replay_counts_what_was_written(Seq::empty(), events);
    } else {
        assert(existing + segment_text(events) == segment_text(events));
    }
}

/// Recounting a segment from its text gives what was counted while it was
/// written. Let the running count agree with the text that the active
/// segment holds, which is empty or ends with a line break. Let messages be
/// written that fit in the budget, each of which can be read back from its
/// line. Then the running count is the count recovered from the text that
/// the segment holds afterwards.
pub proof fn lemma_replay_matches_accumulation(
    start: BatcherState,
    existing: Seq<char>,
    events: Seq<MessageEvent>,
)
    requires
        existing.len() == 0 || existing.last() == '\n',
        start.running == spec_replay_tokens(existing),
        start.running + total_tokens(events) <= start.threshold,
        start.threshold <= usize::MAX,
        forall|i: int|
            0 <= i < events.len() ==> replayable(
                (#[trigger] events[i]).timestamp@,
                events[i].author_name@,
                events[i].text@,
            ),
    ensures
        state_after(start, written(events)).index == start.index,
        state_after(start, written(events)).running == start.running + total_tokens(events),
        state_after(start, written(events)).running == spec_replay_tokens(
            existing + segment_text(events),
        ),
    decreases events.len(),
{
    lemma_replay_counts_what_was_written(existing, events);
    if events.len() > 0 {
        let init = events.drop_last();
        let last = events.last();
        lemma_replay_matches_accumulation(start, existing, init);
        assert(written(events).drop_last() == written(init));
        let steps = written(events);
        assert(steps.last().incoming == spec_estimate_tokens(last.text@));
        assert(steps.last().outcome == IngestOutcome::Written);
        let prior = state_after(start, written(init));
        assert(prior.threshold == start.threshold) by {
            lemma_single_active_segment(start, written(init));
        }
        assert(total_tokens(events) == total_tokens(init) + spec_estimate_tokens(last.text@));
        assert(!prior.rotation_due(steps.last().incoming as nat));
        assert(state_after(start, steps) == prior.ingest(steps.last().incoming).complete(
            steps.last().outcome,
        ));
    }
}

} // verus!
