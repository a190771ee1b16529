//! The recap aggregator: on each tick of its timer it rolls the summaries
//! since the last digest into a new digest.

use crate::db::{
    eligible, fetch_summaries_since, latest_digest_timestamp, latest_timestamp, summary_ids, Store,
    Summary,
};
use crate::error::{OracleError, StoreError};
use vstd::prelude::*;

verus! {

/// The texts of the summaries `rows`.
pub open spec fn texts_of(rows: Seq<Summary>) -> Seq<Seq<char>> {
    Seq::new(rows.len(), |i: int| rows[i].text@)
}

/// The texts `texts` in one, with a space between each two.
pub open spec fn joined(texts: Seq<Seq<char>>) -> Seq<char>
    decreases texts.len(),
{
    if texts.len() == 0 {
        Seq::empty()
    } else if texts.len() == 1 {
        texts[0]
    } else {
        joined(texts.drop_last()) + seq![' '] + texts.last()
    }
}

/// Joins the texts of `rows` with spaces.
pub fn join_texts(rows: &Vec<Summary>) -> (text: String)
    ensures
        text@ == joined(texts_of(rows@)),
{
    let mut text = String::new();
    let mut i: usize = 0;
    let ghost texts = texts_of(rows@);
    assert(texts.take(0).len() == 0);
    while i < rows.len()
        invariant
            i <= rows.len(),
            texts == texts_of(rows@),
            text@ == joined(texts.take(i as int)),
        decreases rows.len() - i,
    {
        proof {
            reveal_strlit(" ");
            assert(" "@ == seq![' ']);
            assert(texts.take(i + 1).drop_last() == texts.take(i as int));
            assert(texts.take(i + 1).last() == rows@[i as int].text@);
            if i == 0 {
                assert(texts.take(1)[0] == rows@[0].text@);
                assert(Seq::<char>::empty() + rows@[0].text@ == rows@[0].text@);
            }
        }
        if i > 0 {
            text.append(" ");
        }
        text.append(rows[i].text.as_str());
        i += 1;
    }
    assert(texts.take(rows.len() as int) == texts);
    text
}

/// The identities of `rows`, in order.
pub fn ids_of(rows: &Vec<Summary>) -> (ids: Vec<i64>)
    ensures
        ids@ == summary_ids(rows@),
{
    let mut ids: Vec<i64> = Vec::new();
    let mut i: usize = 0;
    while i < rows.len()
        invariant
            i <= rows.len(),
            ids@ == summary_ids(rows@).take(i as int),
        decreases rows.len() - i,
    {
        ids.push(rows[i].id);
        assert(summary_ids(rows@).take(i + 1) == summary_ids(rows@).take(i as int).push(
            rows@[i as int].id,
        ));
        i += 1;
    }
    assert(summary_ids(rows@).take(rows.len() as int) == summary_ids(rows@));
    ids
}

/// Where the aggregator stands in the work of a tick.
#[derive(Debug, Clone, Copy, PartialEq, Eq)]
pub enum RecapPhase {
    /// Between two ticks.
    Idle,
    /// The store's rows are being loaded.
    Loading,
    /// The oracle is being asked for the digest.
    Summarizing,
    /// The digest and its links are being stored.
    Committing,
}

/// What the aggregator is told: a tick of its timer, or how the outside work
/// ended that it asked for last.
#[derive(Debug, PartialEq, Eq)]
pub enum RecapEvent {
    Tick,
    StoreLoaded(Result<Store, StoreError>),
    Summarized(Result<String, OracleError>),
    DigestInserted(Result<(), StoreError>),
}

/// The outside work that the aggregator asks for next.
#[derive(Debug, PartialEq, Eq)]
pub enum RecapAction {
    /// Nothing is left to do for this tick: wait for the next one.
    AwaitTick,
    /// Load the rows of the store.
    LoadStore,
    /// Ask the oracle to summarize the text.
    Summarize { text: String },
    /// In one transaction, store the text as a new digest and link to it the
    /// summaries named.
    InsertDigest { text: String, summary_ids: Vec<i64> },
}

/// An action as a mathematical value.
pub enum RecapDecision {
    AwaitTick,
    LoadStore,
    Summarize { text: Seq<char> },
    InsertDigest { text: Seq<char>, summary_ids: Seq<i64> },
}

impl View for RecapAction {
    type V = RecapDecision;

    open spec fn view(&self) -> RecapDecision {
        match self {
            RecapAction::AwaitTick => RecapDecision::AwaitTick,
            RecapAction::LoadStore => RecapDecision::LoadStore,
            RecapAction::Summarize { text } => RecapDecision::Summarize { text: text@ },
            RecapAction::InsertDigest { text, summary_ids } => RecapDecision::InsertDigest {
                text: text@,
                summary_ids: summary_ids@,
            },
        }
    }
}

/// The summaries that a recap over `store` takes in: those at or after the
/// time of the latest digest, or all of them when there is no digest yet,
/// from the oldest to the newest.
pub open spec fn recap_input(store: Store) -> Seq<Summary> {
    eligible(store.summaries@, latest_timestamp(store.daily_digests@))
}

/// The aggregator's next phase, the summaries it keeps in mind, and its
/// action, given its phase, the summaries it had in mind, and what it is told.
///
/// A tick starts with the loading of the store. With the store loaded, and
/// summaries to take in, the oracle is asked for a digest of their texts,
/// joined by spaces; with none to take in, the tick is over. The oracle's
/// answer is stored as the digest of the summaries that went in. Any
/// failure, and any news that the phase did not wait for, ends the tick with
/// nothing more done.
pub open spec fn decide(phase: RecapPhase, pending: Seq<i64>, event: RecapEvent) -> (
    RecapPhase,
    Seq<i64>,
    RecapDecision,
) {
    match event {
        RecapEvent::Tick => (RecapPhase::Loading, Seq::empty(), RecapDecision::LoadStore),
        RecapEvent::StoreLoaded(Ok(store)) => if phase == RecapPhase::Loading && recap_input(
            store,
        ).len() > 0 {
            (
                RecapPhase::Summarizing,
                summary_ids(recap_input(store)),
                RecapDecision::Summarize { text: joined(texts_of(recap_input(store))) },
            )
        } else {
            (RecapPhase::Idle, Seq::empty(), RecapDecision::AwaitTick)
        },
        RecapEvent::Summarized(Ok(digest)) => if phase == RecapPhase::Summarizing {
            (
                RecapPhase::Committing,
                Seq::empty(),
                RecapDecision::InsertDigest { text: digest@, summary_ids: pending },
            )
        } else {
            (RecapPhase::Idle, Seq::empty(), RecapDecision::AwaitTick)
        },
        _ => (RecapPhase::Idle, Seq::empty(), RecapDecision::AwaitTick),
    }
}

/// The recap aggregator's state.
#[derive(Debug)]
pub struct DailyRecapService {
    /// The seconds between two ticks.
    pub interval_seconds: u64,
    pub phase: RecapPhase,
    /// The summaries that went into the digest that is being made.
    pub pending_ids: Vec<i64>,
}

impl DailyRecapService {
    /// An aggregator that waits for its first tick.
    pub fn new(interval_seconds: u64) -> (service: DailyRecapService)
        ensures
            service.interval_seconds == interval_seconds,
            service.phase == RecapPhase::Idle,
            service.pending_ids@.len() == 0,
    {
        DailyRecapService { interval_seconds, phase: RecapPhase::Idle, pending_ids: Vec::new() }
    }

    /// Takes in a tick, or the outcome of the work asked for last, and says
    /// what to do next.
    pub fn step(&mut self, event: RecapEvent) -> (action: RecapAction)
        ensures
            final(self).interval_seconds == old(self).interval_seconds,
            (final(self).phase, final(self).pending_ids@, action@) == decide(
                old(self).phase,
                old(self).pending_ids@,
                event,
            ),
    {
        let phase = self.phase;
        let mut pending: Vec<i64> = Vec::new();
        std::mem::swap(&mut pending, &mut self.pending_ids);
        self.phase = RecapPhase::Idle;
        match event {
            RecapEvent::Tick => {
                self.phase = RecapPhase::Loading;
                RecapAction::LoadStore
            },
            RecapEvent::StoreLoaded(Ok(store)) => match phase {
                RecapPhase::Loading => {
                    let watermark = latest_digest_timestamp(&store);
                    let rows = fetch_summaries_since(&store, watermark);
                    if rows.len() == 0 {
                        RecapAction::AwaitTick
                    } else {
                        self.phase = RecapPhase::Summarizing;
                        self.pending_ids = ids_of(&rows);
                        RecapAction::Summarize { text: join_texts(&rows) }
                    }
                },
                _ => RecapAction::AwaitTick,
            },
            RecapEvent::Summarized(Ok(digest)) => match phase {
                RecapPhase::Summarizing => {
                    self.phase = RecapPhase::Committing;
                    RecapAction::InsertDigest { text: digest, summary_ids: pending }
                },
                _ => RecapAction::AwaitTick,
            },
            _ => RecapAction::AwaitTick,
        }
    }
}

/// A tick with nothing to take in does nothing: when the loaded store holds
/// no summary at or after the time of its latest digest, the aggregator asks
/// neither the oracle nor the store for anything and waits for the next tick.
pub proof fn lemma_no_op_recap(phase: RecapPhase, pending: Seq<i64>, store: Store)
    requires
        recap_input(store).len() == 0,
    ensures
        decide(phase, pending, RecapEvent::StoreLoaded(Ok(store))) == (
            RecapPhase::Idle,
            Seq::<i64>::empty(),
            RecapDecision::AwaitTick,
        ),
{
}

/// No digest is stored without the oracle's answer: the aggregator asks for
/// the insert of a digest only when it is told that the oracle answered, and
/// then for that answer and the summaries that went into the question. After
/// a failure of the store or of the oracle it asks for nothing.
pub proof fn lemma_digest_only_from_answer(phase: RecapPhase, pending: Seq<i64>, event: RecapEvent)
    ensures
        decide(phase, pending, event).2 matches RecapDecision::InsertDigest { text, summary_ids }
            ==> {
            &&& phase == RecapPhase::Summarizing
            &&& event matches RecapEvent::Summarized(Ok(digest)) && digest@ == text
            &&& summary_ids == pending
        },
        (event matches RecapEvent::Summarized(Err(_)) || event matches RecapEvent::StoreLoaded(
            Err(_),
        ) || event matches RecapEvent::DigestInserted(Err(_))) ==> decide(phase, pending, event) == (
            RecapPhase::Idle,
            Seq::<i64>::empty(),
            RecapDecision::AwaitTick,
        ),
{
}

/// The digest is linked to the summaries that it was made of: from the
/// loading of a store with summaries to take in, over the oracle's answer,
/// the insert names exactly those summaries.
pub proof fn lemma_digest_links_its_input(store: Store, digest: String)
    requires
        recap_input(store).len() > 0,
    ensures
        ({
            let loaded = decide(
                RecapPhase::Loading,
                Seq::<i64>::empty(),
                RecapEvent::StoreLoaded(Ok(store)),
            );
            let answered = decide(loaded.0, loaded.1, RecapEvent::Summarized(Ok(digest)));
            answered.2 == (RecapDecision::InsertDigest {
                text: digest@,
                summary_ids: summary_ids(recap_input(store)),
            })
        }),
{
}

/// What a whole tick asks for, whatever came before it. The store is loaded.
/// With nothing to take in, neither the oracle nor the store is asked for
/// anything more. With summaries to take in, the oracle is asked about their
/// texts; if it fails, the store is asked for nothing and keeps every row
/// and link; if it answers, the one insert that follows stores the answer
/// with the identities of the summaries that were taken in.
pub proof fn lemma_tick(
    phase: RecapPhase,
    pending: Seq<i64>,
    store: Store,
    answer: Result<String, OracleError>,
)
    ensures
        ({
            let ticked = decide(phase, pending, RecapEvent::Tick);
            let loaded = decide(ticked.0, ticked.1, RecapEvent::StoreLoaded(Ok(store)));
            let answered = decide(loaded.0, loaded.1, RecapEvent::Summarized(answer));
            &&& ticked.2 == RecapDecision::LoadStore
            &&& recap_input(store).len() == 0 ==> loaded == (
                RecapPhase::Idle,
                Seq::<i64>::empty(),
                RecapDecision::AwaitTick,
            )
            &&& recap_input(store).len() > 0 ==> loaded.2 == (RecapDecision::Summarize {
                text: joined(texts_of(recap_input(store))),
            })
            &&& recap_input(store).len() > 0 && answer is Err ==> answered == (
                RecapPhase::Idle,
                Seq::<i64>::empty(),
                RecapDecision::AwaitTick,
            )
            &&& recap_input(store).len() > 0 ==> (answer matches Ok(digest) ==> answered.2 == (
                RecapDecision::InsertDigest {
                    text: digest@,
                    summary_ids: summary_ids(recap_input(store)),
                }
            ))
        }),
{
}

} // verus!
