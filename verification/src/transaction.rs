//! The transaction that stores a digest: the digest's row and the links of
//! its summaries are committed together, or not at all.

use crate::error::StoreError;
use vstd::prelude::*;

verus! {

/// Where the transaction stands.
#[derive(Debug, Clone, Copy, PartialEq, Eq)]
pub enum TransactionPhase {
    /// Nothing is under way: not started yet, or over.
    Idle,
    /// The transaction is being opened.
    Beginning,
    /// The digest's row is being inserted.
    Inserting,
    /// The first `done` summaries are linked to the digest `digest_id`, and
    /// the next one is being linked.
    Linking { digest_id: i64, done: usize },
    /// Everything is written and the transaction is being committed.
    Committing,
}

/// What the transaction is told: to start, or how the statement ended that
/// it asked for last.
#[derive(Debug, PartialEq, Eq)]
pub enum TransactionEvent {
    Start,
    Began(Result<(), StoreError>),
    /// The digest's row was inserted and got this identity.
    DigestInserted(Result<i64, StoreError>),
    SummaryLinked(Result<(), StoreError>),
    Committed(Result<(), StoreError>),
}

/// The statement that the transaction asks for next, or its end.
#[derive(Debug, PartialEq, Eq)]
pub enum TransactionAction {
    /// Open a transaction.
    Begin,
    /// Insert a digest with this text.
    InsertDigest { text: String },
    /// Set the link of the summary `summary_id` to the digest `digest_id`, if
    /// the summary belongs to no digest yet.
    LinkSummary { digest_id: i64, summary_id: i64 },
    /// Commit what was written.
    Commit,
    /// Roll back what was written; the operation has failed with `error`.
    Rollback { error: StoreError },
    /// The operation is over, and no transaction is open.
    Done(Result<(), StoreError>),
}

/// The transaction's next phase and action, given its phase, the summaries
/// to link, the digest's text, and what it is told.
///
/// The statements follow one another as long as each succeeds: the opening,
/// the digest's row, one link for each summary in order, the commit. The
/// first failure ends the operation with that failure: where statements of
/// the transaction may have been carried out, they are rolled back. News
/// that the phase did not wait for end it in the same way.
pub open spec fn transaction_step(
    phase: TransactionPhase,
    summary_ids: Seq<i64>,
    text: String,
    event: TransactionEvent,
) -> (TransactionPhase, TransactionAction) {
    match (phase, event) {
        (_, TransactionEvent::Start) => (TransactionPhase::Beginning, TransactionAction::Begin),
        (TransactionPhase::Beginning, TransactionEvent::Began(Ok(_))) => (
            TransactionPhase::Inserting,
            TransactionAction::InsertDigest { text },
        ),
        (TransactionPhase::Beginning, TransactionEvent::Began(Err(error))) => (
            TransactionPhase::Idle,
            TransactionAction::Done(Err(error)),
        ),
        (TransactionPhase::Inserting, TransactionEvent::DigestInserted(Ok(digest_id))) => if 0
            < summary_ids.len() {
            (
                TransactionPhase::Linking { digest_id, done: 0 },
                TransactionAction::LinkSummary { digest_id, summary_id: summary_ids[0] },
            )
        } else {
            (TransactionPhase::Committing, TransactionAction::Commit)
        },
        (TransactionPhase::Inserting, TransactionEvent::DigestInserted(Err(error))) => (
            TransactionPhase::Idle,
            TransactionAction::Rollback { error },
        ),
        (TransactionPhase::Linking { digest_id, done }, TransactionEvent::SummaryLinked(Ok(_))) => if done
            + 1 < summary_ids.len() {
            (
                TransactionPhase::Linking { digest_id, done: (done + 1) as usize },
                TransactionAction::LinkSummary { digest_id, summary_id: summary_ids[done + 1] },
            )
        } else {
            (TransactionPhase::Committing, TransactionAction::Commit)
        },
        (TransactionPhase::Linking { .. }, TransactionEvent::SummaryLinked(Err(error))) => (
            TransactionPhase::Idle,
            TransactionAction::Rollback { error },
        ),
        (TransactionPhase::Committing, TransactionEvent::Committed(Ok(_))) => (
            TransactionPhase::Idle,
            TransactionAction::Done(Ok(())),
        ),
        (TransactionPhase::Committing, TransactionEvent::Committed(Err(error))) => (
            TransactionPhase::Idle,
            TransactionAction::Done(Err(error)),
        ),
        (TransactionPhase::Idle, _) => (
            TransactionPhase::Idle,
            TransactionAction::Done(Err(StoreError::Interrupted)),
        ),
        (_, _) => (
            TransactionPhase::Idle,
            TransactionAction::Rollback { error: StoreError::Interrupted },
        ),
    }
}

/// The storing of one digest with the links of its summaries.
#[derive(Debug)]
pub struct DigestTransaction {
    pub phase: TransactionPhase,
    /// The text of the digest, until its insert is asked for.
    pub digest_text: String,
    /// The summaries to link to the digest.
    pub summary_ids: Vec<i64>,
}

impl DigestTransaction {
    /// A transaction that stores `digest_text` as a digest of the summaries
    /// `summary_ids`; it waits to be started.
    pub fn new(digest_text: String, summary_ids: Vec<i64>) -> (transaction: DigestTransaction)
        ensures
            transaction.phase == TransactionPhase::Idle,
            transaction.digest_text == digest_text,
            transaction.summary_ids == summary_ids,
    {
        DigestTransaction { phase: TransactionPhase::Idle, digest_text, summary_ids }
    }

    /// Takes in the start, or the outcome of the statement asked for last,
    /// and says what to do next. The digest's text leaves with the insert
    /// that is asked for.
    pub fn step(&mut self, event: TransactionEvent) -> (action: TransactionAction)
        ensures
            (final(self).phase, action) == transaction_step(
                old(self).phase,
                old(self).summary_ids@,
                old(self).digest_text,
                event,
            ),
            final(self).summary_ids == old(self).summary_ids,
            action is InsertDigest ==> final(self).digest_text@.len() == 0,
            !(action is InsertDigest) ==> final(self).digest_text == old(self).digest_text,
    {
        let phase = self.phase;
        self.phase = TransactionPhase::Idle;
        match event {
            TransactionEvent::Start => {
                self.phase = TransactionPhase::Beginning;
                TransactionAction::Begin
            },
            TransactionEvent::Began(began) => match phase {
                TransactionPhase::Beginning => match began {
                    Ok(_) => {
                        self.phase = TransactionPhase::Inserting;
                        let mut text = String::new();
                        std::mem::swap(&mut text, &mut self.digest_text);
                        TransactionAction::InsertDigest { text }
                    },
                    Err(error) => TransactionAction::Done(Err(error)),
                },
                TransactionPhase::Idle => TransactionAction::Done(Err(StoreError::Interrupted)),
                _ => TransactionAction::Rollback { error: StoreError::Interrupted },
            },
            TransactionEvent::DigestInserted(inserted) => match phase {
                TransactionPhase::Inserting => match inserted {
                    Ok(digest_id) => {
                        if 0 < self.summary_ids.len() {
                            self.phase = TransactionPhase::Linking { digest_id, done: 0 };
                            TransactionAction::LinkSummary {
                                digest_id,
                                summary_id: self.summary_ids[0],
                            }
                        } else {
                            self.phase = TransactionPhase::Committing;
                            TransactionAction::Commit
                        }
                    },
                    Err(error) => TransactionAction::Rollback { error },
                },
                TransactionPhase::Idle => TransactionAction::Done(Err(StoreError::Interrupted)),
                _ => TransactionAction::Rollback { error: StoreError::Interrupted },
            },
            TransactionEvent::SummaryLinked(linked) => match phase {
                TransactionPhase::Linking { digest_id, done } => match linked {
                    Ok(_) => {
                        if done < self.summary_ids.len() && done + 1 < self.summary_ids.len() {
                            self.phase = TransactionPhase::Linking { digest_id, done: done + 1 };
                            TransactionAction::LinkSummary {
                                digest_id,
                                summary_id: self.summary_ids[done + 1],
                            }
                        } else {
                            self.phase = TransactionPhase::Committing;
                            TransactionAction::Commit
                        }
                    },
                    Err(error) => TransactionAction::Rollback { error },
                },
                TransactionPhase::Idle => TransactionAction::Done(Err(StoreError::Interrupted)),
                _ => TransactionAction::Rollback { error: StoreError::Interrupted },
            },
            TransactionEvent::Committed(committed) => match phase {
                TransactionPhase::Committing => match committed {
                    Ok(_) => TransactionAction::Done(Ok(())),
                    Err(error) => TransactionAction::Done(Err(error)),
                },
                TransactionPhase::Idle => TransactionAction::Done(Err(StoreError::Interrupted)),
                _ => TransactionAction::Rollback { error: StoreError::Interrupted },
            },
        }
    }
}

/// Nothing is committed before everything is written: the commit is asked
/// for only on the success of the last link, or of the digest's insert when
/// there is no summary to link.
pub proof fn lemma_commit_only_after_all_links(
    phase: TransactionPhase,
    summary_ids: Seq<i64>,
    text: String,
    event: TransactionEvent,
)
    ensures
        transaction_step(phase, summary_ids, text, event).1 is Commit ==> {
            ||| (phase matches TransactionPhase::Linking { done, .. } && done + 1 >= summary_ids.len()
                && event matches TransactionEvent::SummaryLinked(Ok(_)))
            ||| (phase is Inserting && summary_ids.len() == 0
                && event matches TransactionEvent::DigestInserted(Ok(_)))
        },
{
}

/// A failure commits nothing: told that a statement failed, the transaction
/// asks for no further statement and for no commit; it ends, with a rollback
/// wherever a statement of the transaction may have been carried out.
pub proof fn lemma_failure_commits_nothing(
    phase: TransactionPhase,
    summary_ids: Seq<i64>,
    text: String,
    event: TransactionEvent,
)
    requires
        event matches TransactionEvent::Began(Err(_))
            || event matches TransactionEvent::DigestInserted(Err(_))
            || event matches TransactionEvent::SummaryLinked(Err(_))
            || event matches TransactionEvent::Committed(Err(_)),
    ensures
        transaction_step(phase, summary_ids, text, event).0 == TransactionPhase::Idle,
        transaction_step(phase, summary_ids, text, event).1 is Rollback || (transaction_step(
            phase,
            summary_ids,
            text,
            event,
        ).1 matches TransactionAction::Done(Err(_))),
        (phase is Inserting || phase is Linking) ==> transaction_step(
            phase,
            summary_ids,
            text,
            event,
        ).1 is Rollback,
{
}

/// The links follow the summaries in order: while links succeed, the
/// transaction links to the inserted digest one summary after the other,
/// each once, and none but those it was made for.
pub proof fn lemma_links_in_order(
    summary_ids: Seq<i64>,
    text: String,
    digest_id: i64,
    done: usize,
)
    requires
        done + 1 < summary_ids.len(),
        summary_ids.len() <= usize::MAX,
    ensures
        transaction_step(
            TransactionPhase::Linking { digest_id, done },
            summary_ids,
            text,
            TransactionEvent::SummaryLinked(Ok(())),
        ) == (
            TransactionPhase::Linking { digest_id, done: (done + 1) as usize },
            TransactionAction::LinkSummary { digest_id, summary_id: summary_ids[done + 1] },
        ),
        transaction_step(
            TransactionPhase::Inserting,
            summary_ids,
            text,
            TransactionEvent::DigestInserted(Ok(digest_id)),
        ) == (
            TransactionPhase::Linking { digest_id, done: 0 },
            TransactionAction::LinkSummary { digest_id, summary_id: summary_ids[0] },
        ),
{
}

} // verus!
