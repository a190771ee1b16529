//! The relational store as the pipeline sees it: the rows of its two tables,
//! the queries that are asked of them, and the two ways in which they grow.

use crate::error::StoreError;
use vstd::prelude::*;

verus! {

/// A point in time: whole seconds since the epoch, and the nanoseconds into
/// the second.
#[derive(Debug, Clone, Copy, PartialEq, Eq)]
pub struct Timestamp {
    pub secs: i64,
    pub nanos: u32,
}

impl Timestamp {
    /// Whether `self` is `other` or earlier.
    pub open spec fn le(self, other: Timestamp) -> bool {
        self.secs < other.secs || (self.secs == other.secs && self.nanos <= other.nanos)
    }

    /// Tells whether `self` is `other` or earlier.
    pub fn at_or_before(self, other: Timestamp) -> (r: bool)
        ensures
            r == self.le(other),
    {
        self.secs < other.secs || (self.secs == other.secs && self.nanos <= other.nanos)
    }
}

/// The summary of one segment.
#[derive(Debug, PartialEq, Eq)]
pub struct Summary {
    pub id: i64,
    /// The digest that the summary belongs to, once it belongs to one.
    pub daily_digest_id: Option<i64>,
    pub text: String,
    pub timestamp: Timestamp,
}

/// A digest as its own table holds it.
#[derive(Debug, PartialEq, Eq)]
pub struct DailyDigestData {
    pub id: i64,
    pub text: String,
    pub timestamp: Timestamp,
}

/// A digest together with the summaries that belong to it.
#[derive(Debug, PartialEq, Eq)]
pub struct DailyDigest {
    pub id: i64,
    pub text: String,
    pub timestamp: Timestamp,
    pub summaries: Vec<Summary>,
}

/// The rows of the store's two tables, in the order of their insertion.
#[derive(Debug, PartialEq, Eq)]
pub struct Store {
    pub summaries: Vec<Summary>,
    pub daily_digests: Vec<DailyDigestData>,
}

/// Whether no two of the identities `ids` are the same.
pub open spec fn distinct(ids: Seq<i64>) -> bool {
    forall|i: int, j: int| 0 <= i < j < ids.len() ==> ids[i] != ids[j]
}

impl Store {
    /// Whether the rows are those of a store: no two summaries have the same
    /// identity, and no two digests.
    pub open spec fn well_formed(&self) -> bool {
        &&& distinct(summary_ids(self.summaries@))
        &&& distinct(digest_ids(self.daily_digests@))
    }

    /// A store without rows.
    pub fn new() -> (store: Store)
        ensures
            store.summaries@.len() == 0,
            store.daily_digests@.len() == 0,
            store.well_formed(),
    {
        Store { summaries: Vec::new(), daily_digests: Vec::new() }
    }

    /// The store that holds the given rows, if their identities are distinct
    /// in each table.
    pub fn from_rows(summaries: Vec<Summary>, daily_digests: Vec<DailyDigestData>) -> (r: Option<
        Store,
    >)
        ensures
            r is Some <==> distinct(summary_ids(summaries@)) && distinct(
                digest_ids(daily_digests@),
            ),
            r matches Some(store) ==> store.summaries == summaries && store.daily_digests
                == daily_digests && store.well_formed(),
    {
        let summary_list = ids_of_summaries(&summaries);
        let digest_list = ids_of_digests(&daily_digests);
        if all_distinct(&summary_list) && all_distinct(&digest_list) {
            Some(Store { summaries, daily_digests })
        } else {
            None
        }
    }
}

/// The identities of the summaries `rows`, in order.
pub fn ids_of_summaries(rows: &Vec<Summary>) -> (ids: Vec<i64>)
    ensures
        ids@ == summary_ids(rows@),
{
    let mut ids: Vec<i64> = Vec::new();
    let mut i: usize = 0;
    while i < rows.len()
        invariant
            i <= rows.len(),
            ids@ == summary_ids(rows@).take(i as int),
        decreases rows.len() - i,
    {
        ids.push(rows[i].id);
        assert(summary_ids(rows@).take(i + 1) == summary_ids(rows@).take(i as int).push(
            rows@[i as int].id,
        ));
        i += 1;
    }
    assert(summary_ids(rows@).take(rows.len() as int) == summary_ids(rows@));
    ids
}

/// The identities of the digests `rows`, in order.
pub fn ids_of_digests(rows: &Vec<DailyDigestData>) -> (ids: Vec<i64>)
    ensures
        ids@ == digest_ids(rows@),
{
    let mut ids: Vec<i64> = Vec::new();
    let mut i: usize = 0;
    while i < rows.len()
        invariant
            i <= rows.len(),
            ids@ == digest_ids(rows@).take(i as int),
        decreases rows.len() - i,
    {
        ids.push(rows[i].id);
        assert(digest_ids(rows@).take(i + 1) == digest_ids(rows@).take(i as int).push(
            rows@[i as int].id,
        ));
        i += 1;
    }
    assert(digest_ids(rows@).take(rows.len() as int) == digest_ids(rows@));
    ids
}

/// Tells whether no two of `ids` are the same.
pub fn all_distinct(ids: &Vec<i64>) -> (r: bool)
    ensures
        r == distinct(ids@),
{
    let mut i: usize = 0;
    while i < ids.len()
        invariant
            i <= ids.len(),
            forall|a: int, b: int| 0 <= a < b < ids.len() && a < i ==> ids@[a] != ids@[b],
        decreases ids.len() - i,
    {
        let mut j: usize = i + 1;
        while j < ids.len()
            invariant
                i < j <= ids.len(),
                forall|b: int| i < b < j ==> ids@[i as int] != ids@[b],
            decreases ids.len() - j,
        {
            if ids[i] == ids[j] {
                return false;
            }
            j += 1;
        }
        i += 1;
    }
    true
}

/// The largest of the identities `ids`, or zero if none is positive.
pub open spec fn max_id(ids: Seq<i64>) -> int
    decreases ids.len(),
{
    if ids.len() == 0 {
        0
    } else if ids.last() > max_id(ids.drop_last()) {
        ids.last() as int
    } else {
        max_id(ids.drop_last())
    }
}

/// The identities of the summaries `rows`.
pub open spec fn summary_ids(rows: Seq<Summary>) -> Seq<i64> {
    Seq::new(rows.len(), |i: int| rows[i].id)
}

/// The identities of the digests `rows`.
pub open spec fn digest_ids(rows: Seq<DailyDigestData>) -> Seq<i64> {
    Seq::new(rows.len(), |i: int| rows[i].id)
}

/// A new row's identity is no other row's: the identity above the largest
/// of `ids` is positive and is none of `ids`.
pub proof fn lemma_next_id_is_fresh(ids: Seq<i64>)
    ensures
        max_id(ids) + 1 > 0,
        forall|i: int| 0 <= i < ids.len() ==> #[trigger] ids[i] < max_id(ids) + 1,
    decreases ids.len(),
{
    if ids.len() > 0 {
        lemma_next_id_is_fresh(ids.drop_last());
        assert forall|i: int| 0 <= i < ids.len() implies #[trigger] ids[i] < max_id(ids) + 1 by {
            if i < ids.len() - 1 {
                assert(ids.drop_last()[i] == ids[i]);
            }
        }
    }
}

/// Whether a summary falls in the window that starts at `watermark`: at the
/// watermark or after it. Without a watermark every summary does.
pub open spec fn in_window(row: Summary, watermark: Option<Timestamp>) -> bool {
    match watermark {
        Some(mark) => mark.le(row.timestamp),
        None => true,
    }
}

/// The summaries of `rows` that fall in the window that starts at `watermark`,
/// in the order of `rows`.
pub open spec fn since(rows: Seq<Summary>, watermark: Option<Timestamp>) -> Seq<Summary> {
    rows.filter(|row: Summary| in_window(row, watermark))
}

/// Where a summary of the time `at` goes into `sorted`: behind the last row
/// that is not later than it.
pub open spec fn insertion_point(sorted: Seq<Summary>, at: Timestamp) -> int
    decreases sorted.len(),
{
    if sorted.len() == 0 {
        0
    } else if sorted.last().timestamp.le(at) {
        sorted.len() as int
    } else {
        insertion_point(sorted.drop_last(), at)
    }
}

/// The summaries `rows` from the oldest to the newest; those of one time stay
/// in the order of `rows`.
pub open spec fn oldest_first(rows: Seq<Summary>) -> Seq<Summary>
    decreases rows.len(),
{
    if rows.len() == 0 {
        rows
    } else {
        let sorted = oldest_first(rows.drop_last());
        sorted.insert(insertion_point(sorted, rows.last().timestamp), rows.last())
    }
}

/// Whether no summary of `rows` stands before an older one.
pub open spec fn is_oldest_first(rows: Seq<Summary>) -> bool {
    forall|i: int, j: int|
        0 <= i <= j < rows.len() ==> (#[trigger] rows[i]).timestamp.le((#[trigger] rows[j]).timestamp)
}

/// Before the insertion point stand rows that are not later than `at`, from it
/// on rows that are later.
pub proof fn lemma_insertion_point(sorted: Seq<Summary>, at: Timestamp)
    requires
        is_oldest_first(sorted),
    ensures
        0 <= insertion_point(sorted, at) <= sorted.len(),
        forall|k: int|
            0 <= k < insertion_point(sorted, at) ==> (#[trigger] sorted[k]).timestamp.le(at),
        forall|k: int|
            insertion_point(sorted, at) <= k < sorted.len() ==> !(#[trigger] sorted[k]).timestamp.le(
                at,
            ),
    decreases sorted.len(),
{
    if sorted.len() > 0 {
        let init = sorted.drop_last();
        assert forall|i: int, j: int| 0 <= i <= j < init.len() implies (#[trigger] init[i]).timestamp.le(
            (#[trigger] init[j]).timestamp,
        ) by {
            assert(init[i] == sorted[i] && init[j] == sorted[j]);
        }
        lemma_insertion_point(init, at);
        if sorted.last().timestamp.le(at) {
            assert forall|k: int| 0 <= k < sorted.len() implies (#[trigger] sorted[k]).timestamp.le(
                at,
            ) by {
                assert(sorted[k].timestamp.le(sorted[sorted.len() - 1].timestamp));
            }
        } else {
            assert forall|k: int| 0 <= k < insertion_point(sorted, at) implies (
            #[trigger] sorted[k]).timestamp.le(at) by {
                assert(init[k] == sorted[k]);
            }
            assert forall|k: int| insertion_point(sorted, at) <= k < sorted.len() implies !(
            #[trigger] sorted[k]).timestamp.le(at) by {
                if k < sorted.len() - 1 {
                    assert(init[k] == sorted[k]);
                }
            }
        }
    }
}

/// Ordering by time puts no summary before an older one, and neither loses
/// nor adds a summary.
pub proof fn lemma_oldest_first_sorts(rows: Seq<Summary>)
    ensures
        is_oldest_first(oldest_first(rows)),
        oldest_first(rows).len() == rows.len(),
        oldest_first(rows).to_multiset() == rows.to_multiset(),
    decreases rows.len(),
{
    if rows.len() > 0 {
        let init = rows.drop_last();
        let last = rows.last();
        lemma_oldest_first_sorts(init);
        let sorted = oldest_first(init);
        lemma_insertion_point(sorted, last.timestamp);
        let at = insertion_point(sorted, last.timestamp);
        let out = sorted.insert(at, last);
        assert forall|i: int, j: int| 0 <= i <= j < out.len() implies (#[trigger] out[i]).timestamp.le(
            (#[trigger] out[j]).timestamp,
        ) by {
            if j < at {
                assert(out[i] == sorted[i] && out[j] == sorted[j]);
            } else if j == at {
                if i < at {
                    assert(out[i] == sorted[i]);
                }
            } else {
                assert(out[j] == sorted[j - 1]);
                if i < at {
                    assert(out[i] == sorted[i]);
                } else if i == at {
                } else {
                    assert(out[i] == sorted[i - 1]);
                }
            }
        }
        vstd::seq_lib::to_multiset_insert(sorted, at, last);
        assert(rows == init.push(last));
        vstd::seq_lib::to_multiset_build(init, last);
    }
}

/// The summaries that a recap takes in: those in the window that starts at
/// `watermark`, from the oldest to the newest.
pub open spec fn eligible(rows: Seq<Summary>, watermark: Option<Timestamp>) -> Seq<Summary> {
    oldest_first(since(rows, watermark))
}

/// The time of the latest of the digests `rows`, if there is any digest.
pub open spec fn latest_timestamp(rows: Seq<DailyDigestData>) -> Option<Timestamp>
    decreases rows.len(),
{
    if rows.len() == 0 {
        None
    } else {
        match latest_timestamp(rows.drop_last()) {
            Some(latest) => if latest.le(rows.last().timestamp) {
                Some(rows.last().timestamp)
            } else {
                Some(latest)
            },
            None => Some(rows.last().timestamp),
        }
    }
}

/// The latest time is the time of one of the digests, and none is later.
pub proof fn lemma_latest_timestamp(rows: Seq<DailyDigestData>)
    ensures
        latest_timestamp(rows) is None <==> rows.len() == 0,
        latest_timestamp(rows) matches Some(latest) ==> {
            &&& exists|i: int| 0 <= i < rows.len() && (#[trigger] rows[i]).timestamp == latest
            &&& forall|i: int| 0 <= i < rows.len() ==> (#[trigger] rows[i]).timestamp.le(latest)
        },
    decreases rows.len(),
{
    if rows.len() > 0 {
        let init = rows.drop_last();
        lemma_latest_timestamp(init);
        let latest = latest_timestamp(rows).unwrap();
        if latest == rows.last().timestamp {
            assert(rows[rows.len() - 1].timestamp == latest);
        } else {
            let i = choose|i: int| 0 <= i < init.len() && (#[trigger] init[i]).timestamp == latest;
            assert(rows[i].timestamp == latest);
        }
        assert forall|i: int| 0 <= i < rows.len() implies (#[trigger] rows[i]).timestamp.le(
            latest,
        ) by {
            if i < rows.len() - 1 {
                assert(init[i] == rows[i]);
            }
        }
    }
}

/// The summaries `rows` once those named in `ids` that belong to no digest yet
/// are linked to the digest `digest_id`. A summary that belongs to a digest
/// keeps its link, named or not; a summary that is not named stays as it is.
pub open spec fn linked(rows: Seq<Summary>, ids: Seq<i64>, digest_id: i64) -> Seq<Summary> {
    Seq::new(
        rows.len(),
        |i: int|
            if ids.contains(rows[i].id) && rows[i].daily_digest_id is None {
                Summary { daily_digest_id: Some(digest_id), ..rows[i] }
            } else {
                rows[i]
            },
    )
}

/// The summaries of `rows` that belong to the digest `digest_id`, in the order
/// of `rows`.
pub open spec fn members(rows: Seq<Summary>, digest_id: i64) -> Seq<Summary> {
    rows.filter(|row: Summary| row.daily_digest_id == Some(digest_id))
}

/// The part of `rows` that the page `page` shows, `count` rows to a page, the
/// first page being page 1.
pub open spec fn page_of(rows: Seq<Summary>, count: nat, page: nat) -> Seq<Summary> {
    let offset = count * (page - 1);
    if offset >= rows.len() {
        Seq::empty()
    } else if offset + count >= rows.len() {
        rows.subrange(offset, rows.len() as int)
    } else {
        rows.subrange(offset, offset + count)
    }
}

/// A copy of a summary.
pub fn copy_summary(row: &Summary) -> (copy: Summary)
    ensures
        copy == *row,
{
    Summary {
        id: row.id,
        daily_digest_id: row.daily_digest_id,
        text: row.text.clone(),
        timestamp: row.timestamp,
    }
}

/// Orders summaries from the oldest to the newest.
pub fn sort_oldest_first(rows: &Vec<Summary>) -> (out: Vec<Summary>)
    ensures
        out@ == oldest_first(rows@),
{
    let mut out: Vec<Summary> = Vec::new();
    let mut i: usize = 0;
    assert(rows@.take(0) == Seq::<Summary>::empty());
    while i < rows.len()
        invariant
            i <= rows.len(),
            out@ == oldest_first(rows@.take(i as int)),
        decreases rows.len() - i,
    {
        let at = rows[i].timestamp;
        let mut j: usize = out.len();
        assert(out@.take(j as int) == out@);
        while j > 0 && !out[j - 1].timestamp.at_or_before(at)
            invariant
                j <= out.len(),
                insertion_point(out@, at) == insertion_point(out@.take(j as int), at),
            decreases j,
        {
            assert(out@.take(j as int).drop_last() == out@.take(j - 1));
            j -= 1;
        }
        proof {
            assert(rows@.take(i + 1).drop_last() == rows@.take(i as int));
            assert(rows@.take(i + 1).last() == rows@[i as int]);
        }
        out.insert(j, copy_summary(&rows[i]));
        i += 1;
    }
    assert(rows@.take(rows.len() as int) == rows@);
    out
}

/// The summaries of `rows` at or after `watermark`, in the order of `rows`.
pub fn select_since(rows: &Vec<Summary>, watermark: Option<Timestamp>) -> (out: Vec<Summary>)
    ensures
        out@ == since(rows@, watermark),
{
    let mut out: Vec<Summary> = Vec::new();
    let mut i: usize = 0;
    assert(rows@.take(0) == Seq::<Summary>::empty());
    assert(since(Seq::<Summary>::empty(), watermark) == Seq::<Summary>::empty()) by {
        reveal(Seq::filter);
    }
    while i < rows.len()
        invariant
            i <= rows.len(),
            out@ == since(rows@.take(i as int), watermark),
        decreases rows.len() - i,
    {
        proof {
            assert(rows@.take(i + 1) == rows@.take(i as int).push(rows@[i as int]));
            rows@.take(i as int).lemma_filter_push(
                rows@[i as int],
                |row: Summary| in_window(row, watermark),
            );
        }
        let inside = match watermark {
            Some(mark) => mark.at_or_before(rows[i].timestamp),
            None => true,
        };
        if inside {
            out.push(copy_summary(&rows[i]));
        }
        i += 1;
    }
    assert(rows@.take(rows.len() as int) == rows@);
    out
}

/// Tells whether `id` is one of `ids`.
pub fn contains_id(ids: &Vec<i64>, id: i64) -> (r: bool)
    ensures
        r == ids@.contains(id),
{
    let mut i: usize = 0;
    while i < ids.len()
        invariant
            i <= ids.len(),
            forall|k: int| 0 <= k < i ==> ids@[k] != id,
        decreases ids.len() - i,
    {
        if ids[i] == id {
            return true;
        }
        i += 1;
    }
    false
}

/// All summaries, in the order of their insertion.
pub fn fetch_summaries(store: &Store) -> (rows: Vec<Summary>)
    ensures
        rows@ == store.summaries@,
{
    let mut rows: Vec<Summary> = Vec::new();
    let mut i: usize = 0;
    while i < store.summaries.len()
        invariant
            i <= store.summaries.len(),
            rows@ == store.summaries@.take(i as int),
        decreases store.summaries.len() - i,
    {
        rows.push(copy_summary(&store.summaries[i]));
        assert(store.summaries@.take(i + 1) == store.summaries@.take(i as int).push(
            store.summaries@[i as int],
        ));
        i += 1;
    }
    assert(store.summaries@.take(store.summaries.len() as int) == store.summaries@);
    rows
}

/// The time of the latest digest: the low-water mark of the next recap.
pub fn latest_digest_timestamp(store: &Store) -> (latest: Option<Timestamp>)
    ensures
        latest == latest_timestamp(store.daily_digests@),
{
    let mut latest: Option<Timestamp> = None;
    let mut i: usize = 0;
    assert(store.daily_digests@.take(0) == Seq::<DailyDigestData>::empty());
    while i < store.daily_digests.len()
        invariant
            i <= store.daily_digests.len(),
            latest == latest_timestamp(store.daily_digests@.take(i as int)),
        decreases store.daily_digests.len() - i,
    {
        proof {
            assert(store.daily_digests@.take(i + 1).drop_last() == store.daily_digests@.take(
                i as int,
            ));
            assert(store.daily_digests@.take(i + 1).last() == store.daily_digests@[i as int]);
        }
        let at = store.daily_digests[i].timestamp;
        latest = match latest {
            Some(so_far) => if so_far.at_or_before(at) {
                Some(at)
            } else {
                Some(so_far)
            },
            None => Some(at),
        };
        i += 1;
    }
    assert(store.daily_digests@.take(store.daily_digests.len() as int) == store.daily_digests@);
    latest
}

/// The summaries at or after `watermark`, or all of them without a
/// watermark, from the oldest to the newest. The boundary is inclusive: a
/// summary of the watermark's own time is among them.
pub fn fetch_summaries_since(store: &Store, watermark: Option<Timestamp>) -> (rows: Vec<Summary>)
    ensures
        rows@ == eligible(store.summaries@, watermark),
{
    let selected = select_since(&store.summaries, watermark);
    sort_oldest_first(&selected)
}

/// The identity that the next row of a table gets, whose rows have the
/// identities `ids`; none when no identity is left.
pub fn next_id(ids: &Vec<i64>) -> (next: Option<i64>)
    ensures
        next == if max_id(ids@) < i64::MAX {
            Some((max_id(ids@) + 1) as i64)
        } else {
            None
        },
{
    let mut max: i64 = 0;
    let mut i: usize = 0;
    assert(ids@.take(0) == Seq::<i64>::empty());
    while i < ids.len()
        invariant
            i <= ids.len(),
            max == max_id(ids@.take(i as int)),
        decreases ids.len() - i,
    {
        proof {
            assert(ids@.take(i + 1).drop_last() == ids@.take(i as int));
            assert(ids@.take(i + 1).last() == ids@[i as int]);
        }
        if ids[i] > max {
            max = ids[i];
        }
        i += 1;
    }
    assert(ids@.take(ids.len() as int) == ids@);
    if max < i64::MAX {
        Some(max + 1)
    } else {
        None
    }
}

/// Stores `text` as a new summary of the time `now`, linked to no digest, and
/// gives its identity: one more than the largest in the table. Nothing else
/// in the store changes, and identities stay distinct. When no identity is
/// left the store stays as it is.
pub fn insert_summary(store: &mut Store, text: &str, now: Timestamp) -> (r: Result<i64, StoreError>)
    ensures
        max_id(summary_ids(old(store).summaries@)) < i64::MAX ==> {
            &&& r == Ok::<i64, StoreError>((max_id(summary_ids(old(store).summaries@)) + 1) as i64)
            &&& final(store).daily_digests == old(store).daily_digests
            &&& final(store).summaries@.len() == old(store).summaries@.len() + 1
            &&& final(store).summaries@.drop_last() == old(store).summaries@
            &&& final(store).summaries@.last().id == max_id(summary_ids(old(store).summaries@)) + 1
            &&& final(store).summaries@.last().daily_digest_id is None
            &&& final(store).summaries@.last().text@ == text@
            &&& final(store).summaries@.last().timestamp == now
        },
        max_id(summary_ids(old(store).summaries@)) >= i64::MAX ==> {
            &&& r == Err::<i64, StoreError>(StoreError::Exhausted)
            &&& *final(store) == *old(store)
        },
        old(store).well_formed() ==> final(store).well_formed(),
{
    let ids = ids_of_summaries(&store.summaries);
    match next_id(&ids) {
        None => Err(StoreError::Exhausted),
        Some(id) => {
            store.summaries.push(
                Summary { id, daily_digest_id: None, text: String::from_str(text), timestamp: now },
            );
            proof {
                assert(store.summaries@.drop_last() == old(store).summaries@);
                lemma_next_id_is_fresh(ids@);
                assert(summary_ids(store.summaries@) == ids@.push(id));
            }
            Ok(id)
        },
    }
}

/// All digests, in the order of their insertion, each with the summaries that
/// belong to it.
pub fn fetch_daily_digests(store: &Store) -> (digests: Vec<DailyDigest>)
    ensures
        digests@.len() == store.daily_digests@.len(),
        forall|i: int|
            0 <= i < digests@.len() ==> {
                &&& (#[trigger] digests@[i]).id == store.daily_digests@[i].id
                &&& digests@[i].text == store.daily_digests@[i].text
                &&& digests@[i].timestamp == store.daily_digests@[i].timestamp
                &&& digests@[i].summaries@ == members(store.summaries@, store.daily_digests@[i].id)
            },
{
    let mut digests: Vec<DailyDigest> = Vec::new();
    let mut i: usize = 0;
    while i < store.daily_digests.len()
        invariant
            i <= store.daily_digests.len(),
            digests@.len() == i,
            forall|k: int|
                0 <= k < i ==> {
                    &&& (#[trigger] digests@[k]).id == store.daily_digests@[k].id
                    &&& digests@[k].text == store.daily_digests@[k].text
                    &&& digests@[k].timestamp == store.daily_digests@[k].timestamp
                    &&& digests@[k].summaries@ == members(
                        store.summaries@,
                        store.daily_digests@[k].id,
                    )
                },
        decreases store.daily_digests.len() - i,
    {
        let digest = &store.daily_digests[i];
        let summaries = members_of(&store.summaries, digest.id);
        digests.push(
            DailyDigest {
                id: digest.id,
                text: digest.text.clone(),
                timestamp: digest.timestamp,
                summaries,
            },
        );
        i += 1;
    }
    digests
}

/// The summaries of `rows` that belong to the digest `digest_id`.
pub fn members_of(rows: &Vec<Summary>, digest_id: i64) -> (out: Vec<Summary>)
    ensures
        out@ == members(rows@, digest_id),
{
    let mut out: Vec<Summary> = Vec::new();
    let mut i: usize = 0;
    assert(rows@.take(0) == Seq::<Summary>::empty());
    assert(members(Seq::<Summary>::empty(), digest_id) == Seq::<Summary>::empty()) by {
        reveal(Seq::filter);
    }
    while i < rows.len()
        invariant
            i <= rows.len(),
            out@ == members(rows@.take(i as int), digest_id),
        decreases rows.len() - i,
    {
        proof {
            assert(rows@.take(i + 1) == rows@.take(i as int).push(rows@[i as int]));
            rows@.take(i as int).lemma_filter_push(
                rows@[i as int],
                |row: Summary| row.daily_digest_id == Some(digest_id),
            );
        }
        let belongs = match rows[i].daily_digest_id {
            Some(link) => link == digest_id,
            None => false,
        };
        if belongs {
            out.push(copy_summary(&rows[i]));
        }
        i += 1;
    }
    assert(rows@.take(rows.len() as int) == rows@);
    out
}

/// Stores a new digest of the time `now` and links to it the summaries that
/// `summary_ids` names, all at once or not at all. The digest gets an
/// identity one more than the largest in its table. A summary that is named
/// and belongs to no digest yet gets the new digest as its link. A link that
/// is set is never set anew: a summary that belongs to a digest keeps it,
/// named or not. Identities stay distinct. When no identity is left, nothing
/// changes.
pub fn insert_daily_digest(
    store: &mut Store,
    digest_text: String,
    summary_ids: &Vec<i64>,
    now: Timestamp,
) -> (r: Result<(), StoreError>)
    ensures
        max_id(digest_ids(old(store).daily_digests@)) < i64::MAX ==> {
            &&& r == Ok::<(), StoreError>(())
            &&& final(store).daily_digests@ == old(store).daily_digests@.push(
                DailyDigestData {
                    id: (max_id(digest_ids(old(store).daily_digests@)) + 1) as i64,
                    text: digest_text,
                    timestamp: now,
                },
            )
            &&& final(store).summaries@ == linked(
                old(store).summaries@,
                summary_ids@,
                (max_id(digest_ids(old(store).daily_digests@)) + 1) as i64,
            )
        },
        max_id(digest_ids(old(store).daily_digests@)) >= i64::MAX ==> {
            &&& r == Err::<(), StoreError>(StoreError::Exhausted)
            &&& *final(store) == *old(store)
        },
        forall|i: int|
            0 <= i < old(store).summaries@.len() && (#[trigger] old(
                store,
            ).summaries@[i]).daily_digest_id is Some ==> final(store).summaries@[i] == old(
                store,
            ).summaries@[i],
        old(store).well_formed() ==> final(store).well_formed(),
{
    let ids = ids_of_digests(&store.daily_digests);
    let digest_id = match next_id(&ids) {
        None => {
            return Err(StoreError::Exhausted);
        },
        Some(id) => id,
    };
    let mut rows: Vec<Summary> = Vec::new();
    let mut k: usize = 0;
    while k < store.summaries.len()
        invariant
            k <= store.summaries.len(),
            *store == *old(store),
            rows@ == linked(store.summaries@, summary_ids@, digest_id).take(k as int),
        decreases store.summaries.len() - k,
    {
        let row = &store.summaries[k];
        let link = match row.daily_digest_id {
            Some(set) => Some(set),
            None => if contains_id(summary_ids, row.id) {
                Some(digest_id)
            } else {
                None
            },
        };
        rows.push(
            Summary { id: row.id, daily_digest_id: link, text: row.text.clone(), timestamp: row.timestamp },
        );
        assert(linked(store.summaries@, summary_ids@, digest_id).take(k + 1) == linked(
            store.summaries@,
            summary_ids@,
            digest_id,
        ).take(k as int).push(linked(store.summaries@, summary_ids@, digest_id)[k as int]));
        k += 1;
    }
    assert(linked(store.summaries@, summary_ids@, digest_id).take(store.summaries.len() as int)
        == linked(store.summaries@, summary_ids@, digest_id));
    store.summaries = rows;
    store.daily_digests.push(DailyDigestData { id: digest_id, text: digest_text, timestamp: now });
    proof {
        lemma_next_id_is_fresh(ids@);
        assert(digest_ids(store.daily_digests@) == ids@.push(digest_id));
        assert(crate::db::summary_ids(store.summaries@) == crate::db::summary_ids(
            old(store).summaries@,
        ));
    }
    Ok(())
}

/// The page `page` of the summaries, `count` to a page, from the newest to
/// the oldest; pages are counted from 1, so that the page starts behind
/// `count * (page - 1)` summaries.
pub fn fetch_latest_summaries(store: &Store, count: usize, page: usize) -> (rows: Vec<Summary>)
    requires
        page >= 1,
    ensures
        rows@ == page_of(oldest_first(store.summaries@).reverse(), count as nat, page as nat),
{
    let sorted = sort_oldest_first(&store.summaries);
    let n = sorted.len();
    let ghost newest = sorted@.reverse();
    let mut rows: Vec<Summary> = Vec::new();
    let offset = match count.checked_mul(page - 1) {
        Some(offset) => offset,
        None => {
            return rows;
        },
    };
    if offset >= n {
        return rows;
    }
    let to: usize = if count >= n - offset {
        n
    } else {
        offset + count
    };
    let mut k: usize = offset;
    while k < to
        invariant
            offset <= k <= to <= n,
            n == sorted@.len(),
            newest == sorted@.reverse(),
            rows@ == newest.subrange(offset as int, k as int),
        decreases to - k,
    {
        rows.push(copy_summary(&sorted[n - 1 - k]));
        assert(newest.subrange(offset as int, k + 1) == newest.subrange(offset as int, k as int).push(
            newest[k as int],
        ));
        k += 1;
    }
    rows
}

/// A link that is set is never changed: whatever summaries a digest is
/// inserted for, every summary that belonged to a digest before is the same
/// row afterwards. A summary that is not named stays as it is, and no
/// summary's identity, text or time changes.
pub proof fn lemma_set_links_are_kept(rows: Seq<Summary>, ids: Seq<i64>, digest_id: i64)
    ensures
        linked(rows, ids, digest_id).len() == rows.len(),
        forall|i: int|
            0 <= i < rows.len() && rows[i].daily_digest_id is Some ==> #[trigger] linked(
                rows,
                ids,
                digest_id,
            )[i] == rows[i],
        forall|i: int|
            0 <= i < rows.len() && !ids.contains(rows[i].id) ==> #[trigger] linked(
                rows,
                ids,
                digest_id,
            )[i] == rows[i],
        forall|i: int|
            0 <= i < rows.len() ==> {
                &&& (#[trigger] linked(rows, ids, digest_id)[i]).id == rows[i].id
                &&& linked(rows, ids, digest_id)[i].text == rows[i].text
                &&& linked(rows, ids, digest_id)[i].timestamp == rows[i].timestamp
            },
{
}

/// A summary stands under one digest at most: in a store whose digests have
/// distinct identities, no summary's link names two digests.
pub proof fn lemma_summary_under_one_digest(store: Store, row: int, first: int, second: int)
    requires
        store.well_formed(),
        0 <= row < store.summaries@.len(),
        0 <= first < store.daily_digests@.len(),
        0 <= second < store.daily_digests@.len(),
        store.summaries@[row].daily_digest_id == Some(store.daily_digests@[first].id),
        store.summaries@[row].daily_digest_id == Some(store.daily_digests@[second].id),
    ensures
        first == second,
{
    let ids = digest_ids(store.daily_digests@);
    assert(ids[first] == store.daily_digests@[first].id);
    assert(ids[second] == store.daily_digests@[second].id);
}

/// The summaries that a recap takes in are those of the window, and no
/// others: a summary is among them exactly if it is a row and stands at or
/// after the watermark. The boundary is inclusive.
pub proof fn lemma_eligible_is_the_window(
    rows: Seq<Summary>,
    watermark: Option<Timestamp>,
    row: Summary,
)
    ensures
        eligible(rows, watermark).contains(row) <==> rows.contains(row) && in_window(
            row,
            watermark,
        ),
        is_oldest_first(eligible(rows, watermark)),
{
    let pred = |r: Summary| in_window(r, watermark);
    let selected = since(rows, watermark);
    lemma_oldest_first_sorts(selected);
    vstd::seq_lib::to_multiset_contains(selected, row);
    vstd::seq_lib::to_multiset_contains(eligible(rows, watermark), row);
    if selected.contains(row) {
        let i = choose|i: int| 0 <= i < selected.len() && selected[i] == row;
        rows.lemma_filter_pred(pred, i);
        rows.lemma_filter_contains_rev(pred, row);
    }
    if rows.contains(row) && in_window(row, watermark) {
        let i = choose|i: int| 0 <= i < rows.len() && rows[i] == row;
        rows.lemma_filter_contains(pred, i);
    }
}

/// The summaries `rows` after one by one of the summaries named in `ids` was
/// linked to the digest `digest_id`, as the statements of a transaction do it.
pub open spec fn linked_one_by_one(rows: Seq<Summary>, ids: Seq<i64>, digest_id: i64) -> Seq<
    Summary,
>
    decreases ids.len(),
{
    if ids.len() == 0 {
        rows
    } else {
        linked(linked_one_by_one(rows, ids.drop_last(), digest_id), seq![ids.last()], digest_id)
    }
}

/// Linking the summaries one statement after the other leaves the rows as
/// linking them all at once does.
pub proof fn lemma_linked_one_by_one(rows: Seq<Summary>, ids: Seq<i64>, digest_id: i64)
    ensures
        linked_one_by_one(rows, ids, digest_id) == linked(rows, ids, digest_id),
    decreases ids.len(),
{
    if ids.len() == 0 {
        assert(linked(rows, ids, digest_id) == rows);
    } else {
        let init = ids.drop_last();
        let last = ids.last();
        lemma_linked_one_by_one(rows, init, digest_id);
        let before = linked(rows, init, digest_id);
        let after = linked(before, seq![last], digest_id);
        assert forall|i: int| 0 <= i < rows.len() implies after[i] == linked(rows, ids, digest_id)[i] by {
            assert(seq![last][0] == last);
            assert(ids[ids.len() - 1] == last);
            if init.contains(rows[i].id) {
                let k = choose|k: int| 0 <= k < init.len() && init[k] == rows[i].id;
                assert(ids[k] == rows[i].id);
            }
            if ids.contains(rows[i].id) {
                let k = choose|k: int| 0 <= k < ids.len() && ids[k] == rows[i].id;
                if k < ids.len() - 1 {
                    assert(init[k] == rows[i].id);
                }
            }
        }
        assert(after == linked(rows, ids, digest_id));
    }
}

} // verus!
