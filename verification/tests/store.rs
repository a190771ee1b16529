use digest_pipeline::db::{
    all_distinct, contains_id, fetch_daily_digests, fetch_latest_summaries, fetch_summaries,
    fetch_summaries_since, insert_daily_digest, insert_summary, latest_digest_timestamp, next_id,
    sort_oldest_first, DailyDigestData, Store, Summary, Timestamp,
};
use digest_pipeline::error::{OracleError, StoreError};
use digest_pipeline::services::digests::{
    ids_of, join_texts, DailyRecapService, RecapAction, RecapEvent, RecapPhase,
};

fn at(secs: i64) -> Timestamp {
    Timestamp { secs, nanos: 0 }
}

fn summary(id: i64, link: Option<i64>, text: &str, secs: i64) -> Summary {
    Summary { id, daily_digest_id: link, text: text.to_string(), timestamp: at(secs) }
}

fn digest(id: i64, text: &str, secs: i64) -> DailyDigestData {
    DailyDigestData { id, text: text.to_string(), timestamp: at(secs) }
}

fn ids(rows: &[Summary]) -> Vec<i64> {
    rows.iter().map(|row| row.id).collect()
}

fn empty_store() -> Store {
    Store { summaries: vec![], daily_digests: vec![] }
}

#[test]
fn timestamps_are_ordered_by_seconds_then_nanos() {
    let a = Timestamp { secs: 10, nanos: 500 };
    let b = Timestamp { secs: 10, nanos: 501 };
    let c = Timestamp { secs: 11, nanos: 0 };
    let d = Timestamp { secs: -1, nanos: 999_999_999 };
    assert!(a.at_or_before(a));
    assert!(a.at_or_before(b) && !b.at_or_before(a));
    assert!(b.at_or_before(c) && !c.at_or_before(b));
    assert!(d.at_or_before(a) && !a.at_or_before(d));
}

#[test]
fn boundary_summary_is_eligible() {
    let t0 = 1_000;
    let store = Store {
        summaries: vec![
            summary(1, Some(1), "before", t0 - 1),
            summary(2, None, "at", t0),
            summary(3, None, "after", t0 + 1),
        ],
        daily_digests: vec![digest(1, "prior", t0)],
    };
    let watermark = latest_digest_timestamp(&store);
    assert_eq!(watermark, Some(at(t0)));
    let rows = fetch_summaries_since(&store, watermark);
    assert_eq!(ids(&rows), vec![2, 3]);
}

#[test]
fn without_digest_every_summary_is_eligible() {
    let store = Store {
        summaries: vec![summary(1, None, "c", 30), summary(2, None, "a", 10), summary(3, None, "b", 20)],
        daily_digests: vec![],
    };
    assert_eq!(latest_digest_timestamp(&store), None);
    let rows = fetch_summaries_since(&store, None);
    assert_eq!(ids(&rows), vec![2, 3, 1]);
}

#[test]
fn watermark_is_the_latest_digest() {
    let store = Store {
        summaries: vec![],
        daily_digests: vec![
            digest(1, "a", 50),
            digest(2, "b", 70),
            digest(3, "c", 60),
            DailyDigestData { id: 4, text: "d".to_string(), timestamp: Timestamp { secs: 70, nanos: 3 } },
        ],
    };
    assert_eq!(latest_digest_timestamp(&store), Some(Timestamp { secs: 70, nanos: 3 }));
}

#[test]
fn sorting_is_by_time_and_stable() {
    let rows = vec![
        summary(1, None, "", 5),
        summary(2, None, "", 3),
        summary(3, None, "", 5),
        summary(4, None, "", 1),
        summary(5, None, "", 3),
    ];
    let sorted = sort_oldest_first(&rows);
    assert_eq!(ids(&sorted), vec![4, 2, 5, 1, 3]);
    assert_eq!(sort_oldest_first(&vec![]), vec![]);
}

#[test]
fn summaries_get_rising_identities() {
    let mut store = empty_store();
    assert_eq!(insert_summary(&mut store, "one", at(1)), Ok(1));
    assert_eq!(insert_summary(&mut store, "two", at(2)), Ok(2));
    assert_eq!(
        store.summaries,
        vec![summary(1, None, "one", 1), summary(2, None, "two", 2)]
    );
    assert_eq!(fetch_summaries(&store), store.summaries);
    store.summaries.push(summary(40, None, "far", 3));
    assert_eq!(insert_summary(&mut store, "next", at(4)), Ok(41));
    assert!(store.daily_digests.is_empty());
}

#[test]
fn no_identity_left_for_a_summary() {
    let mut store = empty_store();
    store.summaries.push(summary(i64::MAX, None, "last", 1));
    assert_eq!(insert_summary(&mut store, "more", at(2)), Err(StoreError::Exhausted));
    assert_eq!(store.summaries, vec![summary(i64::MAX, None, "last", 1)]);
}

#[test]
fn next_identity_is_above_all() {
    assert_eq!(next_id(&vec![]), Some(1));
    assert_eq!(next_id(&vec![3, 9, 4]), Some(10));
    assert_eq!(next_id(&vec![-5, -2]), Some(1));
    assert_eq!(next_id(&vec![1, i64::MAX]), None);
    assert!(contains_id(&vec![3, 9, 4], 9));
    assert!(!contains_id(&vec![3, 9, 4], 5));
    assert!(!contains_id(&vec![], 0));
}

#[test]
fn digest_links_the_named_summaries() {
    let mut store = Store {
        summaries: vec![
            summary(1, Some(1), "old", 10),
            summary(2, None, "a", 20),
            summary(3, None, "b", 30),
            summary(4, None, "later", 40),
        ],
        daily_digests: vec![digest(1, "first", 15)],
    };
    assert_eq!(insert_daily_digest(&mut store, "second".to_string(), &vec![2, 3], at(35)), Ok(()));
    assert_eq!(store.daily_digests, vec![digest(1, "first", 15), digest(2, "second", 35)]);
    assert_eq!(
        store.summaries,
        vec![
            summary(1, Some(1), "old", 10),
            summary(2, Some(2), "a", 20),
            summary(3, Some(2), "b", 30),
            summary(4, None, "later", 40),
        ]
    );
}

#[test]
fn digest_of_unknown_summaries_links_nothing() {
    let mut store = Store { summaries: vec![summary(1, None, "a", 1)], daily_digests: vec![] };
    assert_eq!(insert_daily_digest(&mut store, "d".to_string(), &vec![5, 6], at(2)), Ok(()));
    assert_eq!(store.summaries, vec![summary(1, None, "a", 1)]);
    assert_eq!(store.daily_digests, vec![digest(1, "d", 2)]);
}

#[test]
fn failed_digest_insert_changes_nothing() {
    let mut store = Store {
        summaries: vec![summary(1, None, "a", 1)],
        daily_digests: vec![digest(i64::MAX, "last", 1)],
    };
    assert_eq!(
        insert_daily_digest(&mut store, "d".to_string(), &vec![1], at(2)),
        Err(StoreError::Exhausted)
    );
    assert_eq!(store.summaries, vec![summary(1, None, "a", 1)]);
    assert_eq!(store.daily_digests, vec![digest(i64::MAX, "last", 1)]);
}

#[test]
fn set_links_survive_later_digests() {
    let mut store = empty_store();
    insert_summary(&mut store, "a", at(1)).unwrap();
    insert_summary(&mut store, "b", at(2)).unwrap();
    insert_daily_digest(&mut store, "d1".to_string(), &vec![1, 2], at(3)).unwrap();
    insert_summary(&mut store, "c", at(4)).unwrap();
    insert_daily_digest(&mut store, "d2".to_string(), &vec![3], at(5)).unwrap();
    let links: Vec<Option<i64>> = store.summaries.iter().map(|row| row.daily_digest_id).collect();
    assert_eq!(links, vec![Some(1), Some(1), Some(2)]);
}

#[test]
fn boundary_summary_keeps_its_link() {
    // A summary of the very time of the latest digest is taken in again, but
    // the link that it has is not set anew.
    let mut store = Store {
        summaries: vec![summary(1, Some(1), "tie", 100), summary(2, None, "new", 101)],
        daily_digests: vec![digest(1, "d1", 100)],
    };
    let rows = fetch_summaries_since(&store, latest_digest_timestamp(&store));
    assert_eq!(ids(&rows), vec![1, 2]);
    insert_daily_digest(&mut store, "d2".to_string(), &ids_of(&rows), at(102)).unwrap();
    assert_eq!(
        store.summaries,
        vec![summary(1, Some(1), "tie", 100), summary(2, Some(2), "new", 101)]
    );
}

#[test]
fn named_summary_with_a_link_is_left_alone() {
    let mut store = Store {
        summaries: vec![summary(1, Some(7), "a", 1), summary(2, Some(7), "b", 2)],
        daily_digests: vec![digest(7, "d", 3)],
    };
    insert_daily_digest(&mut store, "again".to_string(), &vec![1, 2, 1], at(4)).unwrap();
    assert_eq!(store.summaries, vec![summary(1, Some(7), "a", 1), summary(2, Some(7), "b", 2)]);
    assert_eq!(store.daily_digests, vec![digest(7, "d", 3), digest(8, "again", 4)]);
}

#[test]
fn store_has_distinct_identities() {
    let fresh = Store::new();
    assert!(fresh.summaries.is_empty() && fresh.daily_digests.is_empty());
    let store = Store::from_rows(
        vec![summary(1, None, "a", 1), summary(2, None, "b", 2)],
        vec![digest(1, "d", 3)],
    );
    assert_eq!(
        store,
        Some(Store {
            summaries: vec![summary(1, None, "a", 1), summary(2, None, "b", 2)],
            daily_digests: vec![digest(1, "d", 3)],
        })
    );
    assert_eq!(
        Store::from_rows(vec![summary(1, None, "a", 1), summary(1, None, "b", 2)], vec![]),
        None
    );
    assert_eq!(
        Store::from_rows(vec![], vec![digest(4, "d", 3), digest(5, "e", 3), digest(4, "f", 3)]),
        None
    );
    assert!(all_distinct(&vec![]));
    assert!(all_distinct(&vec![3, 1, 2]));
    assert!(!all_distinct(&vec![3, 1, 3]));
}

#[test]
fn digests_come_with_their_summaries() {
    let store = Store {
        summaries: vec![
            summary(1, Some(2), "a", 1),
            summary(2, None, "b", 2),
            summary(3, Some(1), "c", 3),
            summary(4, Some(2), "d", 4),
        ],
        daily_digests: vec![digest(1, "one", 5), digest(2, "two", 6), digest(3, "three", 7)],
    };
    let digests = fetch_daily_digests(&store);
    assert_eq!(digests.len(), 3);
    assert_eq!((digests[0].id, digests[0].text.as_str(), digests[0].timestamp), (1, "one", at(5)));
    assert_eq!(digests[0].summaries, vec![summary(3, Some(1), "c", 3)]);
    assert_eq!(digests[1].id, 2);
    assert_eq!(digests[1].summaries, vec![summary(1, Some(2), "a", 1), summary(4, Some(2), "d", 4)]);
    assert_eq!(digests[2].text, "three");
    assert!(digests[2].summaries.is_empty());
    assert!(fetch_daily_digests(&empty_store()).is_empty());
}

#[test]
fn latest_summaries_by_page() {
    let store = Store {
        summaries: (1..=7).map(|i| summary(i, None, "", 10 * i)).collect(),
        daily_digests: vec![],
    };
    assert_eq!(ids(&fetch_latest_summaries(&store, 3, 1)), vec![7, 6, 5]);
    assert_eq!(ids(&fetch_latest_summaries(&store, 3, 2)), vec![4, 3, 2]);
    assert_eq!(ids(&fetch_latest_summaries(&store, 3, 3)), vec![1]);
    assert_eq!(ids(&fetch_latest_summaries(&store, 3, 4)), Vec::<i64>::new());
    assert_eq!(ids(&fetch_latest_summaries(&store, 0, 1)), Vec::<i64>::new());
    assert_eq!(ids(&fetch_latest_summaries(&store, 10, 1)), vec![7, 6, 5, 4, 3, 2, 1]);
    assert_eq!(ids(&fetch_latest_summaries(&store, usize::MAX, 1)), vec![7, 6, 5, 4, 3, 2, 1]);
    assert_eq!(ids(&fetch_latest_summaries(&store, usize::MAX, 3)), Vec::<i64>::new());
    assert_eq!(ids(&fetch_latest_summaries(&store, 2, usize::MAX)), Vec::<i64>::new());
}

#[test]
fn texts_are_joined_by_spaces() {
    assert_eq!(join_texts(&vec![]), "");
    assert_eq!(join_texts(&vec![summary(1, None, "alone", 1)]), "alone");
    let rows = vec![summary(1, None, "a b", 1), summary(2, None, "", 2), summary(3, None, "c", 3)];
    assert_eq!(join_texts(&rows), "a b  c");
    assert_eq!(ids_of(&rows), vec![1, 2, 3]);
}

#[test]
fn recap_makes_a_digest_of_the_new_summaries() {
    let store = Store {
        summaries: vec![
            summary(1, Some(1), "before", 99),
            summary(3, None, "after", 101),
            summary(2, None, "at", 100),
        ],
        daily_digests: vec![digest(1, "prior", 100)],
    };
    let mut service = DailyRecapService::new(3600);
    assert_eq!(service.interval_seconds, 3600);
    assert_eq!(service.phase, RecapPhase::Idle);
    assert_eq!(service.step(RecapEvent::Tick), RecapAction::LoadStore);
    assert_eq!(service.phase, RecapPhase::Loading);
    let action = service.step(RecapEvent::StoreLoaded(Ok(store)));
    assert_eq!(action, RecapAction::Summarize { text: "at after".to_string() });
    assert_eq!(service.phase, RecapPhase::Summarizing);
    assert_eq!(service.pending_ids, vec![2, 3]);
    let action = service.step(RecapEvent::Summarized(Ok("the digest".to_string())));
    assert_eq!(
        action,
        RecapAction::InsertDigest { text: "the digest".to_string(), summary_ids: vec![2, 3] }
    );
    assert_eq!(service.phase, RecapPhase::Committing);
    assert!(service.pending_ids.is_empty());
    assert_eq!(service.step(RecapEvent::DigestInserted(Ok(()))), RecapAction::AwaitTick);
    assert_eq!(service.phase, RecapPhase::Idle);
    assert_eq!(service.interval_seconds, 3600);
}

#[test]
fn recap_without_new_summaries_does_nothing() {
    let store = Store {
        summaries: vec![summary(1, Some(1), "before", 99)],
        daily_digests: vec![digest(1, "prior", 100)],
    };
    let mut service = DailyRecapService::new(60);
    service.step(RecapEvent::Tick);
    assert_eq!(service.step(RecapEvent::StoreLoaded(Ok(store))), RecapAction::AwaitTick);
    assert_eq!(service.phase, RecapPhase::Idle);
    service.step(RecapEvent::Tick);
    assert_eq!(service.step(RecapEvent::StoreLoaded(Ok(empty_store()))), RecapAction::AwaitTick);
}

#[test]
fn failed_oracle_makes_no_digest() {
    let store = Store { summaries: vec![summary(1, None, "a", 1)], daily_digests: vec![] };
    let mut service = DailyRecapService::new(60);
    service.step(RecapEvent::Tick);
    service.step(RecapEvent::StoreLoaded(Ok(store)));
    let action = service.step(RecapEvent::Summarized(Err(OracleError { message: "down".to_string() })));
    assert_eq!(action, RecapAction::AwaitTick);
    assert_eq!(service.phase, RecapPhase::Idle);
    assert!(service.pending_ids.is_empty());
    // A late answer does not bring the digest back.
    assert_eq!(service.step(RecapEvent::Summarized(Ok("late".to_string()))), RecapAction::AwaitTick);
}

#[test]
fn failed_load_or_insert_ends_the_tick() {
    let mut service = DailyRecapService::new(60);
    service.step(RecapEvent::Tick);
    let action = service.step(RecapEvent::StoreLoaded(Err(StoreError::Failed("busy".to_string()))));
    assert_eq!(action, RecapAction::AwaitTick);
    service.step(RecapEvent::Tick);
    service.step(RecapEvent::StoreLoaded(Ok(Store {
        summaries: vec![summary(1, None, "a", 1)],
        daily_digests: vec![],
    })));
    service.step(RecapEvent::Summarized(Ok("d".to_string())));
    let action = service.step(RecapEvent::DigestInserted(Err(StoreError::Failed("rolled back".to_string()))));
    assert_eq!(action, RecapAction::AwaitTick);
    assert_eq!(service.phase, RecapPhase::Idle);
    // The same summaries are taken in again at the next tick.
    service.step(RecapEvent::Tick);
    let action = service.step(RecapEvent::StoreLoaded(Ok(Store {
        summaries: vec![summary(1, None, "a", 1)],
        daily_digests: vec![],
    })));
    assert_eq!(action, RecapAction::Summarize { text: "a".to_string() });
}

#[test]
fn store_loaded_out_of_place_is_ignored() {
    let mut service = DailyRecapService::new(60);
    let store = Store { summaries: vec![summary(1, None, "a", 1)], daily_digests: vec![] };
    assert_eq!(service.step(RecapEvent::StoreLoaded(Ok(store))), RecapAction::AwaitTick);
    assert_eq!(service.phase, RecapPhase::Idle);
}
