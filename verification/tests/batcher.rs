use digest_pipeline::services::discord_handler::{
    allowed_channels, DiscordMessage, Handler, MessageEvent,
};
use digest_pipeline::services::message_listener::{
    IngestOutcome, IngestPlan, MessageLogService, PendingIngest, Rotation,
};
use digest_pipeline::services::summarizer::SummarizeRequest;
use std::collections::HashSet;

fn event(text: &str) -> MessageEvent {
    MessageEvent {
        channel_id: 1,
        author_name: "ada".to_string(),
        text: text.to_string(),
        timestamp: "2024-05-01T10:00:00Z".to_string(),
    }
}

fn entry(text: &str) -> String {
    format!("timestamp: 2024-05-01T10:00:00Z, author: ada, content: {text}\n")
}

#[test]
fn batcher_starts_from_the_segment_on_disk() {
    let service = MessageLogService::new(4, &entry(&"x".repeat(40)), 100);
    assert_eq!(service.log_file_index(), 4);
    assert_eq!(service.curr_file_token_count(), 10);
    assert_eq!(service.summary_tokens_threshold(), 100);
    assert_eq!(service.pending(), None);
}

#[test]
fn second_message_over_budget_rotates() {
    let a = "a".repeat(240);
    let b = "b".repeat(200);
    let mut service = MessageLogService::new(0, "", 100);

    let plan = service.ingest(&event(&a)).unwrap();
    assert_eq!(
        plan,
        IngestPlan { rotation: None, segment: 0, entry: entry(&a), incoming_tokens: 60 }
    );
    service.complete(IngestOutcome::Written);
    assert_eq!(service.log_file_index(), 0);
    assert_eq!(service.curr_file_token_count(), 60);

    let plan = service.ingest(&event(&b)).unwrap();
    assert_eq!(
        plan,
        IngestPlan {
            rotation: Some(Rotation { new_index: 1, request: SummarizeRequest::FileWithIndex(0) }),
            segment: 1,
            entry: entry(&b),
            incoming_tokens: 50,
        }
    );
    assert_eq!(service.pending(), Some(PendingIngest { rotate: true, incoming_tokens: 50 }));
    // Nothing changes before the outcome is known.
    assert_eq!(service.log_file_index(), 0);
    assert_eq!(service.curr_file_token_count(), 60);
    service.complete(IngestOutcome::Written);
    assert_eq!(service.log_file_index(), 1);
    assert_eq!(service.curr_file_token_count(), 50);
    assert_eq!(service.pending(), None);
}

#[test]
fn rotation_only_when_budget_is_exceeded() {
    // 60 + 40 is the budget itself: no rotation.
    let mut service = MessageLogService::new(0, &entry(&"x".repeat(240)), 100);
    let plan = service.ingest(&event(&"y".repeat(160))).unwrap();
    assert_eq!(plan.rotation, None);
    assert_eq!(plan.segment, 0);
    service.complete(IngestOutcome::Written);
    assert_eq!(service.curr_file_token_count(), 100);
    // One token more would exceed it.
    let plan = service.ingest(&event("abcd")).unwrap();
    assert_eq!(
        plan.rotation,
        Some(Rotation { new_index: 1, request: SummarizeRequest::FileWithIndex(0) })
    );
    service.complete(IngestOutcome::Written);
    assert_eq!((service.log_file_index(), service.curr_file_token_count()), (1, 1));
    // A message without tokens never rotates a segment within budget.
    let plan = service.ingest(&event("abc")).unwrap();
    assert_eq!(plan.rotation, None);
}

#[test]
fn oversized_message_goes_alone_into_a_new_segment() {
    let mut service = MessageLogService::new(2, "", 10);
    let plan = service.ingest(&event(&"z".repeat(400))).unwrap();
    assert_eq!(
        plan.rotation,
        Some(Rotation { new_index: 3, request: SummarizeRequest::FileWithIndex(2) })
    );
    service.complete(IngestOutcome::Written);
    assert_eq!((service.log_file_index(), service.curr_file_token_count()), (3, 100));
    // The count is over the budget now, so the next message rotates again.
    let plan = service.ingest(&event("")).unwrap();
    assert_eq!(
        plan.rotation,
        Some(Rotation { new_index: 4, request: SummarizeRequest::FileWithIndex(3) })
    );
}

#[test]
fn failed_write_drops_the_message() {
    let mut service = MessageLogService::new(0, "", 100);
    service.ingest(&event(&"a".repeat(40))).unwrap();
    service.complete(IngestOutcome::WriteFailed);
    assert_eq!((service.log_file_index(), service.curr_file_token_count()), (0, 0));
    // The next message is handled as usual.
    service.ingest(&event(&"a".repeat(40))).unwrap();
    service.complete(IngestOutcome::Written);
    assert_eq!((service.log_file_index(), service.curr_file_token_count()), (0, 10));
}

#[test]
fn failed_write_after_rotation_keeps_the_rotation() {
    let mut service = MessageLogService::new(0, &entry(&"x".repeat(400)), 100);
    let plan = service.ingest(&event(&"a".repeat(40))).unwrap();
    assert!(plan.rotation.is_some());
    service.complete(IngestOutcome::WriteFailed);
    assert_eq!((service.log_file_index(), service.curr_file_token_count()), (1, 0));
}

#[test]
fn failed_rotation_changes_nothing() {
    let mut service = MessageLogService::new(0, &entry(&"x".repeat(400)), 100);
    let plan = service.ingest(&event(&"a".repeat(40))).unwrap();
    assert!(plan.rotation.is_some());
    service.complete(IngestOutcome::RotationFailed);
    assert_eq!((service.log_file_index(), service.curr_file_token_count()), (0, 100));
    assert_eq!(service.pending(), None);
    // The rotation is planned again for the next message that does not fit.
    assert_eq!(service.ingest(&event("")).unwrap().rotation, None);
    service.complete(IngestOutcome::Written);
    let plan = service.ingest(&event("abcd")).unwrap();
    assert_eq!(
        plan.rotation,
        Some(Rotation { new_index: 1, request: SummarizeRequest::FileWithIndex(0) })
    );
}

#[test]
fn outcome_without_plan_is_ignored() {
    let mut service = MessageLogService::new(3, "", 100);
    service.complete(IngestOutcome::Written);
    assert_eq!((service.log_file_index(), service.curr_file_token_count()), (3, 0));
}

#[test]
fn no_index_left_drops_the_message() {
    let mut service = MessageLogService::new(usize::MAX, "", 0);
    assert_eq!(service.ingest(&event("abcd")), None);
    assert_eq!(service.pending(), None);
    service.complete(IngestOutcome::Written);
    assert_eq!((service.log_file_index(), service.curr_file_token_count()), (usize::MAX, 0));
    // A message that fits is still written.
    let plan = service.ingest(&event("abc")).unwrap();
    assert_eq!(plan.rotation, None);
    assert_eq!(plan.segment, usize::MAX);
}

#[test]
fn huge_threshold_does_not_overflow() {
    let mut service = MessageLogService::new(0, "", usize::MAX);
    for _ in 0..3 {
        let plan = service.ingest(&event(&"a".repeat(40))).unwrap();
        assert_eq!(plan.rotation, None);
        service.complete(IngestOutcome::Written);
    }
    assert_eq!(service.curr_file_token_count(), 30);
}

#[test]
fn requests_name_the_closed_segments_in_order() {
    let mut service = MessageLogService::new(5, "", 10);
    let mut requests = Vec::new();
    for round in 0..20 {
        let plan = service.ingest(&event(&"m".repeat(16))).unwrap();
        let outcome = if round % 7 == 3 { IngestOutcome::RotationFailed } else { IngestOutcome::Written };
        if let Some(rotation) = plan.rotation {
            assert_eq!(rotation.new_index, service.log_file_index() + 1);
            if outcome != IngestOutcome::RotationFailed {
                let SummarizeRequest::FileWithIndex(index) = rotation.request;
                requests.push(index);
            }
        }
        service.complete(outcome);
    }
    let expected: Vec<usize> = (5..service.log_file_index()).collect();
    assert_eq!(requests, expected);
    assert!(!requests.is_empty());
}

#[test]
fn handler_forwards_allowed_channels_only() {
    let mut allowed = HashSet::new();
    allowed.insert(7u64);
    allowed.insert(9u64);
    let handler = Handler::new(allowed);
    let mut inside = event("hi");
    inside.channel_id = 9;
    let mut outside = event("hi");
    outside.channel_id = 8;
    assert_eq!(handler.message(inside), Some(DiscordMessage::Received(MessageEvent {
        channel_id: 9,
        author_name: "ada".to_string(),
        text: "hi".to_string(),
        timestamp: "2024-05-01T10:00:00Z".to_string(),
    })));
    assert_eq!(handler.message(outside), None);
    assert_eq!(Handler::new(HashSet::new()).message(event("hi")), None);
}

#[test]
fn allow_list_from_configured_identifiers() {
    let configured: Vec<String> =
        ["123", "+7", "x9", "", "18446744073709551615", "18446744073709551616", "123"]
            .iter()
            .map(|s| s.to_string())
            .collect();
    let allowed = allowed_channels(&configured);
    let expected: HashSet<u64> = [123, 7, u64::MAX].into_iter().collect();
    assert_eq!(allowed, expected);
    assert!(allowed_channels(&vec![]).is_empty());
}
