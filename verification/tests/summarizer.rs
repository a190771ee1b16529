use digest_pipeline::error::{IoError, OracleError, StoreError};
use digest_pipeline::gpt::{
    summary_request, ChatCompletionResponse, Choice, GptMessage, MAX_ANSWER_TOKENS,
};
use digest_pipeline::services::summarizer::{
    SummarizeRequest, SummarizerAction, SummarizerEvent, SummarizerPhase, SummarizerService,
};

fn io(message: &str) -> IoError {
    IoError { message: message.to_string() }
}

#[test]
fn summarizer_walks_through_a_request() {
    let mut worker = SummarizerService::new();
    assert_eq!(worker.phase, SummarizerPhase::Idle);
    let action = worker.step(SummarizerEvent::Requested(SummarizeRequest::FileWithIndex(3)));
    assert_eq!(action, SummarizerAction::ReadSegment { index: 3 });
    assert_eq!(worker.phase, SummarizerPhase::Reading { index: 3 });
    let action = worker.step(SummarizerEvent::SegmentRead(Ok("the lines".to_string())));
    assert_eq!(action, SummarizerAction::Summarize { text: "the lines".to_string() });
    assert_eq!(worker.phase, SummarizerPhase::Summarizing { index: 3 });
    let action = worker.step(SummarizerEvent::Summarized(Ok("short".to_string())));
    assert_eq!(action, SummarizerAction::InsertSummary { text: "short".to_string() });
    assert_eq!(worker.phase, SummarizerPhase::Inserting { index: 3 });
    let action = worker.step(SummarizerEvent::SummaryInserted(Ok(17)));
    assert_eq!(action, SummarizerAction::DeleteSegment { index: 3 });
    assert_eq!(worker.phase, SummarizerPhase::Deleting { index: 3 });
    let action = worker.step(SummarizerEvent::SegmentDeleted(Ok(())));
    assert_eq!(action, SummarizerAction::AwaitRequest);
    assert_eq!(worker.phase, SummarizerPhase::Idle);
}

#[test]
fn failed_oracle_keeps_the_segment() {
    let mut worker = SummarizerService::new();
    worker.step(SummarizerEvent::Requested(SummarizeRequest::FileWithIndex(3)));
    worker.step(SummarizerEvent::SegmentRead(Ok("the lines".to_string())));
    let action = worker.step(SummarizerEvent::Summarized(Err(OracleError {
        message: "status 429".to_string(),
    })));
    // Neither a summary is stored nor the file deleted.
    assert_eq!(action, SummarizerAction::AwaitRequest);
    assert_eq!(worker.phase, SummarizerPhase::Idle);
    // Late news of the abandoned request lead to nothing either.
    assert_eq!(worker.step(SummarizerEvent::SummaryInserted(Ok(1))), SummarizerAction::AwaitRequest);
    assert_eq!(worker.step(SummarizerEvent::Summarized(Ok("s".to_string()))), SummarizerAction::AwaitRequest);
}

#[test]
fn failed_read_skips_the_request() {
    let mut worker = SummarizerService::new();
    worker.step(SummarizerEvent::Requested(SummarizeRequest::FileWithIndex(8)));
    let action = worker.step(SummarizerEvent::SegmentRead(Err(io("no such file"))));
    assert_eq!(action, SummarizerAction::AwaitRequest);
    assert_eq!(worker.phase, SummarizerPhase::Idle);
}

#[test]
fn failed_insert_keeps_the_segment() {
    let mut worker = SummarizerService::new();
    worker.step(SummarizerEvent::Requested(SummarizeRequest::FileWithIndex(8)));
    worker.step(SummarizerEvent::SegmentRead(Ok("t".to_string())));
    worker.step(SummarizerEvent::Summarized(Ok("s".to_string())));
    let action = worker.step(SummarizerEvent::SummaryInserted(Err(StoreError::Failed(
        "locked".to_string(),
    ))));
    assert_eq!(action, SummarizerAction::AwaitRequest);
    assert_eq!(worker.phase, SummarizerPhase::Idle);
}

#[test]
fn failed_delete_is_not_fatal() {
    let mut worker = SummarizerService::new();
    worker.step(SummarizerEvent::Requested(SummarizeRequest::FileWithIndex(1)));
    worker.step(SummarizerEvent::SegmentRead(Ok("t".to_string())));
    worker.step(SummarizerEvent::Summarized(Ok("s".to_string())));
    worker.step(SummarizerEvent::SummaryInserted(Ok(1)));
    let action = worker.step(SummarizerEvent::SegmentDeleted(Err(io("busy"))));
    assert_eq!(action, SummarizerAction::AwaitRequest);
    let action = worker.step(SummarizerEvent::Requested(SummarizeRequest::FileWithIndex(2)));
    assert_eq!(action, SummarizerAction::ReadSegment { index: 2 });
}

#[test]
fn news_out_of_place_end_the_request() {
    let mut worker = SummarizerService::new();
    worker.step(SummarizerEvent::Requested(SummarizeRequest::FileWithIndex(1)));
    // The insert was never asked for.
    let action = worker.step(SummarizerEvent::SummaryInserted(Ok(4)));
    assert_eq!(action, SummarizerAction::AwaitRequest);
    assert_eq!(worker.phase, SummarizerPhase::Idle);
    let action = worker.step(SummarizerEvent::SegmentRead(Ok("t".to_string())));
    assert_eq!(action, SummarizerAction::AwaitRequest);
}

#[test]
fn request_asks_the_fixed_model() {
    let request = summary_request("the text");
    assert_eq!(request.model, "gpt-4");
    assert_eq!(request.max_tokens, 4096);
    assert_eq!(MAX_ANSWER_TOKENS, 4096);
    assert_eq!(request.messages.len(), 2);
    assert_eq!(request.messages[0].role, "system");
    assert_eq!(
        request.messages[0].content,
        "You are a summarizer of large amount of content for a technical team. Summarize the following thoroughly:"
    );
    assert_eq!(request.messages[1].role, "user");
    assert_eq!(request.messages[1].content, "the text");
}

#[test]
fn answer_gives_its_first_choice() {
    let response = ChatCompletionResponse {
        choices: vec![
            Choice { message: GptMessage { content: "first".to_string() } },
            Choice { message: GptMessage { content: "second".to_string() } },
        ],
    };
    assert_eq!(response.summary(), Ok("first".to_string()));
}

#[test]
fn answer_without_choice_is_a_failure() {
    let response = ChatCompletionResponse { choices: vec![] };
    assert_eq!(
        response.summary(),
        Err(OracleError { message: "the answer holds no choice".to_string() })
    );
}
