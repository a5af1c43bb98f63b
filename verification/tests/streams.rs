use local_agents_ops::engines::ollama_chat::{
    read_chat_line, ChatStreamLine, ChatStreamMessage, LineEnd, LocalStream,
};
use local_agents_ops::engines::pull::{
    pull_failed, pull_rejected, pull_request, PullStream, INTERRUPTED,
};
use local_agents_ops::engines::sse::{SseDialect, SseStream};
use local_agents_ops::engines::stream::LineBuffer;
use local_agents_ops::engines::{ChatStreamEvent, PullProgressEvent};

/// Events in a form that can be compared.
fn shown(events: &[ChatStreamEvent]) -> Vec<String> {
    events
        .iter()
        .map(|event| match event {
            ChatStreamEvent::Queued { request_id } => format!("{request_id} queued"),
            ChatStreamEvent::Thinking { request_id, content } => {
                format!("{request_id} thinks {content}")
            }
            ChatStreamEvent::Token { request_id, content } => format!("{request_id} says {content}"),
            ChatStreamEvent::Done { request_id } => format!("{request_id} done"),
            ChatStreamEvent::Cancelled { request_id } => format!("{request_id} cancelled"),
            ChatStreamEvent::Error { request_id, message } => {
                format!("{request_id} error {message}")
            }
        })
        .collect()
}

fn pulled(events: &[PullProgressEvent]) -> Vec<String> {
    events
        .iter()
        .map(|event| match event {
            PullProgressEvent::Progress { model, status, completed, total } => {
                format!("{model} {status} {completed:?}/{total:?}")
            }
            PullProgressEvent::Done { model } => format!("{model} done"),
            PullProgressEvent::Error { model, message } => format!("{model} error {message}"),
        })
        .collect()
}

/// All events of a response that arrives in the given chunks.
fn response(dialect: SseDialect, chunks: &[&[u8]]) -> Vec<String> {
    let mut stream = SseStream::new(dialect, "r");
    let mut events = Vec::new();
    for chunk in chunks {
        events.extend(stream.feed(chunk));
    }
    events.extend(stream.finish());
    shown(&events)
}

fn download(chunks: &[&[u8]]) -> Vec<String> {
    let mut stream = PullStream::new("m");
    let mut events = Vec::new();
    for chunk in chunks {
        events.extend(stream.feed(chunk));
    }
    events.extend(stream.finish());
    pulled(&events)
}

const MESSAGES: &str = "event: content_block_delta\n\
data: {\"type\":\"content_block_delta\",\"delta\":{\"type\":\"thinking_delta\",\"thinking\":\"hm\"}}\r\n\
\n\
data: {\"type\":\"content_block_delta\",\"delta\":{\"type\":\"text_delta\",\"text\":\"こんにちは\"}}\n\
data: {\"type\":\"content_block_delta\",\"delta\":{\"type\":\"text_delta\",\"text\":\"\"}}\n\
data: {\"type\":\"content_block_delta\",\"delta\":{\"type\":\"signature_delta\"}}\n\
data: not json\n\
data:\n\
data: {\"type\":\"ping\"}\n\
data: {\"type\":\"message_stop\"}\n\
data: {\"type\":\"content_block_delta\",\"delta\":{\"type\":\"text_delta\",\"text\":\"late\"}}\n";

#[test]
fn a_messages_stream_is_read() {
    assert_eq!(
        response(SseDialect::Anthropic, &[MESSAGES.as_bytes()]),
        vec!["r thinks hm", "r says こんにちは", "r says ", "r done"]
    );
}

#[test]
fn how_a_stream_is_cut_does_not_matter() {
    let whole = response(SseDialect::Anthropic, &[MESSAGES.as_bytes()]);
    let text: Vec<char> = MESSAGES.chars().collect();
    for size in [1, 2, 7, 64] {
        let pieces: Vec<String> = text.chunks(size).map(|c| c.iter().collect()).collect();
        let chunks: Vec<&[u8]> = pieces.iter().map(|p| p.as_bytes()).collect();
        assert_eq!(response(SseDialect::Anthropic, &chunks), whole);
    }
}

#[test]
fn a_messages_error_ends_the_response() {
    assert_eq!(
        response(
            SseDialect::Anthropic,
            &[
                b"data: {\"type\":\"error\",\"error\":{\"message\":\"overloaded\"}}\n",
                b"data: {\"type\":\"message_stop\"}\n",
            ]
        ),
        vec!["r error overloaded"]
    );
    assert_eq!(
        response(SseDialect::Anthropic, &[b"data: {\"type\":\"error\"}\n"]),
        vec!["r error unknown error"]
    );
}

#[test]
fn a_completions_stream_is_read() {
    assert_eq!(
        response(
            SseDialect::OpenAi,
            &[
                b"data: {\"choices\":[{\"delta\":{\"content\":\"a\"}}]}\n",
                b"data: {\"choices\":[{\"delta\":{\"content\":\"\"}}]}\n",
                b"data: {\"choices\":[{\"delta\":{}}]}\ndata: {\"choices\":[]}\n",
                b"data: [DONE]\ndata: {\"choices\":[{\"delta\":{\"content\":\"b\"}}]}\n",
            ]
        ),
        vec!["r says a", "r done"]
    );
    assert_eq!(
        response(SseDialect::OpenAi, &[b"data: {\"error\":{\"message\":\"quota\"}}\n"]),
        vec!["r error quota"]
    );
    assert_eq!(
        response(SseDialect::OpenAi, &[b"data: {\"error\":\"quota\"}\n"]),
        vec!["r error unknown error"]
    );
}

#[test]
fn a_gemini_stream_is_read() {
    assert_eq!(
        response(
            SseDialect::Gemini,
            &[
                b"data: {\"candidates\":[{\"content\":{\"parts\":[{\"text\":\"a\"},{\"text\":\"b\"}]}}]}\n",
                b"data: {\"candidates\":[{\"content\":{\"parts\":[{\"text\":\"\"}]}}]}\n",
                b"data: [DONE]\n",
            ]
        ),
        vec!["r says a", "r done"]
    );
    assert_eq!(
        response(SseDialect::Gemini, &[b"data: {\"error\":{\"message\":\"bad key\"}}\n"]),
        vec!["r error bad key"]
    );
}

#[test]
fn only_one_service_sends_a_trace() {
    assert_eq!(
        response(SseDialect::OpenAi, &[MESSAGES.as_bytes()]),
        vec!["r done"]
    );
    assert_eq!(
        response(SseDialect::Gemini, &[MESSAGES.as_bytes()]),
        vec!["r done"]
    );
    let thought: &[u8] = b"data: {\"candidates\":[{\"content\":{\"parts\":\
[{\"thought\":true,\"text\":\"hm\"}]}}]}\n";
    assert_eq!(
        response(SseDialect::Gemini, &[thought]),
        vec!["r says hm", "r done"]
    );
}

#[test]
fn a_response_that_breaks_off_counts_as_complete() {
    assert_eq!(response(SseDialect::Gemini, &[]), vec!["r done"]);
    // A line without its end is not read.
    assert_eq!(
        response(
            SseDialect::OpenAi,
            &[b"data: {\"choices\":[{\"delta\":{\"content\":\"a\"}}]}"]
        ),
        vec!["r done"]
    );
}

#[test]
fn bytes_that_are_no_text_are_replaced() {
    assert_eq!(
        response(
            SseDialect::OpenAi,
            &[b"data: {\"choices\":[{\"delta\":{\"content\":\"a\xffb\"}}]}\n"]
        ),
        vec!["r says a\u{fffd}b", "r done"]
    );
}

#[test]
fn a_download_is_reported_to_its_end() {
    assert_eq!(
        download(&[
            b"{\"status\":\"pulling manifest\"}\n\nnoise\n",
            b"{\"status\":\"pulling\",\"completed\":5,\"total\":10}\n",
            b"{\"completed\":-1}\n{\"status\":\"succ",
            b"ess\"}\n{\"status\":\"late\"}\n",
            b"{\"status\":\"later\"}\n",
        ]),
        vec![
            "m pulling manifest None/None",
            "m pulling Some(5)/Some(10)",
            "m  None/None",
            "m success None/None",
            "m done",
        ]
    );
}

#[test]
fn an_interrupted_download_is_not_done() {
    assert_eq!(
        download(&[b"{\"status\":\"pulling\"}\n{\"status\":\"success\"}"]),
        vec![
            "m pulling None/None".to_string(),
            format!("m error {INTERRUPTED}"),
        ]
    );
    assert_eq!(
        INTERRUPTED,
        "ダウンロードが完了前に中断されました（接続が切れた可能性があります）"
    );
}

#[test]
fn a_download_that_fails_says_so_once() {
    assert_eq!(
        download(&[b"{\"error\":\"no such model\"}\n{\"status\":\"success\"}\n"]),
        vec!["m error no such model"]
    );
    assert_eq!(pulled(&[pull_failed("m", "refused")]), vec!["m error refused"]);
    assert_eq!(
        pulled(&[pull_rejected("m", "404 Not Found", "gone")]),
        vec!["m error 404 Not Found: gone"]
    );
    let request = pull_request("m");
    assert_eq!(request.name, "m");
    assert!(request.stream);
}

fn line(message: Option<(&str, &str)>, done: bool) -> ChatStreamLine {
    ChatStreamLine {
        message: message.map(|(thinking, content)| ChatStreamMessage {
            content: content.to_string(),
            thinking: thinking.to_string(),
        }),
        done,
        error: None,
        eval_count: None,
        eval_duration: None,
    }
}

#[test]
fn a_local_line_brings_the_trace_before_the_answer() {
    let step = read_chat_line("r", Ok(line(Some(("hm", "yes")), false)));
    assert_eq!(shown(&step.events), vec!["r thinks hm", "r says yes"]);
    assert!(matches!(step.end, LineEnd::More));

    let step = read_chat_line("r", Ok(line(Some(("", "yes")), false)));
    assert_eq!(shown(&step.events), vec!["r says yes"]);
    let step = read_chat_line("r", Ok(line(Some(("", "")), false)));
    assert!(step.events.is_empty());
    let step = read_chat_line("r", Ok(line(None, false)));
    assert!(step.events.is_empty());
    assert!(matches!(step.end, LineEnd::More));
}

#[test]
fn a_local_line_that_cannot_be_read_is_passed_over() {
    let step = read_chat_line("r", Err("expected value".to_string()));
    assert_eq!(shown(&step.events), vec!["r error parse error: expected value"]);
    assert!(matches!(step.end, LineEnd::More));
}

#[test]
fn an_error_of_the_local_engine_ends_the_answer() {
    let mut failed = line(Some(("", "ignored")), true);
    failed.error = Some("out of memory".to_string());
    let step = read_chat_line("r", Ok(failed));
    assert_eq!(shown(&step.events), vec!["r error out of memory"]);
    assert!(matches!(step.end, LineEnd::Failed));
}

#[test]
fn the_last_local_line_measures_the_machine() {
    let mut last = line(Some(("", "end")), true);
    let step = read_chat_line("r", Ok(line(None, true)));
    assert!(matches!(step.end, LineEnd::Completed { measured: None }));

    last.eval_count = Some(100);
    last.eval_duration = Some(5);
    let step = read_chat_line("r", Ok(last));
    assert_eq!(shown(&step.events), vec!["r says end"]);
    assert!(matches!(step.end, LineEnd::Completed { measured: Some((100, 5)) }));

    let mut half = line(None, true);
    half.eval_count = Some(100);
    let step = read_chat_line("r", Ok(half));
    assert!(matches!(step.end, LineEnd::Completed { measured: None }));
}

#[test]
fn lines_are_cut_and_trimmed() {
    let mut buffer = LineBuffer::new();
    assert_eq!(buffer.next_line(), None);
    buffer.push_chunk(" a b \r\n\n\u{3000}\nc".as_bytes());
    assert_eq!(buffer.next_line().as_deref(), Some("a b"));
    assert_eq!(buffer.next_line().as_deref(), Some(""));
    assert_eq!(buffer.next_line().as_deref(), Some(""));
    assert_eq!(buffer.next_line(), None);
    buffer.push_chunk(b"d\n");
    assert_eq!(buffer.next_line().as_deref(), Some("cd"));
}

#[test]
fn filled_lines_do_not_depend_on_chunks() {
    let text = " a\n\nb c\n \nd\ne";
    let lines = |size: usize| {
        let mut buffer = LineBuffer::new();
        let mut found = Vec::new();
        for chunk in text.as_bytes().chunks(size) {
            buffer.push_chunk(chunk);
            while let Some(line) = buffer.next_filled_line() {
                found.push(line);
            }
        }
        found
    };
    for size in [1, 2, 3, 100] {
        assert_eq!(lines(size), vec!["a", "b c", "d"]);
    }
}

#[test]
fn blank_lines_can_be_passed_over() {
    let mut buffer = LineBuffer::new();
    buffer.push_chunk(b"\n \n x \n\n");
    assert_eq!(buffer.next_filled_line().as_deref(), Some("x"));
    assert_eq!(buffer.next_filled_line(), None);
    buffer.push_chunk(b"y\n");
    assert_eq!(buffer.next_filled_line().as_deref(), Some("y"));
    assert_eq!(buffer.next_filled_line(), None);
}

/// All events of a local answer with the given lines.
fn answer(lines: Vec<Result<ChatStreamLine, String>>) -> Vec<String> {
    let mut stream = LocalStream::new("r");
    let mut events = Vec::new();
    for line in lines {
        events.extend(stream.read(line).events);
    }
    events.extend(stream.finish());
    assert!(stream.finish().is_empty());
    shown(&events)
}

#[test]
fn a_local_answer_ends_once() {
    assert_eq!(answer(vec![]), vec!["r done"]);
    assert_eq!(
        answer(vec![
            Ok(line(Some(("", "a")), false)),
            Err("bad".to_string()),
            Ok(line(Some(("", "b")), true)),
            Ok(line(Some(("", "late")), false)),
        ]),
        vec!["r says a", "r error parse error: bad", "r says b", "r done"]
    );
    let mut failed = line(None, false);
    failed.error = Some("broken".to_string());
    assert_eq!(
        answer(vec![Ok(failed), Ok(line(Some(("", "late")), true))]),
        vec!["r error broken"]
    );
    assert_eq!(answer(vec![Ok(line(Some(("", "cut")), false))]), vec!["r says cut", "r done"]);
}

#[test]
fn a_local_answer_is_open_until_its_end() {
    let mut stream = LocalStream::new("r");
    assert!(stream.is_open());
    stream.read(Ok(line(None, false)));
    assert!(stream.is_open());
    let step = stream.read(Ok(line(None, true)));
    assert!(matches!(step.end, LineEnd::Completed { measured: None }));
    assert!(!stream.is_open());
}

#[test]
fn nothing_is_read_after_the_end() {
    let mut stream = SseStream::new(SseDialect::OpenAi, "r");
    assert!(!stream.is_stopped());
    assert_eq!(shown(&stream.feed(b"data: [DONE]\n")), vec!["r done"]);
    assert!(stream.is_stopped());
    assert!(stream.feed(b"data: [DONE]\n").is_empty());
    let mut stream = PullStream::new("m");
    assert_eq!(stream.feed(b"{\"error\":\"x\"}\n").len(), 1);
    assert!(stream.is_stopped());
    assert!(stream.feed(b"{\"error\":\"x\"}\n").is_empty());
}
