//! The server-sent event streams of the online services.
use vstd::prelude::*;

use crate::engines::anthropic;
use crate::engines::gemini;
use crate::engines::openai_compat;
use crate::engines::stream::{
    answer_in, law_lines_are_read_one_by_one, law_pieces_do_not_matter, lemma_answer_add,
    lemma_transcript_form, transcript, whole, ChatStep, EventStream, LineReader, Step,
};
use crate::engines::{ChatStreamEvent, ChatStreamEventView};
use crate::json::{json_of_text, parse_json, Json, JsonTree};
use crate::text::{
    after_prefix, chars_of, is_blank, is_white_space, law_only_blank_texts_vanish,
    law_prefixes_are_stripped, law_trimming_takes_off_white_space_alone, lemma_nothing_to_trim,
    string_of, strip_prefix, text_eq, trim, trim_bounds,
};

verus! {

/// Whose events a stream carries.
#[derive(Debug, Clone, Copy, PartialEq, Eq, Structural)]
pub enum SseDialect {
    Anthropic,
    OpenAi,
    Gemini,
}

/// The data of a line, where it is a data line that is not blank.
pub open spec fn payload(line: Seq<char>) -> Option<Seq<char>> {
    match strip_prefix(line, "data:"@) {
        Some(rest) if trim(rest).len() > 0 => Some(trim(rest)),
        _ => None,
    }
}

/// What an event means in its dialect.
pub open spec fn value_step(
    dialect: SseDialect,
    request: Seq<char>,
    value: JsonTree,
) -> Step<ChatStreamEventView> {
    match dialect {
        SseDialect::Anthropic => anthropic::event_step(request, value),
        SseDialect::OpenAi => openai_compat::event_step(request, value),
        SseDialect::Gemini => gemini::event_step(request, value),
    }
}

/// What a line means: a line without data and data that is no JSON mean nothing,
/// and `[DONE]` completes an OpenAI-compatible response.
pub open spec fn line_step(
    dialect: SseDialect,
    request: Seq<char>,
    line: Seq<char>,
) -> Step<ChatStreamEventView> {
    match payload(line) {
        None => Step { events: Seq::empty(), stop: false },
        Some(data) => if dialect is OpenAi && data == "[DONE]"@ {
            Step { events: seq![ChatStreamEventView::Done { request_id: request }], stop: true }
        } else {
            match json_of_text(data) {
                Ok(value) => value_step(dialect, request, value),
                Err(_) => Step { events: Seq::empty(), stop: false },
            }
        },
    }
}

/// [`line_step`] of one response.
pub open spec fn line_reader(dialect: SseDialect, request: Seq<char>) -> spec_fn(Seq<char>) -> Step<
    ChatStreamEventView,
> {
    |line: Seq<char>| line_step(dialect, request, line)
}

/// All events of a response that arrives as `pieces` of text. One that breaks
/// off counts as complete.
pub open spec fn response_events(
    dialect: SseDialect,
    request: Seq<char>,
    pieces: Seq<Seq<char>>,
) -> Seq<ChatStreamEventView> {
    transcript(
        line_reader(dialect, request),
        Seq::empty(),
        pieces,
        seq![ChatStreamEventView::Done { request_id: request }],
    )
}

/// Reads one event in its dialect.
pub fn read_value(dialect: SseDialect, request_id: &str, value: &Json) -> (r: ChatStep)
    ensures
        r@ == value_step(dialect, request_id@, value.tree()),
{
    match dialect {
        SseDialect::Anthropic => anthropic::read_event(request_id, value),
        SseDialect::OpenAi => openai_compat::read_event(request_id, value),
        SseDialect::Gemini => gemini::read_event(request_id, value),
    }
}

/// Reads one line of the stream.
pub fn read_line(dialect: SseDialect, request_id: &str, line: &str) -> (r: ChatStep)
    ensures
        r@ == line_step(dialect, request_id@, line@),
{
    let chars: Vec<char> = chars_of(line);
    let rest = match after_prefix(chars.as_slice(), "data:") {
        Some(rest) => rest,
        None => {
            return ChatStep::quiet();
        },
    };
    let (start, end) = trim_bounds(rest);
    if start == end {
        return ChatStep::quiet();
    }
    let data: String = string_of(vstd::slice::slice_subrange(rest, start, end));
    if dialect == SseDialect::OpenAi && text_eq(data.as_str(), "[DONE]") {
        return ChatStep::done(request_id);
    }
    match parse_json(data.as_str()) {
        Ok(value) => read_value(dialect, request_id, &value),
        Err(_) => ChatStep::quiet(),
    }
}

/// How the lines of one response are read.
pub struct SseReader {
    pub dialect: SseDialect,
    pub request_id: String,
}

impl LineReader for SseReader {
    type Event = ChatStreamEvent;

    open spec fn step(&self) -> spec_fn(Seq<char>) -> Step<ChatStreamEventView> {
        line_reader(self.dialect, self.request_id@)
    }

    open spec fn at_end(&self) -> Seq<ChatStreamEventView> {
        seq![ChatStreamEventView::Done { request_id: self.request_id@ }]
    }

    fn any() -> (r: SseReader) {
        SseReader { dialect: SseDialect::Anthropic, request_id: String::new() }
    }

    fn read(&self, line: &str) -> (r: (Vec<ChatStreamEvent>, bool)) {
        let step: ChatStep = read_line(self.dialect, self.request_id.as_str(), line);
        (step.events, step.stop)
    }

    /// One that has not ended counts as complete.
    fn break_off(&self) -> (r: Vec<ChatStreamEvent>) {
        let mut r: Vec<ChatStreamEvent> = Vec::new();
        r.push(ChatStreamEvent::Done { request_id: self.request_id.clone() });
        assert(r.deep_view() =~= self.at_end());
        r
    }
}

/// A response of an online service in the course of arriving.
pub type SseStream = EventStream<SseReader>;

impl EventStream<SseReader> {
    /// A response of which nothing has arrived.
    pub fn new(dialect: SseDialect, request_id: &str) -> (r: SseStream)
        ensures
            r.reader().dialect == dialect,
            r.reader().request_id@ == request_id@,
            r.pending() == Seq::<char>::empty(),
            r.pieces_received() == Seq::<Seq<char>>::empty(),
            r.events_given() == Seq::<ChatStreamEventView>::empty(),
            !r.has_ended(),
    {
        EventStream::over(SseReader { dialect, request_id: request_id.to_string() })
    }
}

/// What a stream gives in all is the response that arrived.
pub proof fn law_stream_gives_the_response(reader: SseReader, pieces: Seq<Seq<char>>)
    ensures
        transcript(reader.step(), Seq::empty(), pieces, reader.at_end()) == response_events(
            reader.dialect,
            reader.request_id@,
            pieces,
        ),
{
}

/// Whether every event belongs to `request` and carries a piece of the response.
pub open spec fn all_content(request: Seq<char>, events: Seq<ChatStreamEventView>) -> bool {
    forall|i: int|
        0 <= i < events.len() ==> (#[trigger] events[i]).request() == request
            && events[i].is_content()
}

/// Whether the events are pieces of the response to `request`, then its one end.
pub open spec fn ends_once(request: Seq<char>, events: Seq<ChatStreamEventView>) -> bool {
    &&& events.len() > 0
    &&& all_content(request, events.drop_last())
    &&& events.last().request() == request
    &&& events.last().is_end()
}

/// Whatever a service sends, the response is pieces of text under the request's
/// id and then exactly one end: completion or an error.
pub proof fn law_response_ends_once(
    dialect: SseDialect,
    request: Seq<char>,
    pieces: Seq<Seq<char>>,
)
    ensures
        ends_once(request, response_events(dialect, request, pieces)),
{
    let middle = |events: Seq<ChatStreamEventView>| all_content(request, events);
    let end = |events: Seq<ChatStreamEventView>| ends_once(request, events);
    assert forall|a: Seq<ChatStreamEventView>, b: Seq<ChatStreamEventView>|
        middle(a) && end(b) implies #[trigger] end(a + b) by {
        assert((a + b).drop_last() =~= a + b.drop_last());
    }
    lemma_transcript_form(
        line_reader(dialect, request),
        middle,
        end,
        Seq::empty(),
        pieces,
        seq![ChatStreamEventView::Done { request_id: request }],
    );
}

/// Whether no event carries a piece of a reasoning trace.
pub open spec fn no_trace(events: Seq<ChatStreamEventView>) -> bool {
    forall|i: int| 0 <= i < events.len() ==> !((#[trigger] events[i]) is Thinking)
}

/// Only one of the services sends a reasoning trace.
pub proof fn law_other_services_send_no_trace(
    dialect: SseDialect,
    request: Seq<char>,
    pieces: Seq<Seq<char>>,
)
    requires
        !(dialect is Anthropic),
    ensures
        no_trace(response_events(dialect, request, pieces)),
{
    let form = |events: Seq<ChatStreamEventView>| no_trace(events);
    lemma_transcript_form(
        line_reader(dialect, request),
        form,
        form,
        Seq::empty(),
        pieces,
        seq![ChatStreamEventView::Done { request_id: request }],
    );
}

/// Two responses that bring the same text give the same events, however the text
/// is cut into pieces.
pub proof fn law_response_pieces_do_not_matter(
    dialect: SseDialect,
    request: Seq<char>,
    a: Seq<Seq<char>>,
    b: Seq<Seq<char>>,
)
    requires
        whole(a) == whole(b),
    ensures
        response_events(dialect, request, a) == response_events(dialect, request, b),
{
    let at_end = seq![ChatStreamEventView::Done { request_id: request }];
    law_pieces_do_not_matter(line_reader(dialect, request), Seq::empty(), a, at_end);
    law_pieces_do_not_matter(line_reader(dialect, request), Seq::empty(), b, at_end);
}

/// A data line brings the value that its data writes, whatever white space stands
/// before it. Data that is no JSON brings nothing, and `[DONE]` completes an
/// OpenAI-compatible response.
pub proof fn law_data_lines_bring_their_value(
    dialect: SseDialect,
    request: Seq<char>,
    space: Seq<char>,
    data: Seq<char>,
)
    requires
        is_blank(space),
        data.len() > 0,
        !is_white_space(data[0]),
        !is_white_space(data.last()),
    ensures
        ({
            let step = line_step(dialect, request, "data:"@ + space + data);
            if dialect is OpenAi && data == "[DONE]"@ {
                step == (Step {
                    events: seq![ChatStreamEventView::Done { request_id: request }],
                    stop: true,
                })
            } else {
                match json_of_text(data) {
                    Ok(value) => step == value_step(dialect, request, value),
                    Err(_) => step.events.len() == 0 && !step.stop,
                }
            }
        }),
{
    let none = Seq::<char>::empty();
    let line = "data:"@ + space + data;
    assert(line =~= "data:"@ + (space + data));
    law_prefixes_are_stripped("data:"@, space + data, line);
    law_trimming_takes_off_white_space_alone(space, data, none);
    assert(space + data + none =~= space + data);
}

/// A line that is no data line, or whose data is blank, brings nothing.
pub proof fn law_other_lines_bring_nothing(
    dialect: SseDialect,
    request: Seq<char>,
    line: Seq<char>,
    space: Seq<char>,
)
    requires
        !"data:"@.is_prefix_of(line) || (is_blank(space) && line == "data:"@ + space),
    ensures
        line_step(dialect, request, line).events.len() == 0,
        !line_step(dialect, request, line).stop,
{
    law_prefixes_are_stripped("data:"@, space, line);
    law_only_blank_texts_vanish(space);
}

/// Lines as they are sent, each with its line feed.
pub open spec fn sent(lines: Seq<Seq<char>>) -> Seq<char>
    decreases lines.len(),
{
    if lines.len() == 0 {
        Seq::empty()
    } else {
        lines[0].push('\n') + sent(lines.drop_first())
    }
}

/// Whether a line of a response adds `text` to the answer: a data line whose JSON
/// does so in the service's dialect and reports no error.
pub open spec fn line_adds(dialect: SseDialect, line: Seq<char>, text: Seq<char>) -> bool {
    &&& "data: "@.is_prefix_of(line)
    &&& !line.contains('\n')
    &&& line.len() > 6
    &&& !is_white_space(line[6])
    &&& !is_white_space(line.last())
    &&& line.skip(6) != "[DONE]"@
    &&& json_of_text(line.skip(6)) matches Ok(value)
    &&& match dialect {
        SseDialect::Anthropic => anthropic::adds(value, text),
        SseDialect::OpenAi => value.get("error"@) is None && openai_compat::adds(value, text),
        SseDialect::Gemini => value.get("error"@) is None && gemini::adds(value, text),
    }
}

proof fn lemma_line_adds(
    dialect: SseDialect,
    request: Seq<char>,
    line: Seq<char>,
    text: Seq<char>,
)
    requires
        line_adds(dialect, line, text),
    ensures
        trim(line) == line,
        !line_step(dialect, request, line).stop,
        answer_in(line_step(dialect, request, line).events) == text,
{
    reveal_strlit("data: ");
    reveal_strlit("data:");
    let data = line.skip(6);
    let space = seq![' '];
    assert("data: "@ =~= "data:"@ + space);
    assert(line =~= "data: "@ + data);
    assert(line =~= "data:"@ + space + data);
    assert(line[0] == 'd');
    assert(data[0] == line[6]);
    lemma_nothing_to_trim(line);
    law_data_lines_bring_their_value(dialect, request, space, data);
    let value = json_of_text(data)->Ok_0;
    let step = line_step(dialect, request, line);
    match dialect {
        SseDialect::Anthropic => anthropic::law_pieces_arrive_as_sent(request, value, text),
        SseDialect::OpenAi => openai_compat::law_pieces_arrive_as_sent(request, value, text),
        SseDialect::Gemini => gemini::law_pieces_arrive_as_sent(request, value, text),
    }
    if step.events.len() == 0 {
        assert(text =~= Seq::empty());
    } else {
        assert(step.events.drop_first() =~= Seq::empty());
        assert(answer_in(Seq::empty()) =~= Seq::empty());
        assert(text + Seq::empty() =~= text);
    }
}

/// The user gets the answer that was sent, character for character: what the
/// events say is what the lines add, put together in order, however the response
/// is cut into pieces.
pub proof fn law_the_answer_is_put_together(
    dialect: SseDialect,
    request: Seq<char>,
    lines: Seq<Seq<char>>,
    texts: Seq<Seq<char>>,
    pieces: Seq<Seq<char>>,
)
    requires
        lines.len() == texts.len(),
        forall|i: int| 0 <= i < lines.len() ==> line_adds(dialect, #[trigger] lines[i], texts[i]),
        whole(pieces) == sent(lines),
    ensures
        answer_in(response_events(dialect, request, pieces)) == whole(texts),
    decreases lines.len(),
{
    let at_end = seq![ChatStreamEventView::Done { request_id: request }];
    let step = line_reader(dialect, request);
    let all = sent(lines);
    assert(whole(seq![all]) == all) by {
        assert(seq![all].drop_first() =~= Seq::empty());
        assert(whole(Seq::empty()) =~= Seq::empty());
        assert(all + Seq::empty() =~= all);
    }
    law_response_pieces_do_not_matter(dialect, request, pieces, seq![all]);
    assert(answer_in(at_end) =~= Seq::empty()) by {
        assert(at_end.drop_first() =~= Seq::empty());
        assert(answer_in(Seq::empty()) =~= Seq::empty());
    }
    if lines.len() == 0 {
        law_lines_are_read_one_by_one(step, Seq::empty(), Seq::empty(), at_end);
        assert(whole(texts) =~= Seq::empty());
    } else {
        let rest = lines.drop_first();
        let more = texts.drop_first();
        assert forall|i: int| 0 <= i < rest.len() implies line_adds(
            dialect,
            #[trigger] rest[i],
            more[i],
        ) by {
            assert(line_adds(dialect, lines[i + 1], texts[i + 1]));
        }
        assert(line_adds(dialect, lines[0], texts[0]));
        lemma_line_adds(dialect, request, lines[0], texts[0]);
        law_lines_are_read_one_by_one(step, lines[0], sent(rest), at_end);
        assert(whole(seq![sent(rest)]) == sent(rest)) by {
            assert(seq![sent(rest)].drop_first() =~= Seq::empty());
            assert(whole(Seq::empty()) =~= Seq::empty());
            assert(sent(rest) + Seq::empty() =~= sent(rest));
        }
        law_the_answer_is_put_together(dialect, request, rest, more, seq![sent(rest)]);
        lemma_answer_add(
            step(trim(lines[0])).events,
            response_events(dialect, request, seq![sent(rest)]),
        );
    }
}

} // verus!
