//! Answers that the local engine streams, one JSON object on a line.
use vstd::prelude::*;

use crate::engines::stream::{
    answer_in, cut_line, law_lines_are_read_one_by_one, law_pieces_do_not_matter, lemma_answer_add,
    run_lines, skip_blank_lines, transcript, whole, Step,
};
use crate::engines::{ChatStreamEvent, ChatStreamEventView};
use crate::outcome::outcome;
use crate::text::{is_blank, law_only_blank_texts_vanish, lemma_leading, trim, CharClass};

verus! {

/// What one line says of the message.
#[derive(Debug)]
pub struct ChatStreamMessage {
    pub content: String,
    /// The reasoning trace of a model that thinks; empty otherwise.
    pub thinking: String,
}

/// One line of the stream.
#[derive(Debug)]
pub struct ChatStreamLine {
    pub message: Option<ChatStreamMessage>,
    pub done: bool,
    pub error: Option<String>,
    /// Tokens generated, on the last line.
    pub eval_count: Option<u64>,
    /// Nanoseconds spent on them, on the last line.
    pub eval_duration: Option<u64>,
}

/// What a [`ChatStreamMessage`] says.
pub struct ChatStreamMessageView {
    pub content: Seq<char>,
    pub thinking: Seq<char>,
}

/// What a [`ChatStreamLine`] says.
pub struct ChatStreamLineView {
    pub message: Option<ChatStreamMessageView>,
    pub done: bool,
    pub error: Option<Seq<char>>,
    pub eval_count: Option<u64>,
    pub eval_duration: Option<u64>,
}

impl DeepView for ChatStreamMessage {
    type V = ChatStreamMessageView;

    open spec fn deep_view(&self) -> ChatStreamMessageView {
        ChatStreamMessageView { content: self.content@, thinking: self.thinking@ }
    }
}

impl View for ChatStreamLine {
    type V = ChatStreamLineView;

    open spec fn view(&self) -> ChatStreamLineView {
        ChatStreamLineView {
            message: self.message.deep_view(),
            done: self.done,
            error: self.error.deep_view(),
            eval_count: self.eval_count,
            eval_duration: self.eval_duration,
        }
    }
}

impl DeepView for ChatStreamLine {
    type V = ChatStreamLineView;

    open spec fn deep_view(&self) -> ChatStreamLineView {
        self@
    }
}

/// Whether an answer goes on after a line.
pub enum LineEnd {
    More,
    /// The answer is complete. A line that says how many tokens took how many
    /// nanoseconds is a measurement of the machine.
    Completed { measured: Option<(u64, u64)> },
    /// The engine reported an error.
    Failed,
}

/// What one line means.
pub struct LocalStep {
    pub events: Vec<ChatStreamEvent>,
    pub end: LineEnd,
}

/// What a [`LocalStep`] says.
pub struct LocalStepView {
    pub events: Seq<ChatStreamEventView>,
    pub end: LineEnd,
}

impl View for LocalStep {
    type V = LocalStepView;

    open spec fn view(&self) -> LocalStepView {
        LocalStepView { events: self.events.deep_view(), end: self.end }
    }
}

/// The pieces of trace and answer that a line brings.
pub open spec fn message_events(
    request: Seq<char>,
    message: Option<ChatStreamMessageView>,
) -> Seq<ChatStreamEventView> {
    match message {
        None => Seq::empty(),
        Some(message) => {
            let thinking = if message.thinking.len() > 0 {
                seq![
                    ChatStreamEventView::Thinking {
                        request_id: request,
                        content: message.thinking,
                    },
                ]
            } else {
                Seq::empty()
            };
            let answer = if message.content.len() > 0 {
                seq![
                    ChatStreamEventView::Token { request_id: request, content: message.content },
                ]
            } else {
                Seq::empty()
            };
            thinking + answer
        },
    }
}

/// What a line means. One that cannot be read is reported and passed over; an
/// error of the engine's ends the answer.
pub open spec fn local_step(
    request: Seq<char>,
    line: Result<ChatStreamLineView, Seq<char>>,
) -> LocalStepView {
    match line {
        Err(reason) => LocalStepView {
            events: seq![
                ChatStreamEventView::Error {
                    request_id: request,
                    message: "parse error: "@ + reason,
                },
            ],
            end: LineEnd::More,
        },
        Ok(line) => match line.error {
            Some(message) => LocalStepView {
                events: seq![ChatStreamEventView::Error { request_id: request, message }],
                end: LineEnd::Failed,
            },
            None => LocalStepView {
                events: message_events(request, line.message),
                end: if line.done {
                    LineEnd::Completed {
                        measured: match (line.eval_count, line.eval_duration) {
                            (Some(count), Some(duration)) => Some((count, duration)),
                            _ => None,
                        },
                    }
                } else {
                    LineEnd::More
                },
            },
        },
    }
}

/// All events of an answer whose lines are read as `lines`. One that completes,
/// and one that breaks off, is done; one that failed has said so.
pub open spec fn local_events(
    request: Seq<char>,
    lines: Seq<Result<ChatStreamLineView, Seq<char>>>,
) -> Seq<ChatStreamEventView>
    decreases lines.len(),
{
    let done = seq![ChatStreamEventView::Done { request_id: request }];
    if lines.len() == 0 {
        done
    } else {
        let step = local_step(request, lines[0]);
        match step.end {
            LineEnd::More => step.events + local_events(request, lines.drop_first()),
            LineEnd::Completed { .. } => step.events + done,
            LineEnd::Failed => step.events,
        }
    }
}

/// Reads the message of a line.
fn read_message(request_id: &str, message: Option<ChatStreamMessage>) -> (r: Vec<ChatStreamEvent>)
    ensures
        r.deep_view() == message_events(request_id@, message.deep_view()),
{
    let mut r: Vec<ChatStreamEvent> = Vec::new();
    assert(r.deep_view() =~= Seq::empty());
    if let Some(message) = message {
        let ghost said = message.deep_view();
        if !message.thinking.as_str().is_empty() {
            r.push(
                ChatStreamEvent::Thinking {
                    request_id: request_id.to_string(),
                    content: message.thinking,
                },
            );
        }
        let ghost before = r.deep_view();
        assert(before =~= if said.thinking.len() > 0 {
            seq![
                ChatStreamEventView::Thinking {
                    request_id: request_id@,
                    content: said.thinking,
                },
            ]
        } else {
            Seq::empty()
        });
        if !message.content.as_str().is_empty() {
            r.push(
                ChatStreamEvent::Token {
                    request_id: request_id.to_string(),
                    content: message.content,
                },
            );
            assert(r.deep_view() =~= before + seq![
                ChatStreamEventView::Token { request_id: request_id@, content: said.content },
            ]);
        } else {
            assert(before + Seq::empty() =~= before);
        }
    }
    r
}

/// Reads one line of the stream, or the reason why it cannot be read.
pub fn read_chat_line(request_id: &str, line: Result<ChatStreamLine, String>) -> (r: LocalStep)
    ensures
        r@ == local_step(request_id@, outcome(line)),
{
    match line {
        Err(reason) => {
            let mut events: Vec<ChatStreamEvent> = Vec::new();
            events.push(
                ChatStreamEvent::Error {
                    request_id: request_id.to_string(),
                    message: "parse error: ".to_string().concat(reason.as_str()),
                },
            );
            assert(events.deep_view() =~= seq![events@[0]@]);
            LocalStep { events, end: LineEnd::More }
        },
        Ok(line) => {
            if let Some(message) = line.error {
                let mut events: Vec<ChatStreamEvent> = Vec::new();
                events.push(
                    ChatStreamEvent::Error { request_id: request_id.to_string(), message },
                );
                assert(events.deep_view() =~= seq![events@[0]@]);
                return LocalStep { events, end: LineEnd::Failed };
            }
            let events: Vec<ChatStreamEvent> = read_message(request_id, line.message);
            let end: LineEnd = if line.done {
                LineEnd::Completed {
                    measured: match (line.eval_count, line.eval_duration) {
                        (Some(count), Some(duration)) => Some((count, duration)),
                        _ => None,
                    },
                }
            } else {
                LineEnd::More
            };
            LocalStep { events, end }
        },
    }
}

/// How far an answer has come.
#[derive(Debug, Clone, Copy, PartialEq, Eq, Structural)]
enum Stage {
    /// More lines may come.
    Open,
    /// The engine has completed the answer, which is not yet reported as done.
    Completed,
    /// Nothing more is to be said.
    Closed,
}

/// An answer of the local engine in the course of arriving.
pub struct LocalStream {
    request_id: String,
    stage: Stage,
    /// The lines that have been read.
    lines: Ghost<Seq<Result<ChatStreamLineView, Seq<char>>>>,
    /// The events that have been given.
    given: Ghost<Seq<ChatStreamEventView>>,
}

/// Whether reading `lines` gives `given` and leaves an answer open, whatever
/// follows.
spec fn leaves_open(
    request: Seq<char>,
    lines: Seq<Result<ChatStreamLineView, Seq<char>>>,
    given: Seq<ChatStreamEventView>,
) -> bool {
    forall|more: Seq<Result<ChatStreamLineView, Seq<char>>>| #[trigger]
        local_events(request, lines + more) == given + local_events(request, more)
}

/// What one more line makes of an answer that is open.
proof fn lemma_one_more_line(
    request: Seq<char>,
    lines: Seq<Result<ChatStreamLineView, Seq<char>>>,
    given: Seq<ChatStreamEventView>,
    line: Result<ChatStreamLineView, Seq<char>>,
)
    requires
        leaves_open(request, lines, given),
    ensures
        ({
            let step = local_step(request, line);
            let done = seq![ChatStreamEventView::Done { request_id: request }];
            match step.end {
                LineEnd::More => leaves_open(request, lines.push(line), given + step.events),
                LineEnd::Completed { .. } => local_events(request, lines.push(line)) == given
                    + step.events + done,
                LineEnd::Failed => local_events(request, lines.push(line)) == given + step.events,
            }
        }),
{
    let step = local_step(request, line);
    let done = seq![ChatStreamEventView::Done { request_id: request }];
    assert(lines.push(line) =~= lines + seq![line]);
    assert(local_events(request, lines + seq![line]) == given + local_events(
        request,
        seq![line],
    ));
    assert(given + (step.events + done) =~= given + step.events + done);
    if step.end is More {
        assert forall|more: Seq<Result<ChatStreamLineView, Seq<char>>>| #[trigger]
            local_events(request, lines.push(line) + more) == given + step.events + local_events(
                request,
                more,
            ) by {
            let tail = seq![line] + more;
            assert(lines.push(line) + more =~= lines + tail);
            assert(tail.drop_first() =~= more);
            assert(local_events(request, lines + tail) == given + local_events(request, tail));
            assert(given + (step.events + local_events(request, more)) =~= given + step.events
                + local_events(request, more));
        }
    }
}

impl LocalStream {
    #[verifier::type_invariant]
    spec fn well_formed(self) -> bool {
        let request = self.request_id@;
        let done = seq![ChatStreamEventView::Done { request_id: request }];
        match self.stage {
            Stage::Open => leaves_open(request, self.lines@, self.given@),
            Stage::Completed => local_events(request, self.lines@) == self.given@ + done,
            Stage::Closed => local_events(request, self.lines@) == self.given@,
        }
    }

    /// The request that is answered.
    pub closed spec fn request(self) -> Seq<char> {
        self.request_id@
    }

    /// The lines that have been read.
    pub closed spec fn lines_read(self) -> Seq<Result<ChatStreamLineView, Seq<char>>> {
        self.lines@
    }

    /// The events that have been given.
    pub closed spec fn events_given(self) -> Seq<ChatStreamEventView> {
        self.given@
    }

    /// Whether more lines are read.
    pub closed spec fn open(self) -> bool {
        self.stage is Open
    }

    /// Whether nothing more is to be said.
    pub closed spec fn closed(self) -> bool {
        self.stage is Closed
    }

    /// An answer of which nothing has arrived.
    pub fn new(request_id: &str) -> (r: LocalStream)
        ensures
            r.request() == request_id@,
            r.lines_read() == Seq::<Result<ChatStreamLineView, Seq<char>>>::empty(),
            r.events_given() == Seq::<ChatStreamEventView>::empty(),
            r.open(),
    {
        proof {
            let lines = Seq::<Result<ChatStreamLineView, Seq<char>>>::empty();
            assert forall|more: Seq<Result<ChatStreamLineView, Seq<char>>>| #[trigger]
                local_events(request_id@, lines + more) == Seq::<ChatStreamEventView>::empty()
                    + local_events(request_id@, more) by {
                assert(lines + more =~= more);
                assert(Seq::<ChatStreamEventView>::empty() + local_events(request_id@, more)
                    =~= local_events(request_id@, more));
            }
        }
        LocalStream {
            request_id: request_id.to_string(),
            stage: Stage::Open,
            lines: Ghost(Seq::empty()),
            given: Ghost(Seq::empty()),
        }
    }

    /// Whether more lines are read.
    pub fn is_open(&self) -> (r: bool)
        ensures
            r == self.open(),
    {
        match self.stage {
            Stage::Open => true,
            _ => false,
        }
    }

    /// Reads the next line, or the reason why it cannot be read, and gives the
    /// events that it brings. A line after the end is not read and brings
    /// nothing. Where the end is a completion, [`LocalStream::finish`] is still
    /// to report it.
    pub fn read(&mut self, line: Result<ChatStreamLine, String>) -> (r: LocalStep)
        ensures
            final(self).request() == old(self).request(),
            final(self).events_given() == old(self).events_given() + r@.events,
            if old(self).open() {
                &&& r@ == local_step(old(self).request(), outcome(line))
                &&& final(self).lines_read() == old(self).lines_read().push(
                    outcome(line),
                )
                &&& final(self).open() == (r@.end is More)
                &&& final(self).closed() == (r@.end is Failed)
            } else {
                &&& r@ == (LocalStepView { events: Seq::empty(), end: LineEnd::More })
                &&& final(self).lines_read() == old(self).lines_read()
                &&& !final(self).open()
                &&& final(self).closed() == old(self).closed()
            },
            final(self).closed() ==> final(self).events_given() == local_events(
                final(self).request(),
                final(self).lines_read(),
            ),
    {
        proof {
            use_type_invariant(&*self);
        }
        if !self.is_open() {
            let r = LocalStep { events: Vec::new(), end: LineEnd::More };
            assert(r@.events =~= Seq::empty());
            assert(self.given@ + Seq::empty() =~= self.given@);
            return r;
        }
        let ghost said = outcome(line);
        let r: LocalStep = read_chat_line(self.request_id.as_str(), line);
        let stage: Stage = match r.end {
            LineEnd::More => Stage::Open,
            LineEnd::Completed { .. } => Stage::Completed,
            LineEnd::Failed => Stage::Closed,
        };
        proof {
            lemma_one_more_line(self.request_id@, self.lines@, self.given@, said);
        }
        *self =
        LocalStream {
            request_id: self.request_id.clone(),
            stage,
            lines: Ghost(self.lines@.push(said)),
            given: Ghost(self.given@ + r@.events),
        };
        r
    }

    /// The events of an answer that the engine completed or whose connection
    /// ends: it is done, unless it failed or has been reported before. With them
    /// the events given are all those of the lines read.
    pub fn finish(&mut self) -> (r: Vec<ChatStreamEvent>)
        ensures
            r.deep_view() == if old(self).closed() {
                Seq::empty()
            } else {
                seq![ChatStreamEventView::Done { request_id: old(self).request() }]
            },
            final(self).request() == old(self).request(),
            final(self).lines_read() == old(self).lines_read(),
            final(self).events_given() == old(self).events_given() + r.deep_view(),
            final(self).events_given() == local_events(
                old(self).request(),
                old(self).lines_read(),
            ),
            final(self).closed(),
    {
        proof {
            use_type_invariant(&*self);
        }
        let mut r: Vec<ChatStreamEvent> = Vec::new();
        if let Stage::Closed = self.stage {
            assert(r.deep_view() =~= Seq::empty());
            assert(self.given@ + Seq::empty() =~= self.given@);
            return r;
        }
        r.push(ChatStreamEvent::Done { request_id: self.request_id.clone() });
        let ghost done = seq![ChatStreamEventView::Done { request_id: self.request_id@ }];
        assert(r.deep_view() =~= done);
        proof {
            let none = Seq::<Result<ChatStreamLineView, Seq<char>>>::empty();
            assert(self.lines@ + none =~= self.lines@);
            assert(local_events(self.request_id@, none) == done);
            if self.stage is Open {
                assert(local_events(self.request_id@, self.lines@ + none) == self.given@
                    + local_events(self.request_id@, none));
            }
        }
        *self =
        LocalStream {
            request_id: self.request_id.clone(),
            stage: Stage::Closed,
            lines: Ghost(self.lines@),
            given: Ghost(self.given@ + done),
        };
        r
    }
}

/// Whatever the engine sends, every event of an answer carries the request's id,
/// the last one ends it, and it is reported as done at most once, at the end.
pub proof fn law_answer_ends_once(
    request: Seq<char>,
    lines: Seq<Result<ChatStreamLineView, Seq<char>>>,
)
    ensures
        ({
            let events = local_events(request, lines);
            &&& events.len() > 0
            &&& events.last().is_end()
            &&& forall|i: int| 0 <= i < events.len() ==> (#[trigger] events[i]).request() == request
            &&& forall|i: int| 0 <= i < events.len() - 1 ==> !((#[trigger] events[i]) is Done)
        }),
    decreases lines.len(),
{
    if lines.len() > 0 {
        law_answer_ends_once(request, lines.drop_first());
    }
}

/// How the engine's response is cut into lines: each that is not blank counts.
pub open spec fn filled_line_reader() -> spec_fn(Seq<char>) -> Step<Seq<char>> {
    |line: Seq<char>|
        Step {
            events: if line.len() > 0 {
                seq![line]
            } else {
                Seq::empty()
            },
            stop: false,
        }
}

/// The lines of a response that arrives as `pieces` of text.
pub open spec fn filled_lines(pieces: Seq<Seq<char>>) -> Seq<Seq<char>> {
    transcript(filled_line_reader(), Seq::empty(), pieces, Seq::empty())
}

/// Taking one line after another that is not blank, as `next_filled_line` does,
/// takes the lines of the text.
pub proof fn law_lines_are_taken_in_order(text: Seq<char>)
    ensures
        ({
            let all = run_lines(filled_line_reader(), text);
            match cut_line(skip_blank_lines(text)) {
                Some((line, rest)) => {
                    let more = run_lines(filled_line_reader(), rest);
                    all.events == seq![trim(line)] + more.events && all.rest == more.rest
                },
                None => all.events.len() == 0 && all.rest == skip_blank_lines(text),
            }
        }),
    decreases text.len(),
{
    if let Some((line, rest)) = cut_line(text) {
        lemma_leading(text, CharClass::AnyBut('\n'));
        if trim(line).len() == 0 {
            law_lines_are_taken_in_order(rest);
            let more = run_lines(filled_line_reader(), rest);
            assert(Seq::<Seq<char>>::empty() + more.events =~= more.events);
        }
    }
}

/// The lines of two responses that bring the same text are the same, however the
/// text is cut into pieces.
pub proof fn law_line_pieces_do_not_matter(a: Seq<Seq<char>>, b: Seq<Seq<char>>)
    requires
        whole(a) == whole(b),
    ensures
        filled_lines(a) == filled_lines(b),
{
    law_pieces_do_not_matter(filled_line_reader(), Seq::empty(), a, Seq::empty());
    law_pieces_do_not_matter(filled_line_reader(), Seq::empty(), b, Seq::empty());
}

/// What a line that reports no error brings: its piece of the trace, then its piece
/// of the answer, each character for character and only where it is not empty. It
/// ends the answer exactly where it says that it is done, and is a measurement
/// exactly where it then tells both tokens and time.
pub proof fn law_pieces_arrive_as_sent(
    request: Seq<char>,
    line: ChatStreamLineView,
    message: ChatStreamMessageView,
)
    requires
        line.error is None,
    ensures
        ({
            let step = local_step(request, Ok(line));
            let muses = message.thinking.len() > 0;
            let says = message.content.len() > 0;
            &&& line.message is None ==> step.events.len() == 0
            &&& line.message == Some(message) ==> {
                let before: int = if muses {
                    1
                } else {
                    0
                };
                let all: int = if says {
                    before + 1
                } else {
                    before
                };
                &&& step.events.len() == all
                &&& muses ==> step.events[0] == (ChatStreamEventView::Thinking {
                    request_id: request,
                    content: message.thinking,
                })
                &&& says ==> step.events[before] == (ChatStreamEventView::Token {
                    request_id: request,
                    content: message.content,
                })
            }
            &&& line.done <==> step.end is Completed
            &&& !line.done <==> step.end is More
            &&& step.end matches LineEnd::Completed { measured } ==> {
                &&& measured is Some <==> line.eval_count is Some && line.eval_duration is Some
                &&& measured matches Some((count, duration)) ==> line.eval_count == Some(count)
                    && line.eval_duration == Some(duration)
            }
        }),
{
}

/// An error of the engine's ends the answer in the engine's own words; a line that
/// cannot be read is reported with the reason, and the answer goes on.
pub proof fn law_errors_are_reported(
    request: Seq<char>,
    line: ChatStreamLineView,
    message: Seq<char>,
    reason: Seq<char>,
)
    ensures
        line.error == Some(message) ==> local_step(request, Ok(line)).end is Failed && local_step(
            request,
            Ok(line),
        ).events == seq![ChatStreamEventView::Error { request_id: request, message }],
        local_step(request, Err(reason)).end is More,
        local_step(request, Err(reason)).events == seq![
            ChatStreamEventView::Error { request_id: request, message: "parse error: "@ + reason },
        ],
{
}

/// Whether a line goes on with the answer by `text`.
pub open spec fn line_adds(line: Result<ChatStreamLineView, Seq<char>>, text: Seq<char>) -> bool {
    &&& line matches Ok(line)
    &&& line.error is None
    &&& text == match line.message {
        Some(message) => message.content,
        None => Seq::empty(),
    }
}

/// The user gets the answer that was sent, character for character: what the events
/// say are the contents of the lines, put together in order up to the line that is
/// done, and nothing behind it.
pub proof fn law_the_answer_is_put_together(
    request: Seq<char>,
    lines: Seq<Result<ChatStreamLineView, Seq<char>>>,
    texts: Seq<Seq<char>>,
    more: Seq<Result<ChatStreamLineView, Seq<char>>>,
)
    requires
        lines.len() == texts.len(),
        forall|i: int| 0 <= i < lines.len() ==> line_adds(#[trigger] lines[i], texts[i]),
        forall|i: int|
            0 <= i < lines.len() - 1 ==> ((#[trigger] lines[i]) matches Ok(line) && !line.done),
        lines.len() > 0 && more.len() > 0 ==> (lines.last() matches Ok(line) && line.done),
        lines.len() == 0 ==> more.len() == 0,
    ensures
        answer_in(local_events(request, lines + more)) == whole(texts),
    decreases lines.len(),
{
    let done = seq![ChatStreamEventView::Done { request_id: request }];
    let none = Seq::<ChatStreamEventView>::empty();
    assert(answer_in(none) =~= Seq::empty());
    assert(answer_in(done) =~= Seq::empty()) by {
        assert(done.drop_first() =~= none);
    }
    if lines.len() == 0 {
        assert(lines + more =~= lines);
        assert(whole(texts) =~= Seq::empty());
    } else {
        let all = lines + more;
        let rest = lines.drop_first();
        let later = texts.drop_first();
        assert(all[0] == lines[0]);
        assert(line_adds(lines[0], texts[0]));
        let step = local_step(request, lines[0]);
        assert(answer_in(step.events) == texts[0]) by {
            let line = lines[0]->Ok_0;
            if let Some(message) = line.message {
                law_pieces_arrive_as_sent(request, line, message);
                let says = if message.content.len() > 0 {
                    seq![
                        ChatStreamEventView::Token { request_id: request, content: message.content },
                    ]
                } else {
                    none
                };
                let muses = if message.thinking.len() > 0 {
                    seq![
                        ChatStreamEventView::Thinking {
                            request_id: request,
                            content: message.thinking,
                        },
                    ]
                } else {
                    none
                };
                assert(step.events =~= muses + says);
                lemma_answer_add(muses, says);
                assert(muses.len() > 0 ==> muses.drop_first() =~= none);
                assert(says.len() > 0 ==> says.drop_first() =~= none);
                assert(answer_in(muses) =~= Seq::empty());
                assert(answer_in(says) =~= message.content);
            } else {
                assert(step.events =~= none);
            }
        }
        if step.end is Completed {
            assert(lines.len() == 1);
            assert(later =~= Seq::empty());
            assert(whole(later) =~= Seq::empty());
            lemma_answer_add(step.events, done);
            assert(texts[0] + Seq::empty() =~= texts[0]);
        } else {
            assert(all.drop_first() =~= rest + more);
            assert forall|i: int| 0 <= i < rest.len() implies line_adds(
                #[trigger] rest[i],
                later[i],
            ) by {
                assert(line_adds(lines[i + 1], texts[i + 1]));
            }
            assert forall|i: int| 0 <= i < rest.len() - 1 implies ((#[trigger] rest[i]) matches Ok(
                line,
            ) && !line.done) by {
                assert(lines[i + 1] == rest[i]);
            }
            if rest.len() > 0 {
                assert(rest.last() == lines.last());
            }
            law_the_answer_is_put_together(request, rest, later, more);
            lemma_answer_add(step.events, local_events(request, rest + more));
        }
    }
}

/// The lines of a response are those between its line feeds, in order and without
/// the white space around them, but for the blank ones.
pub proof fn law_every_filled_line_is_taken(line: Seq<char>, rest: Seq<char>)
    requires
        !line.contains('\n'),
    ensures
        filled_lines(seq![line.push('\n') + rest]) == if is_blank(line) {
            filled_lines(seq![rest])
        } else {
            seq![trim(line)] + filled_lines(seq![rest])
        },
        filled_lines(seq![line]).len() == 0,
{
    law_lines_are_read_one_by_one(filled_line_reader(), line, rest, Seq::empty());
    law_only_blank_texts_vanish(line);
    assert(Seq::<Seq<char>>::empty() + filled_lines(seq![rest]) =~= filled_lines(seq![rest]));
}

/// Lines are read one after another, each once and in order, up to the one that
/// completes or fails the answer: a line that cannot be read holds up nothing, and
/// nothing is read behind the end.
pub proof fn law_lines_are_read_in_order(
    request: Seq<char>,
    line: Result<ChatStreamLineView, Seq<char>>,
    rest: Seq<Result<ChatStreamLineView, Seq<char>>>,
)
    ensures
        ({
            let events = local_events(request, seq![line] + rest);
            let done = seq![ChatStreamEventView::Done { request_id: request }];
            match line {
                Err(reason) => events == local_step(request, line).events + local_events(
                    request,
                    rest,
                ),
                Ok(said) => {
                    &&& said.error is Some ==> events == local_step(request, line).events
                    &&& said.error is None && said.done ==> events == local_step(
                        request,
                        line,
                    ).events + done
                    &&& said.error is None && !said.done ==> events == local_step(
                        request,
                        line,
                    ).events + local_events(request, rest)
                },
            }
        }),
        local_events(request, Seq::empty()) == seq![
            ChatStreamEventView::Done { request_id: request },
        ],
{
    let all = seq![line] + rest;
    assert(all[0] == line);
    assert(all.drop_first() =~= rest);
}

} // verus!
