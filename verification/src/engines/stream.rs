//! Responses that arrive in pieces: cutting them into lines, and reading the
//! lines one after another.
use vstd::prelude::*;

use crate::engines::{ChatStreamEvent, ChatStreamEventView};
use crate::text::{
    chars_of, leading, leading_end, lemma_leading, lemma_leading_is, string_of, trim, trim_bounds,
    CharClass,
};

verus! {

/// The text that `String::from_utf8_lossy` makes of `bytes`.
pub uninterp spec fn lossy_text(bytes: Seq<u8>) -> Seq<char>;

/// `String::from_utf8_lossy`: well-formed UTF-8 is decoded; what is not
/// well-formed becomes the replacement character. The contract names the text,
/// says what it is where the bytes are well-formed, and that no line feed and no
/// carriage return is in the text unless its byte is among the bytes.
#[verifier::external_body]
pub(crate) fn decode_lossy(bytes: &[u8]) -> (r: String)
    ensures
        r@ == lossy_text(bytes@),
        vstd::utf8::valid_utf8(bytes@) ==> r@ == vstd::utf8::decode_utf8(bytes@),
        !bytes@.contains(10u8) ==> !r@.contains('\n'),
        !bytes@.contains(13u8) ==> !r@.contains('\r'),
{
    String::from_utf8_lossy(bytes).into_owned()
}

/// Whether the text of `bytes`, where they are well-formed, is what they encode.
pub open spec fn decoded(bytes: Seq<u8>) -> bool {
    vstd::utf8::valid_utf8(bytes) ==> lossy_text(bytes) == vstd::utf8::decode_utf8(bytes)
}

/// The first line of `s`, without its line feed, and what follows it.
pub open spec fn cut_line(s: Seq<char>) -> Option<(Seq<char>, Seq<char>)> {
    let n = leading(s, CharClass::AnyBut('\n')) as int;
    if n < s.len() {
        Some((s.take(n), s.skip(n + 1)))
    } else {
        None
    }
}

/// Text that has arrived and is not yet read.
pub struct LineBuffer {
    pending: Vec<char>,
}

impl View for LineBuffer {
    type V = Seq<char>;

    closed spec fn view(&self) -> Seq<char> {
        self.pending@
    }
}

impl LineBuffer {
    /// A buffer with nothing in it.
    pub fn new() -> (r: LineBuffer)
        ensures
            r@ == Seq::<char>::empty(),
    {
        LineBuffer { pending: Vec::new() }
    }

    /// Adds a chunk of the response.
    pub fn push_chunk(&mut self, chunk: &[u8])
        ensures
            final(self)@ == old(self)@ + lossy_text(chunk@),
            decoded(chunk@),
    {
        let text: String = decode_lossy(chunk);
        let mut more: Vec<char> = chars_of(text.as_str());
        self.pending.append(&mut more);
    }

    /// Takes the first complete line, without surrounding white space.
    pub fn next_line(&mut self) -> (r: Option<String>)
        ensures
            match cut_line(old(self)@) {
                Some((line, rest)) => r.deep_view() == Some(trim(line)) && final(self)@ == rest,
                None => r is None && final(self)@ == old(self)@,
            },
    {
        let ghost s = self.pending@;
        assert(s.skip(0) =~= s);
        let n: usize = leading_end(self.pending.as_slice(), 0, CharClass::AnyBut('\n'));
        if n == self.pending.len() {
            return None;
        }
        let rest: Vec<char> = vstd::slice::slice_to_vec(
            vstd::slice::slice_subrange(self.pending.as_slice(), n + 1, self.pending.len()),
        );
        assert(rest@ =~= s.skip(n + 1));
        let line = vstd::slice::slice_subrange(self.pending.as_slice(), 0, n);
        assert(line@ =~= s.take(n as int));
        let (start, end) = trim_bounds(line);
        let text: String = string_of(vstd::slice::slice_subrange(line, start, end));
        self.pending = rest;
        Some(text)
    }
}

/// `s` without the blank lines that it begins with.
pub open spec fn skip_blank_lines(s: Seq<char>) -> Seq<char>
    decreases s.len(),
{
    proof {
        lemma_leading(s, CharClass::AnyBut('\n'));
    }
    match cut_line(s) {
        Some((line, rest)) if trim(line).len() == 0 => skip_blank_lines(rest),
        _ => s,
    }
}

impl LineBuffer {
    /// Takes the first complete line that is not blank, without surrounding
    /// white space.
    pub fn next_filled_line(&mut self) -> (r: Option<String>)
        ensures
            match cut_line(skip_blank_lines(old(self)@)) {
                Some((line, rest)) => r.deep_view() == Some(trim(line)) && final(self)@ == rest,
                None => r is None && final(self)@ == skip_blank_lines(old(self)@),
            },
        decreases old(self)@.len(),
    {
        proof {
            lemma_leading(self@, CharClass::AnyBut('\n'));
        }
        match self.next_line() {
            Some(line) => {
                if line.as_str().is_empty() {
                    self.next_filled_line()
                } else {
                    Some(line)
                }
            },
            None => None,
        }
    }
}

/// What reading one line gives: events, and whether the stream ends there.
pub struct Step<E> {
    pub events: Seq<E>,
    pub stop: bool,
}

/// The executable form of a [`Step`] of a chat.
#[derive(Debug)]
pub struct ChatStep {
    pub events: Vec<ChatStreamEvent>,
    pub stop: bool,
}

impl View for ChatStep {
    type V = Step<ChatStreamEventView>;

    open spec fn view(&self) -> Step<ChatStreamEventView> {
        Step { events: self.events.deep_view(), stop: self.stop }
    }
}

impl ChatStep {
    /// A line that says nothing.
    pub fn quiet() -> (r: ChatStep)
        ensures
            r@ == (Step { events: Seq::<ChatStreamEventView>::empty(), stop: false }),
    {
        let r = ChatStep { events: Vec::new(), stop: false };
        assert(r.events.deep_view() =~= Seq::empty());
        r
    }

    /// A line that brings one event.
    pub fn one(event: ChatStreamEvent, stop: bool) -> (r: ChatStep)
        ensures
            r@ == (Step { events: seq![event@], stop }),
    {
        let mut events: Vec<ChatStreamEvent> = Vec::new();
        events.push(event);
        assert(events.deep_view() =~= seq![event@]);
        ChatStep { events, stop }
    }

    /// The line that completes the response.
    pub fn done(request_id: &str) -> (r: ChatStep)
        ensures
            r@ == (Step {
                events: seq![ChatStreamEventView::Done { request_id: request_id@ }],
                stop: true,
            }),
    {
        ChatStep::one(ChatStreamEvent::Done { request_id: request_id.to_string() }, true)
    }

    /// The line that ends the response with an error.
    pub fn failed(request_id: &str, message: &str) -> (r: ChatStep)
        ensures
            r@ == (Step {
                events: seq![
                    ChatStreamEventView::Error { request_id: request_id@, message: message@ },
                ],
                stop: true,
            }),
    {
        ChatStep::one(
            ChatStreamEvent::Error {
                request_id: request_id.to_string(),
                message: message.to_string(),
            },
            true,
        )
    }
}

/// What reading the complete lines of a text gives: the events in order, the
/// text left over, and whether the stream ended.
pub struct Run<E> {
    pub events: Seq<E>,
    pub rest: Seq<char>,
    pub stop: bool,
}

/// Reads the complete lines of `s` one after another, each without surrounding
/// white space, up to the line where the stream ends.
pub open spec fn run_lines<E>(step: spec_fn(Seq<char>) -> Step<E>, s: Seq<char>) -> Run<E>
    decreases s.len(),
{
    proof {
        lemma_leading(s, CharClass::AnyBut('\n'));
    }
    match cut_line(s) {
        None => Run { events: Seq::empty(), rest: s, stop: false },
        Some((line, rest)) => {
            let first = step(trim(line));
            if first.stop {
                Run { events: first.events, rest, stop: true }
            } else {
                let more = run_lines(step, rest);
                Run { events: first.events + more.events, rest: more.rest, stop: more.stop }
            }
        },
    }
}

/// All events of a response that arrives as `pieces`, where `pending` is left
/// over from before and `at_end` is what a response says that breaks off.
pub open spec fn transcript<E>(
    step: spec_fn(Seq<char>) -> Step<E>,
    pending: Seq<char>,
    pieces: Seq<Seq<char>>,
    at_end: Seq<E>,
) -> Seq<E>
    decreases pieces.len(),
{
    if pieces.len() == 0 {
        at_end
    } else {
        let run = run_lines(step, pending + pieces[0]);
        if run.stop {
            run.events
        } else {
            run.events + transcript(step, run.rest, pieces.drop_first(), at_end)
        }
    }
}

/// Whether a response of which `pieces` have arrived has given the events
/// `given`, with `rest` left over, or has stopped: then, whatever follows, these
/// are the events that it begins with, or all that it has.
pub open spec fn reads_to<E>(
    step: spec_fn(Seq<char>) -> Step<E>,
    pieces: Seq<Seq<char>>,
    given: Seq<E>,
    rest: Seq<char>,
    stopped: bool,
) -> bool {
    forall|more: Seq<Seq<char>>, at_end: Seq<E>| #[trigger]
        transcript(step, Seq::empty(), pieces + more, at_end) == if stopped {
            given
        } else {
            given + transcript(step, rest, more, at_end)
        }
}

/// Before anything has arrived, nothing is given.
pub proof fn lemma_reads_nothing<E>(step: spec_fn(Seq<char>) -> Step<E>)
    ensures
        reads_to(step, Seq::empty(), Seq::empty(), Seq::empty(), false),
{
    assert forall|more: Seq<Seq<char>>, at_end: Seq<E>| #[trigger]
        transcript(step, Seq::empty(), Seq::<Seq<char>>::empty() + more, at_end) == Seq::<
            E,
        >::empty() + transcript(step, Seq::empty(), more, at_end) by {
        assert(Seq::<Seq<char>>::empty() + more =~= more);
        assert(Seq::<E>::empty() + transcript(step, Seq::empty(), more, at_end) =~= transcript(
            step,
            Seq::empty(),
            more,
            at_end,
        ));
    }
}

/// What one more piece gives.
pub proof fn lemma_reads_on<E>(
    step: spec_fn(Seq<char>) -> Step<E>,
    pieces: Seq<Seq<char>>,
    given: Seq<E>,
    rest: Seq<char>,
    stopped: bool,
    piece: Seq<char>,
)
    requires
        reads_to(step, pieces, given, rest, stopped),
    ensures
        stopped ==> reads_to(step, pieces.push(piece), given, rest, true),
        !stopped ==> ({
            let run = run_lines(step, rest + piece);
            reads_to(step, pieces.push(piece), given + run.events, run.rest, run.stop)
        }),
{
    let run = run_lines(step, rest + piece);
    assert forall|more: Seq<Seq<char>>, at_end: Seq<E>| #[trigger]
        transcript(step, Seq::empty(), pieces.push(piece) + more, at_end) == if stopped {
            given
        } else if run.stop {
            given + run.events
        } else {
            given + run.events + transcript(step, run.rest, more, at_end)
        } by {
        let tail = seq![piece] + more;
        assert(pieces.push(piece) + more =~= pieces + tail);
        assert(tail.drop_first() =~= more);
        assert(transcript(step, Seq::empty(), pieces + tail, at_end) == if stopped {
            given
        } else {
            given + transcript(step, rest, tail, at_end)
        });
        assert(given + (run.events + transcript(step, run.rest, more, at_end)) =~= given
            + run.events + transcript(step, run.rest, more, at_end));
    }
}

/// All events of a response whose connection ends.
pub proof fn lemma_reads_all<E>(
    step: spec_fn(Seq<char>) -> Step<E>,
    pieces: Seq<Seq<char>>,
    given: Seq<E>,
    rest: Seq<char>,
    stopped: bool,
    at_end: Seq<E>,
)
    requires
        reads_to(step, pieces, given, rest, stopped),
    ensures
        transcript(step, Seq::empty(), pieces, at_end) == if stopped {
            given
        } else {
            given + at_end
        },
{
    assert(pieces + Seq::empty() =~= pieces);
    assert(transcript(step, Seq::empty(), pieces + Seq::empty(), at_end) == if stopped {
        given
    } else {
        given + transcript(step, rest, Seq::empty(), at_end)
    });
}

/// A text that is longer at the end has the same first line.
proof fn lemma_cut_line_append(s: Seq<char>, t: Seq<char>)
    ensures
        cut_line(s) matches Some((line, rest)) ==> cut_line(s + t) == Some((line, rest + t)),
{
    let class = CharClass::AnyBut('\n');
    lemma_leading(s, class);
    let n = leading(s, class) as int;
    if n < s.len() {
        assert((s + t)[n] == s[n]);
        assert forall|i: int| 0 <= i < n implies class.has(#[trigger] (s + t)[i]) by {
            assert((s + t)[i] == s[i]);
        }
        lemma_leading_is(s + t, class, n);
        assert((s + t).take(n) =~= s.take(n));
        assert((s + t).skip(n + 1) =~= s.skip(n + 1) + t);
    }
}

/// Text that arrives later is read as if it had been there from the start.
pub proof fn lemma_run_append<E>(
    step: spec_fn(Seq<char>) -> Step<E>,
    s: Seq<char>,
    t: Seq<char>,
)
    ensures
        ({
            let first = run_lines(step, s);
            let all = run_lines(step, s + t);
            if first.stop {
                all.stop && all.events == first.events
            } else {
                let second = run_lines(step, first.rest + t);
                all.events == first.events + second.events && all.rest == second.rest && all.stop
                    == second.stop
            }
        }),
    decreases s.len(),
{
    match cut_line(s) {
        None => {
            let run = run_lines(step, s + t);
            assert(Seq::<E>::empty() + run.events =~= run.events);
        },
        Some((line, rest)) => {
            lemma_leading(s, CharClass::AnyBut('\n'));
            lemma_cut_line_append(s, t);
            lemma_run_append(step, rest, t);
            let first = step(trim(line));
            if !first.stop {
                let a = run_lines(step, rest);
                let b = run_lines(step, rest + t);
                let c = run_lines(step, a.rest + t);
                if !a.stop {
                    assert(first.events + (a.events + c.events) =~= (first.events + a.events)
                        + c.events);
                }
            }
        },
    }
}

/// What is left over holds no complete line.
pub proof fn lemma_run_rest<E>(step: spec_fn(Seq<char>) -> Step<E>, s: Seq<char>)
    ensures
        !run_lines(step, s).stop ==> cut_line(run_lines(step, s).rest) is None,
    decreases s.len(),
{
    if let Some((line, rest)) = cut_line(s) {
        lemma_leading(s, CharClass::AnyBut('\n'));
        lemma_run_rest(step, rest);
    }
}

/// The pieces of a text put together again.
pub open spec fn whole(pieces: Seq<Seq<char>>) -> Seq<char>
    decreases pieces.len(),
{
    if pieces.len() == 0 {
        Seq::empty()
    } else {
        pieces[0] + whole(pieces.drop_first())
    }
}

/// The events of a response that arrives all at once.
proof fn lemma_one_piece<E>(
    step: spec_fn(Seq<char>) -> Step<E>,
    pending: Seq<char>,
    piece: Seq<char>,
    at_end: Seq<E>,
)
    ensures
        transcript(step, pending, seq![piece], at_end) == ({
            let run = run_lines(step, pending + piece);
            if run.stop {
                run.events
            } else {
                run.events + at_end
            }
        }),
{
    let run = run_lines(step, pending + piece);
    assert(seq![piece].drop_first() =~= Seq::empty());
    assert(transcript(step, run.rest, Seq::empty(), at_end) == at_end);
}

/// How a response is cut into pieces does not change the events it gives.
pub proof fn law_pieces_do_not_matter<E>(
    step: spec_fn(Seq<char>) -> Step<E>,
    pending: Seq<char>,
    pieces: Seq<Seq<char>>,
    at_end: Seq<E>,
)
    requires
        cut_line(pending) is None,
    ensures
        transcript(step, pending, pieces, at_end) == transcript(
            step,
            pending,
            seq![whole(pieces)],
            at_end,
        ),
    decreases pieces.len(),
{
    lemma_one_piece(step, pending, whole(pieces), at_end);
    if pieces.len() == 0 {
        assert(pending + whole(pieces) =~= pending);
        assert(Seq::<E>::empty() + at_end =~= at_end);
    } else {
        let tail = pieces.drop_first();
        let first = run_lines(step, pending + pieces[0]);
        assert(pending + whole(pieces) =~= (pending + pieces[0]) + whole(tail));
        lemma_run_append(step, pending + pieces[0], whole(tail));
        if !first.stop {
            lemma_run_rest(step, pending + pieces[0]);
            law_pieces_do_not_matter(step, first.rest, tail, at_end);
            lemma_one_piece(step, first.rest, whole(tail), at_end);
            let second = run_lines(step, first.rest + whole(tail));
            assert(first.events + (second.events + at_end) =~= (first.events + second.events)
                + at_end);
        }
    }
}

/// The events of a response keep to a form: each line that does not end it gives
/// events that satisfy `middle`, each line that does gives events that satisfy
/// `end`, and so do the events of a response that breaks off. Then, where the
/// form survives events before it, so do all events of the response.
pub proof fn lemma_transcript_form<E>(
    step: spec_fn(Seq<char>) -> Step<E>,
    middle: spec_fn(Seq<E>) -> bool,
    end: spec_fn(Seq<E>) -> bool,
    pending: Seq<char>,
    pieces: Seq<Seq<char>>,
    at_end: Seq<E>,
)
    requires
        middle(Seq::empty()),
        forall|line: Seq<char>|
            if (#[trigger] step(line)).stop {
                end(step(line).events)
            } else {
                middle(step(line).events)
            },
        forall|a: Seq<E>, b: Seq<E>| middle(a) && middle(b) ==> #[trigger] middle(a + b),
        forall|a: Seq<E>, b: Seq<E>| middle(a) && end(b) ==> #[trigger] end(a + b),
        end(at_end),
    ensures
        end(transcript(step, pending, pieces, at_end)),
    decreases pieces.len(),
{
    if pieces.len() > 0 {
        let run = run_lines(step, pending + pieces[0]);
        lemma_run_form(step, middle, end, pending + pieces[0]);
        if !run.stop {
            lemma_transcript_form(step, middle, end, run.rest, pieces.drop_first(), at_end);
        }
    }
}

proof fn lemma_run_form<E>(
    step: spec_fn(Seq<char>) -> Step<E>,
    middle: spec_fn(Seq<E>) -> bool,
    end: spec_fn(Seq<E>) -> bool,
    s: Seq<char>,
)
    requires
        middle(Seq::empty()),
        forall|line: Seq<char>|
            if (#[trigger] step(line)).stop {
                end(step(line).events)
            } else {
                middle(step(line).events)
            },
        forall|a: Seq<E>, b: Seq<E>| middle(a) && middle(b) ==> #[trigger] middle(a + b),
        forall|a: Seq<E>, b: Seq<E>| middle(a) && end(b) ==> #[trigger] end(a + b),
    ensures
        if run_lines(step, s).stop {
            end(run_lines(step, s).events)
        } else {
            middle(run_lines(step, s).events)
        },
    decreases s.len(),
{
    if let Some((line, rest)) = cut_line(s) {
        lemma_leading(s, CharClass::AnyBut('\n'));
        lemma_run_form(step, middle, end, rest);
        assert(step(trim(line)).stop || middle(step(trim(line)).events));
    }
}

/// How the lines of one response are read.
pub trait LineReader: Sized {
    /// What a line brings.
    type Event: DeepView;

    /// What a line means.
    spec fn step(&self) -> spec_fn(Seq<char>) -> Step<<Self::Event as DeepView>::V>;

    /// What a response says that breaks off.
    spec fn at_end(&self) -> Seq<<Self::Event as DeepView>::V>;

    /// Some reader, to stand in while a stream is taken apart.
    fn any() -> (r: Self);

    /// Reads a line: its events, and whether the response ends there.
    fn read(&self, line: &str) -> (r: (Vec<Self::Event>, bool))
        ensures
            r.0.deep_view() == (self.step())(line@).events,
            r.1 == (self.step())(line@).stop,
    ;

    /// The events of a response that breaks off.
    fn break_off(&self) -> (r: Vec<Self::Event>)
        ensures
            r.deep_view() == self.at_end(),
    ;
}

/// A response in the course of arriving.
pub struct EventStream<R: LineReader> {
    reader: R,
    buffer: LineBuffer,
    stopped: bool,
    /// The pieces of text that have arrived.
    pieces: Ghost<Seq<Seq<char>>>,
    /// The events that have been given.
    given: Ghost<Seq<<R::Event as DeepView>::V>>,
}

impl<R: LineReader> EventStream<R> {
    #[verifier::type_invariant]
    spec fn well_formed(self) -> bool {
        reads_to(self.reader.step(), self.pieces@, self.given@, self.buffer@, self.stopped)
    }

    /// How the lines are read.
    pub closed spec fn reader(self) -> R {
        self.reader
    }

    /// What has arrived of an unfinished line.
    pub closed spec fn pending(self) -> Seq<char> {
        self.buffer@
    }

    /// The pieces of text that have arrived.
    pub closed spec fn pieces_received(self) -> Seq<Seq<char>> {
        self.pieces@
    }

    /// The events that have been given.
    pub closed spec fn events_given(self) -> Seq<<R::Event as DeepView>::V> {
        self.given@
    }

    /// Whether the end has come, after which nothing is read.
    pub closed spec fn has_ended(self) -> bool {
        self.stopped
    }

    /// A response of which nothing has arrived.
    pub fn over(reader: R) -> (r: EventStream<R>)
        ensures
            r.reader() == reader,
            r.pending() == Seq::<char>::empty(),
            r.pieces_received() == Seq::<Seq<char>>::empty(),
            r.events_given() == Seq::<<R::Event as DeepView>::V>::empty(),
            !r.has_ended(),
    {
        let buffer: LineBuffer = LineBuffer::new();
        proof {
            lemma_reads_nothing(reader.step());
        }
        EventStream {
            reader,
            buffer,
            stopped: false,
            pieces: Ghost(Seq::empty()),
            given: Ghost(Seq::empty()),
        }
    }

    /// Whether the end has come, after which nothing is read.
    pub fn is_stopped(&self) -> (r: bool)
        ensures
            r == self.has_ended(),
    {
        self.stopped
    }

    /// Takes the next chunk and gives the events that it completes. What follows
    /// the end is not read.
    pub fn feed(&mut self, chunk: &[u8]) -> (r: Vec<R::Event>)
        ensures
            final(self).reader() == old(self).reader(),
            final(self).pieces_received() == old(self).pieces_received().push(lossy_text(chunk@)),
            final(self).events_given() == old(self).events_given() + r.deep_view(),
            if old(self).has_ended() {
                &&& r@.len() == 0
                &&& final(self).has_ended()
                &&& final(self).pending() == old(self).pending()
            } else {
                let run = run_lines(
                    old(self).reader().step(),
                    old(self).pending() + lossy_text(chunk@),
                );
                &&& r.deep_view() == run.events
                &&& final(self).pending() == run.rest
                &&& final(self).has_ended() == run.stop
                &&& decoded(chunk@)
            },
    {
        proof {
            use_type_invariant(&*self);
        }
        let ghost before = *self;
        let ghost piece = lossy_text(chunk@);
        let mut taken: EventStream<R> = EventStream::over(R::any());
        std::mem::swap(self, &mut taken);
        let EventStream { reader, mut buffer, stopped, pieces, given } = taken;
        let ghost step = reader.step();
        let mut events: Vec<R::Event> = Vec::new();
        let mut stopped: bool = stopped;
        proof {
            lemma_reads_on(
                step,
                before.pieces@,
                before.given@,
                before.buffer@,
                before.stopped,
                piece,
            );
        }
        if stopped {
            assert(given@ + events.deep_view() =~= given@);
        } else {
            buffer.push_chunk(chunk);
            let ghost all = run_lines(step, buffer@);
            assert(events.deep_view() + all.events =~= all.events);
            while !stopped
                invariant
                    step == reader.step(),
                    stopped ==> {
                        &&& all.stop
                        &&& all.events == events.deep_view()
                        &&& all.rest == buffer@
                    },
                    !stopped ==> {
                        let run = run_lines(step, buffer@);
                        &&& all.events == events.deep_view() + run.events
                        &&& all.rest == run.rest
                        &&& all.stop == run.stop
                    },
                ensures
                    all.events == events.deep_view(),
                    all.rest == buffer@,
                    all.stop == stopped,
                decreases
                        buffer@.len(),
                        if stopped {
                            0nat
                        } else {
                            1nat
                        },
            {
                let ghost so_far = events.deep_view();
                proof {
                    lemma_leading(buffer@, CharClass::AnyBut('\n'));
                }
                match buffer.next_line() {
                    None => {
                        assert(so_far + Seq::empty() =~= so_far);
                        break;
                    },
                    Some(line) => {
                        let (mut found, stop) = reader.read(line.as_str());
                        let ghost first = found.deep_view();
                        events.append(&mut found);
                        assert(events.deep_view() =~= so_far + first);
                        stopped = stop;
                        proof {
                            let run = run_lines(step, buffer@);
                            assert(so_far + (first + run.events) =~= (so_far + first)
                                + run.events);
                        }
                    },
                }
            }
        }
        *self =
        EventStream {
            reader,
            buffer,
            stopped,
            pieces: Ghost(pieces@.push(piece)),
            given: Ghost(given@ + events.deep_view()),
        };
        events
    }

    /// The events of a response whose connection ends. With them the events given
    /// are all those of the pieces that arrived.
    pub fn finish(self) -> (r: Vec<R::Event>)
        ensures
            r.deep_view() == if self.has_ended() {
                Seq::empty()
            } else {
                self.reader().at_end()
            },
            self.events_given() + r.deep_view() == transcript(
                self.reader().step(),
                Seq::empty(),
                self.pieces_received(),
                self.reader().at_end(),
            ),
    {
        proof {
            use_type_invariant(&self);
            lemma_reads_all(
                self.reader.step(),
                self.pieces@,
                self.given@,
                self.buffer@,
                self.stopped,
                self.reader.at_end(),
            );
        }
        if self.stopped {
            let r: Vec<R::Event> = Vec::new();
            assert(r.deep_view() =~= Seq::empty());
            assert(self.given@ + r.deep_view() =~= self.given@);
            r
        } else {
            self.reader.break_off()
        }
    }
}

/// A line ends at its line feed, which is part of no line, and text without one is
/// no line yet.
pub proof fn law_lines_end_at_line_feeds(line: Seq<char>, rest: Seq<char>)
    requires
        !line.contains('\n'),
    ensures
        cut_line(line.push('\n') + rest) == Some((line, rest)),
        cut_line(line) is None,
{
    let class = CharClass::AnyBut('\n');
    let all = line.push('\n') + rest;
    let n = line.len() as int;
    assert forall|i: int| 0 <= i < n implies class.has(#[trigger] line[i]) by {
        assert(line.contains(line[i]));
    }
    assert forall|i: int| 0 <= i < n implies class.has(#[trigger] all[i]) by {
        assert(all[i] == line[i]);
    }
    assert(all[n] == '\n');
    lemma_leading_is(all, class, n);
    lemma_leading_is(line, class, n);
    assert(all.take(n) =~= line);
    assert(all.skip(n + 1) =~= rest);
}

/// A response is read line by line, in order and each line once, up to the line
/// that ends it: its first line gives its events, then the rest gives its own. A
/// line that has not ended is not read.
pub proof fn law_lines_are_read_one_by_one<E>(
    step: spec_fn(Seq<char>) -> Step<E>,
    line: Seq<char>,
    rest: Seq<char>,
    at_end: Seq<E>,
)
    requires
        !line.contains('\n'),
    ensures
        transcript(step, Seq::empty(), seq![line.push('\n') + rest], at_end) == ({
            let first = step(trim(line));
            if first.stop {
                first.events
            } else {
                first.events + transcript(step, Seq::empty(), seq![rest], at_end)
            }
        }),
        transcript(step, Seq::empty(), seq![line], at_end) == at_end,
        transcript(step, Seq::empty(), Seq::empty(), at_end) == at_end,
{
    let none = Seq::<char>::empty();
    let all = line.push('\n') + rest;
    law_lines_end_at_line_feeds(line, rest);
    lemma_one_piece(step, none, all, at_end);
    lemma_one_piece(step, none, rest, at_end);
    lemma_one_piece(step, none, line, at_end);
    assert(none + all =~= all);
    assert(none + rest =~= rest);
    assert(none + line =~= line);
    let first = step(trim(line));
    let more = run_lines(step, rest);
    assert(first.events + (more.events + at_end) =~= (first.events + more.events) + at_end);
    assert(Seq::<E>::empty() + at_end =~= at_end);
}

/// What the events say to the user: the pieces of the answer put together.
pub open spec fn answer_in(events: Seq<ChatStreamEventView>) -> Seq<char>
    decreases events.len(),
{
    if events.len() == 0 {
        Seq::empty()
    } else {
        let rest = answer_in(events.drop_first());
        match events[0] {
            ChatStreamEventView::Token { content, .. } => content + rest,
            _ => rest,
        }
    }
}

/// Events one after the other say what the first say and then what the others do.
pub proof fn lemma_answer_add(a: Seq<ChatStreamEventView>, b: Seq<ChatStreamEventView>)
    ensures
        answer_in(a + b) == answer_in(a) + answer_in(b),
    decreases a.len(),
{
    if a.len() == 0 {
        assert(a + b =~= b);
        assert(answer_in(a) + answer_in(b) =~= answer_in(b));
    } else {
        let rest = a.drop_first();
        lemma_answer_add(rest, b);
        assert((a + b).drop_first() =~= rest + b);
        if let ChatStreamEventView::Token { content, .. } = a[0] {
            assert(content + (answer_in(rest) + answer_in(b)) =~= content + answer_in(rest)
                + answer_in(b));
        }
    }
}

} // verus!
