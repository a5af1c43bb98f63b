//! Model downloads, whose progress the engine streams one JSON object on a line.
use vstd::prelude::*;

use crate::engines::stream::{
    law_lines_are_read_one_by_one, law_pieces_do_not_matter, lemma_transcript_form, transcript,
    whole, EventStream, LineReader, Step,
};
use crate::engines::{PullProgressEvent, PullProgressEventView};
use crate::json::{json_of_text, parse_json, Json, JsonTree};
use crate::text::{text_eq, trim};

verus! {

/// What a download says that ends before the engine reports success.
pub const INTERRUPTED: &'static str = "ダウンロードが完了前に中断されました（接続が切れた可能性があります）";

/// The body of the request that downloads a model.
#[derive(Debug)]
pub struct PullRequest {
    pub name: String,
    pub stream: bool,
}

/// The request that downloads a model and streams its progress.
pub fn pull_request(model: &str) -> (r: PullRequest)
    ensures
        r.name@ == model@,
        r.stream,
{
    PullRequest { name: model.to_string(), stream: true }
}

/// The executable form of a [`Step`] of a download.
#[derive(Debug)]
pub struct PullStep {
    pub events: Vec<PullProgressEvent>,
    pub stop: bool,
}

impl View for PullStep {
    type V = Step<PullProgressEventView>;

    open spec fn view(&self) -> Step<PullProgressEventView> {
        Step { events: self.events.deep_view(), stop: self.stop }
    }
}

/// What one report means: an error ends the download, and so does success.
pub open spec fn report_step(model: Seq<char>, value: JsonTree) -> Step<PullProgressEventView> {
    match value.text_field("error"@) {
        Some(message) => Step {
            events: seq![PullProgressEventView::Error { model, message }],
            stop: true,
        },
        None => {
            let status = match value.text_field("status"@) {
                Some(status) => status,
                None => Seq::empty(),
            };
            let progress = PullProgressEventView::Progress {
                model,
                status,
                completed: value.number_field("completed"@),
                total: value.number_field("total"@),
            };
            if status == "success"@ {
                Step { events: seq![progress, PullProgressEventView::Done { model }], stop: true }
            } else {
                Step { events: seq![progress], stop: false }
            }
        },
    }
}

/// What a line means. One that is blank or no JSON means nothing.
pub open spec fn pull_line_step(model: Seq<char>, line: Seq<char>) -> Step<PullProgressEventView> {
    if line.len() == 0 {
        Step { events: Seq::empty(), stop: false }
    } else {
        match json_of_text(line) {
            Ok(value) => report_step(model, value),
            Err(_) => Step { events: Seq::empty(), stop: false },
        }
    }
}

/// [`pull_line_step`] of one download.
pub open spec fn pull_reader(model: Seq<char>) -> spec_fn(Seq<char>) -> Step<
    PullProgressEventView,
> {
    |line: Seq<char>| pull_line_step(model, line)
}

/// All events of a download whose reports arrive as `pieces` of text.
pub open spec fn pull_events(model: Seq<char>, pieces: Seq<Seq<char>>) -> Seq<
    PullProgressEventView,
> {
    transcript(
        pull_reader(model),
        Seq::empty(),
        pieces,
        seq![PullProgressEventView::Error { model, message: INTERRUPTED@ }],
    )
}

/// Reads one report.
pub fn read_report(model: &str, value: &Json) -> (r: PullStep)
    ensures
        r@ == report_step(model@, value.tree()),
{
    let mut events: Vec<PullProgressEvent> = Vec::new();
    if let Some(message) = value.text_field("error") {
        events.push(
            PullProgressEvent::Error { model: model.to_string(), message: message.to_string() },
        );
        assert(events.deep_view() =~= seq![events@[0]@]);
        return PullStep { events, stop: true };
    }
    let status: &str = match value.text_field("status") {
        Some(status) => status,
        None => {
            proof {
                reveal_strlit("");
            }
            assert(""@ =~= Seq::<char>::empty());
            ""
        },
    };
    events.push(
        PullProgressEvent::Progress {
            model: model.to_string(),
            status: status.to_string(),
            completed: value.number_field("completed"),
            total: value.number_field("total"),
        },
    );
    if text_eq(status, "success") {
        events.push(PullProgressEvent::Done { model: model.to_string() });
        assert(events.deep_view() =~= seq![events@[0]@, events@[1]@]);
        PullStep { events, stop: true }
    } else {
        assert(events.deep_view() =~= seq![events@[0]@]);
        PullStep { events, stop: false }
    }
}

/// Reads one line of the stream.
pub fn read_pull_line(model: &str, line: &str) -> (r: PullStep)
    ensures
        r@ == pull_line_step(model@, line@),
{
    if !line.is_empty() {
        if let Ok(value) = parse_json(line) {
            return read_report(model, &value);
        }
    }
    let r = PullStep { events: Vec::new(), stop: false };
    assert(r.events.deep_view() =~= Seq::empty());
    r
}

/// How the reports of one download are read.
pub struct PullReader {
    pub model: String,
}

impl LineReader for PullReader {
    type Event = PullProgressEvent;

    open spec fn step(&self) -> spec_fn(Seq<char>) -> Step<PullProgressEventView> {
        pull_reader(self.model@)
    }

    open spec fn at_end(&self) -> Seq<PullProgressEventView> {
        seq![PullProgressEventView::Error { model: self.model@, message: INTERRUPTED@ }]
    }

    fn any() -> (r: PullReader) {
        PullReader { model: String::new() }
    }

    fn read(&self, line: &str) -> (r: (Vec<PullProgressEvent>, bool)) {
        let step: PullStep = read_pull_line(self.model.as_str(), line);
        (step.events, step.stop)
    }

    /// One that has not ended is interrupted, which is not the same as finished.
    fn break_off(&self) -> (r: Vec<PullProgressEvent>) {
        let mut r: Vec<PullProgressEvent> = Vec::new();
        r.push(pull_failed(self.model.as_str(), INTERRUPTED));
        assert(r.deep_view() =~= self.at_end());
        r
    }
}

/// A download in the course of being reported.
pub type PullStream = EventStream<PullReader>;

impl EventStream<PullReader> {
    /// A download of which nothing has been reported.
    pub fn new(model: &str) -> (r: PullStream)
        ensures
            r.reader().model@ == model@,
            r.pending() == Seq::<char>::empty(),
            r.pieces_received() == Seq::<Seq<char>>::empty(),
            r.events_given() == Seq::<PullProgressEventView>::empty(),
            !r.has_ended(),
    {
        EventStream::over(PullReader { model: model.to_string() })
    }
}

/// What a stream gives in all is the download that was reported.
pub proof fn law_stream_gives_the_download(reader: PullReader, pieces: Seq<Seq<char>>)
    ensures
        transcript(reader.step(), Seq::empty(), pieces, reader.at_end()) == pull_events(
            reader.model@,
            pieces,
        ),
{
}

/// The event for a download that fails for the given reason.
pub fn pull_failed(model: &str, reason: &str) -> (r: PullProgressEvent)
    ensures
        r@ == (PullProgressEventView::Error { model: model@, message: reason@ }),
{
    PullProgressEvent::Error { model: model.to_string(), message: reason.to_string() }
}

/// The event for a download that the engine refuses.
pub fn pull_rejected(model: &str, status: &str, text: &str) -> (r: PullProgressEvent)
    ensures
        r@ == (PullProgressEventView::Error {
            model: model@,
            message: status@ + ": "@ + text@,
        }),
{
    PullProgressEvent::Error {
        model: model.to_string(),
        message: status.to_string().concat(": ").concat(text),
    }
}

/// Whether an event reports that the engine succeeded.
pub open spec fn is_success(event: PullProgressEventView) -> bool {
    event is Progress && event->status == "success"@
}

/// Whether every event reports progress on `model` short of success.
pub open spec fn all_progress(model: Seq<char>, events: Seq<PullProgressEventView>) -> bool {
    forall|i: int|
        0 <= i < events.len() ==> (#[trigger] events[i]).subject() == model && events[i] is Progress
            && !is_success(events[i])
}

/// Whether the events are progress on `model`, then either an error or success
/// and completion.
pub open spec fn pull_ends_once(model: Seq<char>, events: Seq<PullProgressEventView>) -> bool {
    ||| {
        &&& events.len() >= 1
        &&& all_progress(model, events.drop_last())
        &&& events.last() is Error
        &&& events.last().subject() == model
    }
    ||| {
        &&& events.len() >= 2
        &&& all_progress(model, events.drop_last().drop_last())
        &&& is_success(events[events.len() - 2])
        &&& events[events.len() - 2].subject() == model
        &&& events.last() == (PullProgressEventView::Done { model })
    }
}

/// Whatever the engine sends, a download ends exactly once, and as done exactly
/// where the engine reported success: progress, then an error, or the report of
/// success and completion.
pub proof fn law_pull_ends_once(model: Seq<char>, pieces: Seq<Seq<char>>)
    ensures
        pull_ends_once(model, pull_events(model, pieces)),
{
    let middle = |events: Seq<PullProgressEventView>| all_progress(model, events);
    let end = |events: Seq<PullProgressEventView>| pull_ends_once(model, events);
    assert forall|a: Seq<PullProgressEventView>, b: Seq<PullProgressEventView>|
        middle(a) && end(b) implies #[trigger] end(a + b) by {
        assert((a + b).drop_last() =~= a + b.drop_last());
        assert((a + b).last() == b.last());
        if b.len() >= 2 {
            assert((a + b).drop_last().drop_last() =~= a + b.drop_last().drop_last());
            assert((a + b)[(a + b).len() - 2] == b[b.len() - 2]);
        }
    }
    lemma_transcript_form(
        pull_reader(model),
        middle,
        end,
        Seq::empty(),
        pieces,
        seq![PullProgressEventView::Error { model, message: INTERRUPTED@ }],
    );
}

/// Two downloads that bring the same text give the same events, however the text
/// is cut into pieces.
pub proof fn law_report_pieces_do_not_matter(
    model: Seq<char>,
    a: Seq<Seq<char>>,
    b: Seq<Seq<char>>,
)
    requires
        whole(a) == whole(b),
    ensures
        pull_events(model, a) == pull_events(model, b),
{
    let at_end = seq![PullProgressEventView::Error { model, message: INTERRUPTED@ }];
    law_pieces_do_not_matter(pull_reader(model), Seq::empty(), a, at_end);
    law_pieces_do_not_matter(pull_reader(model), Seq::empty(), b, at_end);
}

/// A report reaches the user as the engine wrote it: its status and how much of how
/// much has arrived. Only the report of success completes the download.
pub proof fn law_reports_arrive_as_sent(
    model: Seq<char>,
    value: JsonTree,
    status: Seq<char>,
    amount: u64,
)
    requires
        !(value.get("error"@) matches Some(JsonTree::Text(_))),
    ensures
        ({
            let step = report_step(model, value);
            let progress = step.events[0];
            &&& step.events.len() >= 1
            &&& progress is Progress
            &&& progress.subject() == model
            &&& value.get("status"@) == Some(JsonTree::Text(status)) ==> progress->status == status
            &&& !(value.get("status"@) matches Some(JsonTree::Text(_))) ==> progress->status.len()
                == 0
            &&& value.get("completed"@) == Some(JsonTree::Number(Some(amount)))
                <==> progress->completed == Some(amount)
            &&& value.get("total"@) == Some(JsonTree::Number(Some(amount))) <==> progress->total
                == Some(amount)
            &&& step.stop <==> value.get("status"@) == Some(JsonTree::Text("success"@))
            &&& step.stop ==> step.events.len() == 2 && step.events[1]
                == (PullProgressEventView::Done { model })
            &&& !step.stop ==> step.events.len() == 1
        }),
{
    reveal_strlit("success");
}

/// An error that the engine reports ends the download, in the engine's own words.
pub proof fn law_errors_end_the_download(model: Seq<char>, value: JsonTree, message: Seq<char>)
    requires
        value.get("error"@) == Some(JsonTree::Text(message)),
    ensures
        report_step(model, value).stop,
        report_step(model, value).events == seq![PullProgressEventView::Error { model, message }],
{
}

/// The reports are read line by line, each once and in order, up to the one that
/// ends the download. A line that is no JSON is passed over, and a download that
/// breaks off is interrupted.
pub proof fn law_every_report_is_read(model: Seq<char>, line: Seq<char>, rest: Seq<char>)
    requires
        !line.contains('\n'),
        trim(line).len() > 0,
    ensures
        pull_events(model, seq![line.push('\n') + rest]) == match json_of_text(trim(line)) {
            Ok(value) => if report_step(model, value).stop {
                report_step(model, value).events
            } else {
                report_step(model, value).events + pull_events(model, seq![rest])
            },
            Err(_) => pull_events(model, seq![rest]),
        },
        pull_events(model, seq![line]) == seq![
            PullProgressEventView::Error {
                model,
                message: "ダウンロードが完了前に中断されました（接続が切れた可能性があります）"@,
            },
        ],
{
    let at_end = seq![PullProgressEventView::Error { model, message: INTERRUPTED@ }];
    law_lines_are_read_one_by_one(pull_reader(model), line, rest, at_end);
    assert(Seq::<PullProgressEventView>::empty() + pull_events(model, seq![rest]) =~= pull_events(
        model,
        seq![rest],
    ));
}

} // verus!
