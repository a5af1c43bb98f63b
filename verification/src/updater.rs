//! Updating the engine through the system's package manager. Nothing here
//! downloads or runs an installer, and nothing happens unasked.
use vstd::prelude::*;

use crate::engines::stream::{decode_lossy, decoded, lossy_text};
use crate::json::{Json, JsonTree};
use crate::outcome::outcome;
use crate::text::{
    chars_of, is_blank, law_only_blank_texts_vanish, leading_end, lemma_leading_is, lemma_trim,
    signed_decimal, signed_decimal_text, skip_leading, string_of, text_eq, trim, trimmed, CharClass,
};

verus! {

/// Where the user can get the engine when no package manager can.
pub const DOWNLOAD_PAGE_URL: &'static str = "https://ollama.com/download";

/// Where the newest release is looked up.
pub const LATEST_RELEASE_URL: &'static str = "https://api.github.com/repos/ollama/ollama/releases/latest";

/// How this program introduces itself there.
pub const USER_AGENT: &'static str = "LocalAgentsOps";

#[derive(Debug, Clone, Copy, PartialEq, Eq, Structural)]
pub enum PackageManager {
    Winget,
    Homebrew,
}

impl PackageManager {
    /// The arguments of an upgrade, none of which lets it stop for a question.
    pub open spec fn upgrade_words(self) -> Seq<Seq<char>> {
        match self {
            PackageManager::Winget => seq![
                "upgrade"@,
                "--id"@,
                "Ollama.Ollama"@,
                "--exact"@,
                "--accept-source-agreements"@,
                "--accept-package-agreements"@,
                "--disable-interactivity"@,
            ],
            PackageManager::Homebrew => seq!["upgrade"@, "ollama"@],
        }
    }

    /// The name shown to the user.
    pub open spec fn shown(self) -> Seq<char> {
        match self {
            PackageManager::Winget => "winget"@,
            PackageManager::Homebrew => "Homebrew"@,
        }
    }

    /// The program to run.
    pub fn program(self) -> (r: &'static str)
        ensures
            r@ == match self {
                PackageManager::Winget => "winget"@,
                PackageManager::Homebrew => "brew"@,
            },
    {
        match self {
            PackageManager::Winget => "winget",
            PackageManager::Homebrew => "brew",
        }
    }

    /// The arguments of an upgrade.
    pub fn upgrade_args(self) -> (r: Vec<&'static str>)
        ensures
            r.deep_view() == self.upgrade_words(),
    {
        let mut r: Vec<&'static str> = Vec::new();
        match self {
            PackageManager::Winget => {
                r.push("upgrade");
                r.push("--id");
                r.push("Ollama.Ollama");
                r.push("--exact");
                r.push("--accept-source-agreements");
                r.push("--accept-package-agreements");
                r.push("--disable-interactivity");
            },
            PackageManager::Homebrew => {
                r.push("upgrade");
                r.push("ollama");
            },
        }
        assert(r.deep_view() =~= self.upgrade_words());
        r
    }

    /// The name shown to the user.
    pub fn label(self) -> (r: &'static str)
        ensures
            r@ == self.shown(),
    {
        match self {
            PackageManager::Winget => "winget",
            PackageManager::Homebrew => "Homebrew",
        }
    }
}

/// A line of an upgrade's output, or its end.
#[derive(Debug)]
pub enum UpdateProgressEvent {
    Line { text: String },
    Done { success: bool, message: String },
}

/// What an [`UpdateProgressEvent`] says.
pub enum UpdateProgressEventView {
    Line { text: Seq<char> },
    Done { success: bool, message: Seq<char> },
}

impl View for UpdateProgressEvent {
    type V = UpdateProgressEventView;

    open spec fn view(&self) -> UpdateProgressEventView {
        match self {
            UpdateProgressEvent::Line { text } => UpdateProgressEventView::Line { text: text@ },
            UpdateProgressEvent::Done { success, message } => UpdateProgressEventView::Done {
                success: *success,
                message: message@,
            },
        }
    }
}

impl DeepView for UpdateProgressEvent {
    type V = UpdateProgressEventView;

    open spec fn deep_view(&self) -> UpdateProgressEventView {
        self@
    }
}

/// What the release service had to say.
pub enum ReleaseReply {
    /// It could not be reached, for the reason given.
    Unreachable(String),
    /// It answered with this status, which is no success.
    Refused(String),
    /// Its answer is no JSON, for the reason given.
    Unreadable(String),
    /// Its answer.
    Read(Json),
}

/// The newest published release according to the service's answer, without a
/// leading `v`.
pub open spec fn release_of(value: JsonTree) -> Result<Seq<char>, Seq<char>> {
    match value.text_field("tag_name"@) {
        Some(tag) => Ok(skip_leading(tag, CharClass::Just('v'))),
        None => Err("リリース情報に tag_name がありません"@),
    }
}

/// The newest published release, or why it is not known.
pub fn latest_release(reply: &ReleaseReply) -> (r: Result<String, String>)
    ensures
        outcome(r) == match reply {
            ReleaseReply::Unreachable(reason) => Err(
                "リリース情報を取得できませんでした: "@ + reason@,
            ),
            ReleaseReply::Refused(status) => Err(
                "リリース情報の取得に失敗しました: "@ + status@,
            ),
            ReleaseReply::Unreadable(reason) => Err(
                "リリース情報を解釈できませんでした: "@ + reason@,
            ),
            ReleaseReply::Read(value) => release_of(value.tree()),
        },
{
    match reply {
        ReleaseReply::Unreachable(reason) => Err(
            "リリース情報を取得できませんでした: ".to_string().concat(reason.as_str()),
        ),
        ReleaseReply::Refused(status) => Err(
            "リリース情報の取得に失敗しました: ".to_string().concat(status.as_str()),
        ),
        ReleaseReply::Unreadable(reason) => Err(
            "リリース情報を解釈できませんでした: ".to_string().concat(reason.as_str()),
        ),
        ReleaseReply::Read(value) => match value.text_field("tag_name") {
            Some(tag) => {
                let chars: Vec<char> = chars_of(tag);
                assert(chars@.skip(0) =~= chars@);
                let at: usize = leading_end(chars.as_slice(), 0, CharClass::Just('v'));
                let rest = vstd::slice::slice_subrange(chars.as_slice(), at, chars.len());
                assert(rest@ =~= skip_leading(tag@, CharClass::Just('v')));
                Ok(string_of(rest))
            },
            None => Err("リリース情報に tag_name がありません".to_string()),
        },
    }
}

/// The package manager that a system would have.
pub open spec fn usual_manager(os: Seq<char>) -> Option<PackageManager> {
    if os == "windows"@ {
        Some(PackageManager::Winget)
    } else if os == "macos"@ {
        Some(PackageManager::Homebrew)
    } else {
        None
    }
}

/// The package manager to try on a system.
pub fn candidate_manager(os: &str) -> (r: Option<PackageManager>)
    ensures
        r == usual_manager(os@),
{
    if text_eq(os, "windows") {
        Some(PackageManager::Winget)
    } else if text_eq(os, "macos") {
        Some(PackageManager::Homebrew)
    } else {
        None
    }
}

/// The package manager that can do an upgrade: the system's, where asking it for
/// its version succeeded.
pub fn detect_package_manager(os: &str, version_ran: bool) -> (r: Option<PackageManager>)
    ensures
        r == if version_ran {
            usual_manager(os@)
        } else {
            None
        },
{
    if version_ran {
        candidate_manager(os)
    } else {
        None
    }
}

/// How an upgrade came to its end.
pub enum UpgradeEnd {
    /// The program could not be started, for the reason given.
    NotStarted(String),
    Succeeded,
    /// The program failed with this exit code, having written this to its error
    /// output.
    Failed { code: Option<i32>, stderr: String },
    /// The program could not be waited for, for the reason given.
    Lost(String),
}

/// Why an upgrade failed: the program's own words, or its exit code where it
/// said nothing.
pub open spec fn failure_detail(code: Option<i32>, stderr: Seq<char>) -> Seq<char> {
    if trim(stderr).len() == 0 {
        "終了コード "@ + signed_decimal(
            match code {
                Some(code) => code as int,
                None => -1,
            },
        )
    } else {
        trim(stderr)
    }
}

/// The last event of an upgrade.
pub open spec fn end_event(manager: PackageManager, end: UpgradeEnd) -> UpdateProgressEventView {
    match end {
        UpgradeEnd::NotStarted(reason) => UpdateProgressEventView::Done {
            success: false,
            message: manager.shown() + " を起動できませんでした: "@ + reason@,
        },
        UpgradeEnd::Succeeded => UpdateProgressEventView::Done {
            success: true,
            message: "更新が完了しました。Ollamaの再起動が必要な場合があります。"@,
        },
        UpgradeEnd::Failed { code, stderr } => UpdateProgressEventView::Done {
            success: false,
            message: manager.shown() + " が更新を完了できませんでした: "@ + failure_detail(
                code,
                stderr@,
            ),
        },
        UpgradeEnd::Lost(reason) => UpdateProgressEventView::Done {
            success: false,
            message: "更新プロセスの終了を待てませんでした: "@ + reason@,
        },
    }
}

/// The last event of an upgrade.
pub fn upgrade_ended(manager: PackageManager, end: &UpgradeEnd) -> (r: UpdateProgressEvent)
    ensures
        r@ == end_event(manager, *end),
{
    match end {
        UpgradeEnd::NotStarted(reason) => UpdateProgressEvent::Done {
            success: false,
            message: manager.label().to_string().concat(" を起動できませんでした: ").concat(
                reason.as_str(),
            ),
        },
        UpgradeEnd::Succeeded => UpdateProgressEvent::Done {
            success: true,
            message: "更新が完了しました。Ollamaの再起動が必要な場合があります。".to_string(),
        },
        UpgradeEnd::Failed { code, stderr } => {
            let said: String = trimmed(stderr.as_str());
            let detail: String = if said.as_str().is_empty() {
                let number: i32 = match code {
                    Some(code) => *code,
                    None => -1,
                };
                "終了コード ".to_string().concat(signed_decimal_text(number).as_str())
            } else {
                said
            };
            UpdateProgressEvent::Done {
                success: false,
                message: manager.label().to_string().concat(
                    " が更新を完了できませんでした: ",
                ).concat(detail.as_str()),
            }
        },
        UpgradeEnd::Lost(reason) => UpdateProgressEvent::Done {
            success: false,
            message: "更新プロセスの終了を待てませんでした: ".to_string().concat(
                reason.as_str(),
            ),
        },
    }
}

/// Whether a byte ends a line of output. A carriage return does: progress bars
/// are redrawn with it.
pub open spec fn is_break(b: u8) -> bool {
    b == 10 || b == 13
}

/// How many bytes stand before the first line break.
pub open spec fn before_break(bytes: Seq<u8>) -> nat
    decreases bytes.len(),
{
    if bytes.len() == 0 || is_break(bytes[0]) {
        0
    } else {
        1 + before_break(bytes.drop_first())
    }
}

/// What [`before_break`] counts.
pub proof fn lemma_before_break(bytes: Seq<u8>)
    ensures
        before_break(bytes) <= bytes.len(),
        forall|i: int| 0 <= i < before_break(bytes) ==> !is_break(#[trigger] bytes[i]),
        before_break(bytes) < bytes.len() ==> is_break(bytes[before_break(bytes) as int]),
    decreases bytes.len(),
{
    if bytes.len() > 0 && !is_break(bytes[0]) {
        let rest = bytes.drop_first();
        lemma_before_break(rest);
        assert forall|i: int| 0 <= i < before_break(bytes) implies !is_break(
            #[trigger] bytes[i],
        ) by {
            if i > 0 {
                assert(bytes[i] == rest[i - 1]);
            }
        }
        if before_break(bytes) < bytes.len() {
            assert(bytes[before_break(bytes) as int] == rest[before_break(rest) as int]);
        }
    }
}

/// The bytes before the first line break, where there is one, are counted.
proof fn lemma_before_break_is(bytes: Seq<u8>, n: int)
    requires
        0 <= n <= bytes.len(),
        forall|i: int| 0 <= i < n ==> !is_break(#[trigger] bytes[i]),
        n < bytes.len() ==> is_break(bytes[n]),
    ensures
        before_break(bytes) == n,
{
    lemma_before_break(bytes);
    let k = before_break(bytes) as int;
    if k < n {
        assert(!is_break(bytes[k]));
    } else if n < k {
        assert(!is_break(bytes[n]));
    }
}

/// The bytes of the complete lines, without their breaks.
pub open spec fn broken_lines(bytes: Seq<u8>) -> Seq<Seq<u8>>
    decreases bytes.len(),
{
    proof {
        lemma_before_break(bytes);
    }
    let n = before_break(bytes) as int;
    if n >= bytes.len() {
        Seq::empty()
    } else {
        seq![bytes.take(n)] + broken_lines(bytes.skip(n + 1))
    }
}

/// Output in the course of being read: the bytes of an unfinished line, and the
/// line that was last forwarded.
pub struct OutputState {
    pub pending: Seq<u8>,
    pub last: Seq<char>,
}

/// Whether a line is worth forwarding: it is not blank and says something new.
pub open spec fn is_news(line: Seq<char>, last: Seq<char>) -> bool {
    line.len() > 0 && line != last
}

/// The lines that the complete lines of output forward, and the state after. The
/// break itself is white space, and so no part of a line.
pub open spec fn run_output(state: OutputState) -> (Seq<Seq<char>>, OutputState)
    decreases state.pending.len(),
{
    proof {
        lemma_before_break(state.pending);
    }
    let n = before_break(state.pending) as int;
    if n >= state.pending.len() {
        (Seq::empty(), state)
    } else {
        let line = trim(lossy_text(state.pending.take(n)));
        let rest = state.pending.skip(n + 1);
        if is_news(line, state.last) {
            let (lines, after) = run_output(OutputState { pending: rest, last: line });
            (seq![line] + lines, after)
        } else {
            run_output(OutputState { pending: rest, last: state.last })
        }
    }
}

/// The line that the output ends with, where it is worth forwarding.
pub open spec fn last_line(state: OutputState) -> Seq<Seq<char>> {
    let tail = trim(lossy_text(state.pending));
    if is_news(tail, state.last) {
        seq![tail]
    } else {
        Seq::empty()
    }
}

/// All lines forwarded of an output that arrives in `chunks`.
pub open spec fn output_lines(state: OutputState, chunks: Seq<Seq<u8>>) -> Seq<Seq<char>>
    decreases chunks.len(),
{
    if chunks.len() == 0 {
        last_line(state)
    } else {
        let (lines, after) = run_output(
            OutputState { pending: state.pending + chunks[0], last: state.last },
        );
        lines + output_lines(after, chunks.drop_first())
    }
}

/// The lines as events.
pub open spec fn line_events(lines: Seq<Seq<char>>) -> Seq<UpdateProgressEventView> {
    lines.map_values(|text: Seq<char>| UpdateProgressEventView::Line { text })
}

/// Whether a text is one line: not blank, without white space around it, and
/// without a line break in it.
pub open spec fn is_one_line(text: Seq<char>) -> bool {
    &&& text.len() > 0
    &&& trim(text) == text
    &&& !text.contains('\n')
    &&& !text.contains('\r')
}

/// Output of which nothing has arrived.
pub open spec fn no_output() -> OutputState {
    OutputState { pending: Seq::empty(), last: Seq::empty() }
}

/// Whether output that arrived in `chunks` has forwarded `lines` and come to
/// `state`: then, whatever follows, these are the lines that it begins with.
spec fn output_reads_to(
    chunks: Seq<Seq<u8>>,
    lines: Seq<Seq<char>>,
    state: OutputState,
) -> bool {
    forall|more: Seq<Seq<u8>>| #[trigger]
        output_lines(no_output(), chunks + more) == lines + output_lines(state, more)
}

proof fn lemma_output_reads_on(
    chunks: Seq<Seq<u8>>,
    lines: Seq<Seq<char>>,
    state: OutputState,
    chunk: Seq<u8>,
)
    requires
        output_reads_to(chunks, lines, state),
    ensures
        ({
            let (found, after) = run_output(
                OutputState { pending: state.pending + chunk, last: state.last },
            );
            output_reads_to(chunks.push(chunk), lines + found, after)
        }),
{
    let (found, after) = run_output(
        OutputState { pending: state.pending + chunk, last: state.last },
    );
    assert forall|more: Seq<Seq<u8>>| #[trigger]
        output_lines(no_output(), chunks.push(chunk) + more) == lines + found + output_lines(
            after,
            more,
        ) by {
        let tail = seq![chunk] + more;
        assert(chunks.push(chunk) + more =~= chunks + tail);
        assert(tail.drop_first() =~= more);
        assert(output_lines(no_output(), chunks + tail) == lines + output_lines(state, tail));
        assert(lines + (found + output_lines(after, more)) =~= lines + found + output_lines(
            after,
            more,
        ));
    }
}

/// The output of an upgrade in the course of being read.
pub struct UpgradeOutput {
    buffer: Vec<u8>,
    last_sent: String,
    /// The chunks that have arrived.
    chunks: Ghost<Seq<Seq<u8>>>,
    /// The lines that have been forwarded.
    lines: Ghost<Seq<Seq<char>>>,
}

impl View for UpgradeOutput {
    type V = OutputState;

    closed spec fn view(&self) -> OutputState {
        OutputState { pending: self.buffer@, last: self.last_sent@ }
    }
}

/// Where the first line break stands.
fn first_break(bytes: &Vec<u8>) -> (r: usize)
    ensures
        r == before_break(bytes@),
        r <= bytes@.len(),
{
    let mut i: usize = 0;
    while i < bytes.len() && bytes[i] != 10 && bytes[i] != 13
        invariant
            i <= bytes@.len(),
            forall|k: int| 0 <= k < i ==> !is_break(#[trigger] bytes@[k]),
        decreases bytes@.len() - i,
    {
        i = i + 1;
    }
    proof {
        lemma_before_break_is(bytes@, i as int);
    }
    i
}

/// The text of bytes that hold no line break.
fn read_text(bytes: &[u8]) -> (r: String)
    requires
        before_break(bytes@) == bytes@.len(),
    ensures
        r@ == trim(lossy_text(bytes@)),
        r@.len() > 0 ==> is_one_line(r@),
        decoded(bytes@),
{
    proof {
        lemma_before_break(bytes@);
        assert forall|i: int| 0 <= i < bytes@.len() implies bytes@[i] != 10u8 && bytes@[i]
            != 13u8 by {
            assert(!is_break(bytes@[i]));
        }
        lemma_trim(lossy_text(bytes@));
    }
    let text: String = decode_lossy(bytes);
    assert(!trim(text@).contains('\n') && !trim(text@).contains('\r'));
    trimmed(text.as_str())
}

impl UpgradeOutput {
    #[verifier::type_invariant]
    spec fn well_formed(self) -> bool {
        &&& before_break(self.buffer@) == self.buffer@.len()
        &&& output_reads_to(self.chunks@, self.lines@, self@)
        &&& forall|i: int| 0 <= i < self.lines@.len() ==> is_one_line(#[trigger] self.lines@[i])
    }

    /// The chunks that have arrived.
    pub closed spec fn chunks_received(self) -> Seq<Seq<u8>> {
        self.chunks@
    }

    /// The lines that have been forwarded.
    pub closed spec fn lines_given(self) -> Seq<Seq<char>> {
        self.lines@
    }

    /// Output of which nothing has arrived.
    pub fn new() -> (r: UpgradeOutput)
        ensures
            r@ == no_output(),
            r.chunks_received() == Seq::<Seq<u8>>::empty(),
            r.lines_given() == Seq::<Seq<char>>::empty(),
    {
        proof {
            assert forall|more: Seq<Seq<u8>>| #[trigger]
                output_lines(no_output(), Seq::<Seq<u8>>::empty() + more) == Seq::<
                    Seq<char>,
                >::empty() + output_lines(no_output(), more) by {
                assert(Seq::<Seq<u8>>::empty() + more =~= more);
                assert(Seq::<Seq<char>>::empty() + output_lines(no_output(), more)
                    =~= output_lines(no_output(), more));
            }
        }
        let buffer: Vec<u8> = Vec::new();
        let last_sent = String::new();
        assert(buffer@ =~= no_output().pending);
        UpgradeOutput {
            buffer,
            last_sent,
            chunks: Ghost(Seq::empty()),
            lines: Ghost(Seq::empty()),
        }
    }

    /// Takes the next chunk and gives the lines that it completes.
    pub fn feed(&mut self, chunk: &[u8]) -> (r: Vec<UpdateProgressEvent>)
        ensures
            ({
                let (lines, after) = run_output(
                    OutputState { pending: old(self)@.pending + chunk@, last: old(self)@.last },
                );
                &&& r.deep_view() == line_events(lines)
                &&& final(self)@ == after
                &&& final(self).lines_given() == old(self).lines_given() + lines
                &&& forall|i: int| 0 <= i < lines.len() ==> is_one_line(#[trigger] lines[i])
            }),
            final(self).chunks_received() == old(self).chunks_received().push(chunk@),
            ({
                let read = broken_lines(old(self)@.pending + chunk@);
                forall|i: int| 0 <= i < read.len() ==> decoded(#[trigger] read[i])
            }),
    {
        proof {
            use_type_invariant(&*self);
        }
        let ghost start = *self;
        let mut taken: UpgradeOutput = UpgradeOutput::new();
        std::mem::swap(self, &mut taken);
        let UpgradeOutput { mut buffer, mut last_sent, chunks, lines } = taken;
        let mut r: Vec<UpdateProgressEvent> = Vec::new();
        let mut more: Vec<u8> = vstd::slice::slice_to_vec(chunk);
        buffer.append(&mut more);
        let ghost all = run_output(OutputState { pending: buffer@, last: last_sent@ });
        let ghost mut sent: Seq<Seq<char>> = Seq::empty();
        let ghost mut read: Seq<Seq<u8>> = Seq::empty();
        let ghost every = broken_lines(buffer@);
        assert(buffer@ =~= start@.pending + chunk@);
        assert(read + every =~= every);
        assert(sent + all.0 =~= all.0);
        assert(r.deep_view() =~= line_events(sent));
        loop
            invariant_except_break
                sent + run_output(OutputState { pending: buffer@, last: last_sent@ }).0 == all.0,
                run_output(OutputState { pending: buffer@, last: last_sent@ }).1 == all.1,
                r.deep_view() == line_events(sent),
                forall|i: int| 0 <= i < sent.len() ==> is_one_line(#[trigger] sent[i]),
                read + broken_lines(buffer@) == every,
                forall|i: int| 0 <= i < read.len() ==> decoded(#[trigger] read[i]),
            ensures
                read == every,
                forall|i: int| 0 <= i < read.len() ==> decoded(#[trigger] read[i]),
                sent == all.0,
                r.deep_view() == line_events(all.0),
                all.1 == (OutputState { pending: buffer@, last: last_sent@ }),
                before_break(buffer@) == buffer@.len(),
                forall|i: int| 0 <= i < sent.len() ==> is_one_line(#[trigger] sent[i]),
            decreases buffer@.len(),
        {
            let ghost before = buffer@;
            let n: usize = first_break(&buffer);
            if n == buffer.len() {
                assert(sent + Seq::empty() =~= sent);
                assert(read + Seq::empty() =~= read);
                break;
            }
            let line = vstd::slice::slice_subrange(buffer.as_slice(), 0, n);
            proof {
                lemma_before_break(before);
                assert(line@ =~= before.take(n as int));
                assert forall|i: int| 0 <= i < line@.len() implies !is_break(
                    #[trigger] line@[i],
                ) by {
                    assert(line@[i] == before[i]);
                }
                lemma_before_break_is(line@, n as int);
            }
            let text: String = read_text(line);
            let rest: Vec<u8> = vstd::slice::slice_to_vec(
                vstd::slice::slice_subrange(buffer.as_slice(), n + 1, buffer.len()),
            );
            assert(rest@ =~= before.skip(n + 1));
            buffer = rest;
            proof {
                let next = broken_lines(buffer@);
                assert(read + (seq![line@] + next) =~= read.push(line@) + next);
                read = read.push(line@);
            }
            if !text.as_str().is_empty() && !text_eq(text.as_str(), last_sent.as_str()) {
                last_sent = text.clone();
                let ghost sent_before = sent;
                let ghost events_before = r.deep_view();
                proof {
                    let next = run_output(OutputState { pending: buffer@, last: last_sent@ }).0;
                    sent = sent.push(text@);
                    assert(sent + next =~= sent_before + (seq![text@] + next));
                }
                r.push(UpdateProgressEvent::Line { text });
                assert(r.deep_view() =~= events_before.push(
                    UpdateProgressEventView::Line { text: text@ },
                ));
                assert(r.deep_view() =~= line_events(sent));
            }
        }
        proof {
            lemma_output_reads_on(start.chunks@, start.lines@, start@, chunk@);
        }
        *self =
        UpgradeOutput {
            buffer,
            last_sent,
            chunks: Ghost(chunks@.push(chunk@)),
            lines: Ghost(lines@ + all.0),
        };
        r
    }

    /// The line that the output ends with. With it the lines given are all those
    /// of the chunks that arrived.
    pub fn finish(self) -> (r: Vec<UpdateProgressEvent>)
        ensures
            r.deep_view() == line_events(last_line(self@)),
            self.lines_given() + last_line(self@) == output_lines(
                no_output(),
                self.chunks_received(),
            ),
            decoded(self@.pending),
            ({
                let all = output_lines(no_output(), self.chunks_received());
                forall|i: int| 0 <= i < all.len() ==> is_one_line(#[trigger] all[i])
            }),
    {
        proof {
            use_type_invariant(&self);
            let none = Seq::<Seq<u8>>::empty();
            assert(self.chunks@ + none =~= self.chunks@);
            assert(output_lines(no_output(), self.chunks@ + none) == self.lines@ + output_lines(
                self@,
                none,
            ));
        }
        let mut r: Vec<UpdateProgressEvent> = Vec::new();
        let tail: String = read_text(self.buffer.as_slice());
        let ghost text = tail@;
        if !tail.as_str().is_empty() && !text_eq(tail.as_str(), self.last_sent.as_str()) {
            r.push(UpdateProgressEvent::Line { text: tail });
            assert(r.deep_view() =~= line_events(seq![text]));
        } else {
            assert(r.deep_view() =~= line_events(Seq::empty()));
        }
        r
    }
}

/// Whether no line is blank, none repeats the one before it, and the first does
/// not repeat `last`.
pub open spec fn all_news(lines: Seq<Seq<char>>, last: Seq<char>) -> bool {
    forall|i: int|
        0 <= i < lines.len() ==> is_news(
            #[trigger] lines[i],
            if i == 0 {
                last
            } else {
                lines[i - 1]
            },
        )
}

/// The line last forwarded once `lines` are, where `last` was before.
pub open spec fn last_of(lines: Seq<Seq<char>>, last: Seq<char>) -> Seq<char> {
    if lines.len() == 0 {
        last
    } else {
        lines.last()
    }
}

proof fn lemma_news_append(a: Seq<Seq<char>>, b: Seq<Seq<char>>, last: Seq<char>)
    requires
        all_news(a, last),
        all_news(b, last_of(a, last)),
    ensures
        all_news(a + b, last),
        last_of(a + b, last) == last_of(b, last_of(a, last)),
{
    let ab = a + b;
    assert forall|i: int| 0 <= i < ab.len() implies is_news(
        #[trigger] ab[i],
        if i == 0 {
            last
        } else {
            ab[i - 1]
        },
    ) by {
        if i < a.len() {
            assert(ab[i] == a[i]);
        } else {
            assert(ab[i] == b[i - a.len()]);
        }
    }
}

proof fn lemma_run_output_news(state: OutputState)
    ensures
        all_news(run_output(state).0, state.last),
        run_output(state).1.last == last_of(run_output(state).0, state.last),
    decreases state.pending.len(),
{
    lemma_before_break(state.pending);
    let n = before_break(state.pending) as int;
    if n < state.pending.len() {
        let line = trim(lossy_text(state.pending.take(n)));
        let rest = state.pending.skip(n + 1);
        if is_news(line, state.last) {
            lemma_run_output_news(OutputState { pending: rest, last: line });
            lemma_news_append(
                seq![line],
                run_output(OutputState { pending: rest, last: line }).0,
                state.last,
            );
        } else {
            lemma_run_output_news(OutputState { pending: rest, last: state.last });
        }
    }
}

/// Whatever a package manager writes, no blank line is forwarded and no line
/// twice in a row.
pub proof fn law_only_news_is_forwarded(state: OutputState, chunks: Seq<Seq<u8>>)
    ensures
        all_news(output_lines(state, chunks), state.last),
    decreases chunks.len(),
{
    if chunks.len() > 0 {
        let start = OutputState { pending: state.pending + chunks[0], last: state.last };
        let (lines, after) = run_output(start);
        lemma_run_output_news(start);
        law_only_news_is_forwarded(after, chunks.drop_first());
        lemma_news_append(lines, output_lines(after, chunks.drop_first()), state.last);
    }
}

/// The chunks of an output put together again.
pub open spec fn whole_output(chunks: Seq<Seq<u8>>) -> Seq<u8>
    decreases chunks.len(),
{
    if chunks.len() == 0 {
        Seq::empty()
    } else {
        chunks[0] + whole_output(chunks.drop_first())
    }
}

/// Bytes that arrive later are read as if they had been there from the start.
proof fn lemma_run_output_append(state: OutputState, more: Seq<u8>)
    ensures
        ({
            let (first, after) = run_output(state);
            let (second, end) = run_output(
                OutputState { pending: after.pending + more, last: after.last },
            );
            run_output(OutputState { pending: state.pending + more, last: state.last }) == (
                first + second,
                end,
            )
        }),
    decreases state.pending.len(),
{
    let p = state.pending;
    let all = OutputState { pending: p + more, last: state.last };
    lemma_before_break(p);
    let n = before_break(p) as int;
    if n < p.len() {
        assert((p + more)[n] == p[n]);
        assert forall|i: int| 0 <= i < n implies !is_break(#[trigger] (p + more)[i]) by {
            assert((p + more)[i] == p[i]);
        }
        lemma_before_break_is(p + more, n);
        assert((p + more).take(n) =~= p.take(n));
        assert((p + more).skip(n + 1) =~= p.skip(n + 1) + more);
        let line = trim(lossy_text(p.take(n)));
        let last = if is_news(line, state.last) {
            line
        } else {
            state.last
        };
        let next = OutputState { pending: p.skip(n + 1), last };
        lemma_run_output_append(next, more);
        let (first, after) = run_output(next);
        let (second, end) = run_output(
            OutputState { pending: after.pending + more, last: after.last },
        );
        assert(seq![line] + (first + second) =~= (seq![line] + first) + second);
    } else {
        let (lines, end) = run_output(all);
        assert(Seq::<Seq<char>>::empty() + lines =~= lines);
    }
}

proof fn lemma_run_output_rest(state: OutputState)
    ensures
        before_break(run_output(state).1.pending) == run_output(state).1.pending.len(),
    decreases state.pending.len(),
{
    lemma_before_break(state.pending);
    let n = before_break(state.pending) as int;
    if n < state.pending.len() {
        let line = trim(lossy_text(state.pending.take(n)));
        let last = if is_news(line, state.last) {
            line
        } else {
            state.last
        };
        lemma_run_output_rest(OutputState { pending: state.pending.skip(n + 1), last });
    }
}

proof fn lemma_one_chunk(state: OutputState, chunk: Seq<u8>)
    ensures
        output_lines(state, seq![chunk]) == ({
            let (lines, after) = run_output(
                OutputState { pending: state.pending + chunk, last: state.last },
            );
            lines + last_line(after)
        }),
{
    let (lines, after) = run_output(
        OutputState { pending: state.pending + chunk, last: state.last },
    );
    assert(seq![chunk].drop_first() =~= Seq::empty());
    assert(output_lines(after, Seq::empty()) == last_line(after));
}

/// How the output is cut into chunks does not change the lines forwarded.
pub proof fn law_chunks_do_not_matter(state: OutputState, chunks: Seq<Seq<u8>>)
    requires
        before_break(state.pending) == state.pending.len(),
    ensures
        output_lines(state, chunks) == output_lines(state, seq![whole_output(chunks)]),
    decreases chunks.len(),
{
    lemma_one_chunk(state, whole_output(chunks));
    if chunks.len() == 0 {
        assert(state.pending + whole_output(chunks) =~= state.pending);
        assert(Seq::<Seq<char>>::empty() + last_line(state) =~= last_line(state));
    } else {
        let tail = chunks.drop_first();
        let start = OutputState { pending: state.pending + chunks[0], last: state.last };
        let (first, after) = run_output(start);
        assert(state.pending + whole_output(chunks) =~= start.pending + whole_output(tail));
        lemma_run_output_append(start, whole_output(tail));
        lemma_run_output_rest(start);
        law_chunks_do_not_matter(after, tail);
        lemma_one_chunk(after, whole_output(tail));
        let (second, end) = run_output(
            OutputState { pending: after.pending + whole_output(tail), last: after.last },
        );
        assert(first + (second + last_line(end)) =~= (first + second) + last_line(end));
    }
}

/// The state that output comes to with `chunks`.
pub open spec fn output_state(state: OutputState, chunks: Seq<Seq<u8>>) -> OutputState
    decreases chunks.len(),
{
    if chunks.len() == 0 {
        state
    } else {
        output_state(
            run_output(OutputState { pending: state.pending + chunks[0], last: state.last }).1,
            chunks.drop_first(),
        )
    }
}

/// Output that ends without a line break loses nothing: where what follows the
/// last break is not blank, it is the line that was forwarded last.
pub proof fn law_last_line_is_not_lost(state: OutputState, chunks: Seq<Seq<u8>>)
    ensures
        ({
            let tail = trim(lossy_text(output_state(state, chunks).pending));
            tail.len() > 0 ==> last_of(output_lines(state, chunks), state.last) == tail
        }),
    decreases chunks.len(),
{
    if chunks.len() > 0 {
        let start = OutputState { pending: state.pending + chunks[0], last: state.last };
        let (lines, after) = run_output(start);
        lemma_run_output_news(start);
        law_last_line_is_not_lost(after, chunks.drop_first());
        let rest = output_lines(after, chunks.drop_first());
        assert(last_of(lines + rest, state.last) == last_of(rest, last_of(lines, state.last)));
    }
}

/// Every line forwarded is without white space around it.
pub proof fn law_forwarded_lines_are_trimmed(state: OutputState, chunks: Seq<Seq<u8>>)
    ensures
        forall|i: int|
            0 <= i < output_lines(state, chunks).len() ==> trim(
                #[trigger] output_lines(state, chunks)[i],
            ) == output_lines(state, chunks)[i],
    decreases chunks.len(),
{
    if chunks.len() == 0 {
        lemma_trim(lossy_text(state.pending));
    } else {
        let start = OutputState { pending: state.pending + chunks[0], last: state.last };
        let (lines, after) = run_output(start);
        lemma_run_output_trimmed(start);
        law_forwarded_lines_are_trimmed(after, chunks.drop_first());
        let rest = output_lines(after, chunks.drop_first());
        assert forall|i: int| 0 <= i < (lines + rest).len() implies trim(
            #[trigger] (lines + rest)[i],
        ) == (lines + rest)[i] by {
            if i >= lines.len() {
                assert((lines + rest)[i] == rest[i - lines.len()]);
            }
        }
    }
}

proof fn lemma_run_output_trimmed(state: OutputState)
    ensures
        forall|i: int|
            0 <= i < run_output(state).0.len() ==> trim(#[trigger] run_output(state).0[i])
                == run_output(state).0[i],
    decreases state.pending.len(),
{
    lemma_before_break(state.pending);
    let n = before_break(state.pending) as int;
    if n < state.pending.len() {
        let line = trim(lossy_text(state.pending.take(n)));
        lemma_trim(lossy_text(state.pending.take(n)));
        let last = if is_news(line, state.last) {
            line
        } else {
            state.last
        };
        let next = OutputState { pending: state.pending.skip(n + 1), last };
        lemma_run_output_trimmed(next);
        let rest = run_output(next).0;
        if is_news(line, state.last) {
            assert forall|i: int| 0 <= i < run_output(state).0.len() implies trim(
                #[trigger] run_output(state).0[i],
            ) == run_output(state).0[i] by {
                if i > 0 {
                    assert(run_output(state).0[i] == rest[i - 1]);
                }
            }
        }
    }
}

/// The same bytes forward the same lines, however they are cut into chunks.
pub proof fn law_same_bytes_same_lines(a: Seq<Seq<u8>>, b: Seq<Seq<u8>>)
    requires
        whole_output(a) == whole_output(b),
    ensures
        output_lines(no_output(), a) == output_lines(no_output(), b),
{
    law_chunks_do_not_matter(no_output(), a);
    law_chunks_do_not_matter(no_output(), b);
}

/// All events of an upgrade whose output arrives in `chunks`.
pub open spec fn upgrade_events(
    manager: PackageManager,
    chunks: Seq<Seq<u8>>,
    end: UpgradeEnd,
) -> Seq<UpdateProgressEventView> {
    let lines = if end is NotStarted {
        Seq::empty()
    } else {
        output_lines(no_output(), chunks)
    };
    line_events(lines).push(end_event(manager, end))
}

/// Whatever happens, an upgrade reports its end exactly once, after its output,
/// and as a success only where the program succeeded.
pub proof fn law_upgrade_ends_once(
    manager: PackageManager,
    chunks: Seq<Seq<u8>>,
    end: UpgradeEnd,
)
    ensures
        ({
            let events = upgrade_events(manager, chunks, end);
            &&& events.len() > 0
            &&& events.last() is Done
            &&& events.last()->success == (end is Succeeded)
            &&& forall|i: int| 0 <= i < events.len() - 1 ==> (#[trigger] events[i]) is Line
        }),
{
}

/// Output is read line by line, each once and in order, with a line feed or a
/// carriage return as the end of a line: a line that is not blank and not the one
/// forwarded last is forwarded, without the white space around it, and so is what
/// stands behind the last break.
pub proof fn law_output_is_read_line_by_line(
    last: Seq<char>,
    line: Seq<u8>,
    end: u8,
    rest: Seq<u8>,
)
    requires
        end == 10 || end == 13,
        !line.contains(10),
        !line.contains(13),
    ensures
        ({
            let text = trim(lossy_text(line));
            let start = OutputState { pending: Seq::empty(), last };
            let after = OutputState { pending: Seq::empty(), last: text };
            let news = text.len() > 0 && text != last;
            &&& output_lines(start, seq![line.push(end) + rest]) == if news {
                seq![text] + output_lines(after, seq![rest])
            } else {
                output_lines(start, seq![rest])
            }
            &&& output_lines(start, seq![line]) == if news {
                seq![text]
            } else {
                Seq::empty()
            }
        }),
{
    let none = Seq::<u8>::empty();
    let all = line.push(end) + rest;
    let n = line.len() as int;
    let text = trim(lossy_text(line));
    let start = OutputState { pending: none, last };
    let after = OutputState { pending: none, last: text };
    assert forall|i: int| 0 <= i < n implies !is_break(#[trigger] line[i]) by {
        assert(line.contains(line[i]));
    }
    assert forall|i: int| 0 <= i < n implies !is_break(#[trigger] all[i]) by {
        assert(all[i] == line[i]);
    }
    assert(all[n] == end);
    lemma_before_break_is(all, n);
    lemma_before_break_is(line, n);
    assert(all.take(n) =~= line);
    assert(all.skip(n + 1) =~= rest);
    lemma_one_chunk(start, all);
    lemma_one_chunk(start, line);
    lemma_one_chunk(start, rest);
    lemma_one_chunk(after, rest);
    assert(none + all =~= all);
    assert(none + line =~= line);
    assert(none + rest =~= rest);
    let (lines, state) = run_output(OutputState { pending: rest, last: text });
    assert(seq![text] + (lines + last_line(state)) =~= seq![text] + lines + last_line(state));
    assert(Seq::<Seq<char>>::empty() + last_line(OutputState { pending: line, last }) =~= last_line(
        OutputState { pending: line, last },
    ));
}

/// The newest release is the tag that was published, without the `v` in front; a
/// reply without a tag is an error.
pub proof fn law_releases_are_read_from_their_tag(
    value: JsonTree,
    vees: Seq<char>,
    release: Seq<char>,
)
    requires
        forall|i: int| 0 <= i < vees.len() ==> #[trigger] vees[i] == 'v',
        release.len() == 0 || release[0] != 'v',
    ensures
        value.get("tag_name"@) == Some(JsonTree::Text(vees + release)) ==> release_of(value) == Ok::<
            Seq<char>,
            Seq<char>,
        >(release),
        !(value.get("tag_name"@) matches Some(JsonTree::Text(_))) ==> release_of(value) is Err,
{
    let class = CharClass::Just('v');
    let tag = vees + release;
    assert forall|i: int| 0 <= i < vees.len() implies class.has(#[trigger] tag[i]) by {
        assert(tag[i] == vees[i]);
    }
    if release.len() > 0 {
        assert(tag[vees.len() as int] == release[0]);
    }
    lemma_leading_is(tag, class, vees.len() as int);
    assert(skip_leading(tag, class) =~= release);
}

/// An upgrade that failed says why: the reason that was given, or the program's own
/// words, or the exit code where it said nothing.
pub proof fn law_failed_upgrades_say_why(
    manager: PackageManager,
    reason: String,
    code: Option<i32>,
)
    ensures
        reason@.is_suffix_of(end_event(manager, UpgradeEnd::NotStarted(reason))->message),
        reason@.is_suffix_of(end_event(manager, UpgradeEnd::Lost(reason))->message),
        !is_blank(reason@) ==> trim(reason@).is_suffix_of(
            end_event(manager, UpgradeEnd::Failed { code, stderr: reason })->message,
        ),
        is_blank(reason@) ==> signed_decimal(
            match code {
                Some(code) => code as int,
                None => -1,
            },
        ).is_suffix_of(end_event(manager, UpgradeEnd::Failed { code, stderr: reason })->message),
{
    law_only_blank_texts_vanish(reason@);
    let started = end_event(manager, UpgradeEnd::NotStarted(reason))->message;
    let lost = end_event(manager, UpgradeEnd::Lost(reason))->message;
    let failed = end_event(manager, UpgradeEnd::Failed { code, stderr: reason })->message;
    let n = reason@.len() as int;
    assert(started.subrange(started.len() - n, started.len() as int) =~= reason@);
    assert(lost.subrange(lost.len() - n, lost.len() as int) =~= reason@);
    let number = signed_decimal(
        match code {
            Some(code) => code as int,
            None => -1,
        },
    );
    if is_blank(reason@) {
        let m = number.len() as int;
        assert(failed.subrange(failed.len() - m, failed.len() as int) =~= number);
    } else {
        let said = trim(reason@);
        let m = said.len() as int;
        assert(failed.subrange(failed.len() - m, failed.len() as int) =~= said);
    }
}

/// Windows is updated through winget and macOS through Homebrew; on any other system
/// the user is not offered an update.
pub proof fn law_systems_have_their_own_manager(os: Seq<char>)
    ensures
        usual_manager(os) == Some(PackageManager::Winget) <==> os == "windows"@,
        usual_manager(os) == Some(PackageManager::Homebrew) <==> os == "macos"@,
{
    reveal_strlit("windows");
    reveal_strlit("macos");
    assert("windows"@.len() == 7 && "macos"@.len() == 5);
}

/// An upgrade is of the engine and of nothing else, and does not stop for a question
/// where it could.
pub proof fn law_upgrades_are_of_the_engine_alone(manager: PackageManager)
    ensures
        manager.upgrade_words()[0] == "upgrade"@,
        manager is Winget ==> {
            let words = manager.upgrade_words();
            &&& words[1] == "--id"@
            &&& words[2] == "Ollama.Ollama"@
            &&& words.contains("--exact"@)
            &&& words.contains("--accept-source-agreements"@)
            &&& words.contains("--accept-package-agreements"@)
            &&& words.contains("--disable-interactivity"@)
        },
        manager is Homebrew ==> manager.upgrade_words() == seq!["upgrade"@, "ollama"@],
{
    if manager is Winget {
        let words = manager.upgrade_words();
        assert(words[3] == "--exact"@);
        assert(words[4] == "--accept-source-agreements"@);
        assert(words[5] == "--accept-package-agreements"@);
        assert(words[6] == "--disable-interactivity"@);
    }
}

} // verus!
