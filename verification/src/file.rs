//! Where the lines come from and how they are walked: the choice of an input
//! source, the text of a record, the record-by-record driver and the flush
//! cadence. The reading, writing and waiting themselves are the caller's;
//! this module decides.

use vstd::prelude::*;
use vstd::utf8::*;

verus! {

/// What an input is read from.
#[derive(Debug)]
pub enum Source {
    /// Standard input.
    Console,
    /// The file at this path.
    File(String),
}

/// One input of a run.
#[derive(Debug)]
pub struct Input {
    /// What the input is read from.
    pub source: Source,
}

impl Input {
    /// The input that reads standard input.
    pub fn console() -> (input: Input)
        ensures
            input.source is Console,
    {
        Input { source: Source::Console }
    }

    /// The input that reads the file at `path`.
    pub fn file(path: &str) -> (input: Input)
        ensures
            input.source matches Source::File(p) && p@ == path@,
    {
        Input { source: Source::File(path.to_owned()) }
    }

    /// `-` names standard input; any other argument names a file.
    pub fn console_or_file(path: &str) -> (input: Input)
        ensures
            path@ == seq!['-'] ==> input.source is Console,
            path@ != seq!['-'] ==> (input.source matches Source::File(p) && p@ == path@),
    {
        if path.unicode_len() == 1 && path.get_char(0) == '-' {
            assert(path@ =~= seq!['-']);
            Input::console()
        } else {
            Input::file(path)
        }
    }
}

/// The text that `String::from_utf8_lossy` makes of bytes.
pub uninterp spec fn lossy_text(bytes: Seq<u8>) -> Seq<char>;

/// Calls `String::from_utf8_lossy`. Bytes that are valid UTF-8 come back as
/// the text that they encode; in other bytes the standard library replaces
/// each invalid sequence by the replacement character U+FFFD.
#[verifier::external_body]
fn decode_lossy(bytes: &[u8]) -> (text: String)
    ensures
        text@ == lossy_text(bytes@),
        valid_utf8(bytes@) ==> encode_utf8(text@) == bytes@,
{
    String::from_utf8_lossy(bytes).into_owned()
}

/// The bytes of a record as text: as they are where they are valid UTF-8,
/// with each invalid sequence replaced where they are not.
pub fn lossy_read_line(bytes: &[u8]) -> (line: String)
    ensures
        line@ == lossy_text(bytes@),
        valid_utf8(bytes@) ==> line@ == decode_utf8(bytes@),
{
    let line = decode_lossy(bytes);
    proof {
        if valid_utf8(bytes@) {
            encode_utf8_decode_utf8(line@);
        }
    }
    line
}

/// How an attempt to read the next record ended.
#[derive(Clone, Copy, Debug, PartialEq, Eq, Structural)]
pub enum ReadEvent {
    /// A record came: the bytes up to and including a newline, or the last
    /// unterminated bytes.
    Record,
    /// The source is exhausted.
    EndOfInput,
    /// The source failed.
    Failed,
}

/// What the per-line function reported for one record.
#[derive(Clone, Copy, Debug, PartialEq, Eq, Structural)]
pub enum LineEvent {
    /// Go on with the next record.
    Continue,
    /// Nothing further is wanted.
    Stop,
    /// The record was written, but the flusher no longer listens.
    FlusherGone,
    /// The reader of the output has gone away.
    DownstreamClosed,
    /// Writing failed in any other way.
    Failed,
}

/// Where a run stands.
#[derive(Clone, Copy, Debug, PartialEq, Eq, Structural)]
pub enum Phase {
    /// The next record is to be read.
    Reading,
    /// A record is in hand and goes to the per-line function.
    Emitting,
    /// The run ended cleanly.
    Finished,
    /// The run ended on an error that the caller hands on.
    Failed,
}

/// What the caller does next.
#[derive(Clone, Copy, Debug, PartialEq, Eq, Structural)]
pub enum Action {
    /// Read the next record and report with `on_read`.
    Read,
    /// Call the per-line function with this line number and report with
    /// `on_line`.
    Emit(i32),
    /// End the run without an error.
    Finish,
    /// End the run and hand the error on.
    Fail,
}

/// Walks one input record by record. Line numbers start at 1 and go up by one
/// with each record.
#[derive(Clone, Copy, Debug)]
pub struct LineDriver {
    /// The number of the record in hand, or of the next one to read.
    pub line_number: i32,
    /// Where the run stands.
    pub phase: Phase,
}

impl LineDriver {
    /// A driver before its first record.
    pub fn new() -> (driver: LineDriver)
        ensures
            driver.line_number == 1,
            driver.phase == Phase::Reading,
    {
        LineDriver { line_number: 1, phase: Phase::Reading }
    }

    /// What `on_read` moves to and asks for.
    pub open spec fn after_read(self, event: ReadEvent) -> (LineDriver, Action) {
        match event {
            ReadEvent::Record => (
                LineDriver { line_number: self.line_number, phase: Phase::Emitting },
                Action::Emit(self.line_number),
            ),
            ReadEvent::EndOfInput => (
                LineDriver { line_number: self.line_number, phase: Phase::Finished },
                Action::Finish,
            ),
            ReadEvent::Failed => (
                LineDriver { line_number: self.line_number, phase: Phase::Failed },
                Action::Fail,
            ),
        }
    }

    /// What `on_line` moves to and asks for.
    pub open spec fn after_line(self, event: LineEvent) -> (LineDriver, Action) {
        match event {
            LineEvent::Continue => (
                LineDriver { line_number: (self.line_number + 1) as i32, phase: Phase::Reading },
                Action::Read,
            ),
            LineEvent::Stop | LineEvent::FlusherGone | LineEvent::DownstreamClosed => (
                LineDriver { line_number: self.line_number, phase: Phase::Finished },
                Action::Finish,
            ),
            LineEvent::Failed => (
                LineDriver { line_number: self.line_number, phase: Phase::Failed },
                Action::Fail,
            ),
        }
    }

    /// Takes the outcome of a read. A record goes to the per-line function
    /// under the current line number; the end of the input ends the run; a
    /// failed read ends it with the error.
    pub fn on_read(&mut self, event: ReadEvent) -> (action: Action)
        requires
            old(self).phase == Phase::Reading,
        ensures
            (*final(self), action) == old(self).after_read(event),
    {
        match event {
            ReadEvent::Record => {
                self.phase = Phase::Emitting;
                Action::Emit(self.line_number)
            },
            ReadEvent::EndOfInput => {
                self.phase = Phase::Finished;
                Action::Finish
            },
            ReadEvent::Failed => {
                self.phase = Phase::Failed;
                Action::Fail
            },
        }
    }

    /// Takes the per-line function's report. Only `Continue` leads to another
    /// read, under the next line number. A closed downstream ends the run as
    /// cleanly as `Stop` does, and so does the loss of the flusher; any other
    /// failure ends the run with the error.
    pub fn on_line(&mut self, event: LineEvent) -> (action: Action)
        requires
            old(self).phase == Phase::Emitting,
            old(self).line_number < i32::MAX,
        ensures
            (*final(self), action) == old(self).after_line(event),
    {
        match event {
            LineEvent::Continue => {
                self.line_number = self.line_number + 1;
                self.phase = Phase::Reading;
                Action::Read
            },
            LineEvent::Stop => {
                self.phase = Phase::Finished;
                Action::Finish
            },
            LineEvent::FlusherGone => {
                self.phase = Phase::Finished;
                Action::Finish
            },
            LineEvent::DownstreamClosed => {
                self.phase = Phase::Finished;
                Action::Finish
            },
            LineEvent::Failed => {
                self.phase = Phase::Failed;
                Action::Fail
            },
        }
    }
}

/// The longest that written output may stay unflushed, in milliseconds.
pub const FLUSH_INTERVAL_MS: u64 = 100;

/// How long the flusher waits for news of the reader before it looks at the
/// clock again, in milliseconds.
pub const FLUSH_POLL_MS: u64 = 10;

/// What the flusher learnt while it waited.
#[derive(Clone, Copy, Debug, PartialEq, Eq, Structural)]
pub enum FlusherEvent {
    /// The wait timed out: no record was written meanwhile.
    Idle,
    /// A record was written.
    Notified,
    /// The reader is done.
    Closed,
}

/// What the flusher does after one wait.
#[derive(Clone, Copy, Debug, PartialEq, Eq, Structural)]
pub struct FlusherStep {
    /// Flush because the wait was idle.
    pub idle_flush: bool,
    /// Flush because the interval has passed, and start the interval anew.
    pub interval_flush: bool,
    /// Stop flushing: the run is over.
    pub exit: bool,
}

/// Decides one round of the flusher from what the wait brought and from the
/// milliseconds since the interval last started.
pub fn flusher_step(event: FlusherEvent, elapsed_ms: u64) -> (step: FlusherStep)
    ensures
        step.exit == (event == FlusherEvent::Closed),
        step.idle_flush == (event == FlusherEvent::Idle),
        step.interval_flush == (event != FlusherEvent::Closed && elapsed_ms >= FLUSH_INTERVAL_MS),
{
    match event {
        FlusherEvent::Closed => FlusherStep { idle_flush: false, interval_flush: false, exit: true },
        FlusherEvent::Idle => FlusherStep {
            idle_flush: true,
            interval_flush: elapsed_ms >= FLUSH_INTERVAL_MS,
            exit: false,
        },
        FlusherEvent::Notified => FlusherStep {
            idle_flush: false,
            interval_flush: elapsed_ms >= FLUSH_INTERVAL_MS,
            exit: false,
        },
    }
}

/// The driver after `n` records that each led to `Continue`.
pub open spec fn after_records(n: nat) -> LineDriver
    decreases n,
{
    if n == 0 {
        LineDriver { line_number: 1, phase: Phase::Reading }
    } else {
        after_records((n - 1) as nat).after_read(ReadEvent::Record).0.after_line(
            LineEvent::Continue,
        ).0
    }
}

/// Records are numbered from 1 in the order in which they are read: the
/// record that follows `n` others goes to the per-line function as line
/// `n + 1`.
pub proof fn law_line_numbers(n: nat)
    requires
        n < i32::MAX,
    ensures
        after_records(n).phase == Phase::Reading,
        after_records(n).line_number == n + 1,
        after_records(n).after_read(ReadEvent::Record).1 == Action::Emit((n + 1) as i32),
    decreases n,
{
    if n > 0 {
        law_line_numbers((n - 1) as nat);
    }
}

} // verus!
