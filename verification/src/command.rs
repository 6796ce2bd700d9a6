//! Running one remote command and collecting what it wrote.
//!
//! The caller owns the session, the two streams and the tasks that drain
//! them. The types of this module lead it through the steps in the one order
//! that cannot hang on a full buffer: start the command, switch both streams
//! to non-blocking reads and set their drains going, await both drains, and
//! only then await the exit of the process.

use crate::drain::drain;
use crate::drain::drained;
use crate::drain::keeps_open;
use crate::drain::lemma_drain_captures_all;
use crate::drain::outcome_view;
use crate::drain::payload;
use crate::drain::recording_view;
use crate::drain::DrainOutcome;
use crate::drain::ReadView;
use crate::drain::RecordedRead;
use vstd::pervasive::unreached;
use vstd::prelude::*;

verus! {

/// `portable_pty::ExitStatus`, the exit status that waiting for a process
/// yields. Nothing is said of what it is made of.
#[verifier::external_type_specification]
#[verifier::external_body]
pub struct ExExitStatus(portable_pty::ExitStatus);

/// Whether an exit status stands for success.
pub uninterp spec fn exit_succeeded(status: portable_pty::ExitStatus) -> bool;

/// `portable_pty::ExitStatus::success` reads the one thing that the status
/// holds, the indicator of success.
pub assume_specification[ portable_pty::ExitStatus::success ](
    status: &portable_pty::ExitStatus,
) -> (ok: bool)
    ensures
        ok == exit_succeeded(*status),
;

/// `portable_pty::ExitStatus::with_exit_code` makes a status that stands for
/// success exactly when the code is zero.
pub assume_specification[ portable_pty::ExitStatus::with_exit_code ](code: u32) -> (status:
    portable_pty::ExitStatus)
    ensures
        exit_succeeded(status) == (code == 0),
;

/// One of the two output streams of a process.
#[derive(Debug, Clone, Copy, PartialEq, Eq, Structural)]
pub enum Stream {
    Stdout,
    Stderr,
}

/// The result of one command.
#[derive(Debug, PartialEq, Eq)]
pub struct Output {
    /// Whether the process ended normally with code zero.
    pub success: bool,
    /// Everything the process wrote to its standard output.
    pub stdout: Vec<u8>,
    /// Everything the process wrote to its standard error.
    pub stderr: Vec<u8>,
}

/// An output as plain values.
pub struct OutputView {
    pub success: bool,
    pub stdout: Seq<u8>,
    pub stderr: Seq<u8>,
}

impl View for Output {
    type V = OutputView;

    open spec fn view(&self) -> OutputView {
        OutputView { success: self.success, stdout: self.stdout@, stderr: self.stderr@ }
    }
}

/// Why a command yielded no output.
#[derive(Debug)]
pub enum ExecError {
    /// The session did not start the command; the text says why.
    StartFailed(String),
    /// A stream could not be drained to its end.
    DrainFailed(Stream, std::io::Error),
    /// The exit of the process could not be awaited.
    WaitFailed(std::io::Error),
}

/// An error as plain values.
pub enum ExecErrorView {
    StartFailed(Seq<char>),
    DrainFailed(Stream, std::io::Error),
    WaitFailed(std::io::Error),
}

impl View for ExecError {
    type V = ExecErrorView;

    open spec fn view(&self) -> ExecErrorView {
        match self {
            ExecError::StartFailed(reason) => ExecErrorView::StartFailed(reason@),
            ExecError::DrainFailed(stream, cause) => ExecErrorView::DrainFailed(*stream, *cause),
            ExecError::WaitFailed(cause) => ExecErrorView::WaitFailed(*cause),
        }
    }
}

/// The end of a command as plain values.
pub open spec fn result_view(result: Result<Output, ExecError>) -> Result<
    OutputView,
    ExecErrorView,
> {
    match result {
        Ok(output) => Ok(output@),
        Err(error) => Err(error@),
    }
}

/// A command that the session has been asked to start.
#[derive(Debug)]
pub struct Launch;

/// A started command, one of whose streams is being switched to non-blocking
/// reads.
#[derive(Debug)]
pub struct Unblock {
    stream: Stream,
}

/// A command whose drains are running; the drain of one stream is awaited.
#[derive(Debug)]
pub struct Join {
    stream: Stream,
    stdout: Vec<u8>,
}

/// A command whose streams are both drained; its exit is awaited.
#[derive(Debug)]
pub struct Wait {
    stdout: Vec<u8>,
    stderr: Vec<u8>,
}

/// A pending join as plain values.
pub struct JoinView {
    pub stream: Stream,
    pub stdout: Seq<u8>,
}

/// A pending wait as plain values.
pub struct WaitView {
    pub stdout: Seq<u8>,
    pub stderr: Seq<u8>,
}

impl View for Unblock {
    type V = Stream;

    closed spec fn view(&self) -> Stream {
        self.stream
    }
}

impl View for Join {
    type V = JoinView;

    closed spec fn view(&self) -> JoinView {
        JoinView { stream: self.stream, stdout: self.stdout@ }
    }
}

impl View for Wait {
    type V = WaitView;

    closed spec fn view(&self) -> WaitView {
        WaitView { stdout: self.stdout@, stderr: self.stderr@ }
    }
}

/// What the caller does next.
#[derive(Debug)]
pub enum ExecStep {
    /// Switch this stream to non-blocking reads and set its drain going.
    Unblock(Unblock),
    /// Await the drain of this stream.
    Join(Join),
    /// Await the exit of the process.
    Wait(Wait),
    /// Stop: the command is over.
    Done(Result<Output, ExecError>),
}

/// A step as plain values.
pub enum ExecStepView {
    Unblock(Stream),
    Join(JoinView),
    Wait(WaitView),
    Done(Result<OutputView, ExecErrorView>),
}

impl View for ExecStep {
    type V = ExecStepView;

    open spec fn view(&self) -> ExecStepView {
        match self {
            ExecStep::Unblock(unblock) => ExecStepView::Unblock(unblock@),
            ExecStep::Join(join) => ExecStepView::Join(join@),
            ExecStep::Wait(wait) => ExecStepView::Wait(wait@),
            ExecStep::Done(result) => ExecStepView::Done(result_view(*result)),
        }
    }
}

/// The step after the session was asked to start the command: standard
/// output is switched first.
pub open spec fn after_start(started: Result<(), Seq<char>>) -> ExecStepView {
    match started {
        Ok(()) => ExecStepView::Unblock(Stream::Stdout),
        Err(reason) => ExecStepView::Done(Err(ExecErrorView::StartFailed(reason))),
    }
}

/// The step after a stream was switched to non-blocking reads: standard
/// error follows standard output, and once both drains are going the drain
/// of standard output is awaited. A stream that cannot be switched cannot be
/// drained.
pub open spec fn after_switch(
    stream: Stream,
    switched: Result<(), std::io::Error>,
) -> ExecStepView {
    match switched {
        Ok(()) => match stream {
            Stream::Stdout => ExecStepView::Unblock(Stream::Stderr),
            Stream::Stderr => ExecStepView::Join(
                JoinView { stream: Stream::Stdout, stdout: Seq::empty() },
            ),
        },
        Err(cause) => ExecStepView::Done(Err(ExecErrorView::DrainFailed(stream, cause))),
    }
}

/// The step after a drain has ended: the drain of standard error is awaited
/// after that of standard output, and the exit after both. A drain that
/// failed ends the command, and what the other stream brought is dropped.
pub open spec fn after_drain(join: JoinView, outcome: ReadView) -> ExecStepView {
    match outcome {
        Ok(bytes) => match join.stream {
            Stream::Stdout => ExecStepView::Join(
                JoinView { stream: Stream::Stderr, stdout: bytes },
            ),
            Stream::Stderr => ExecStepView::Wait(WaitView { stdout: join.stdout, stderr: bytes }),
        },
        Err(cause) => ExecStepView::Done(Err(ExecErrorView::DrainFailed(join.stream, cause))),
    }
}

/// The output of a command whose process has ended.
pub open spec fn finished(wait: WaitView, success: bool) -> OutputView {
    OutputView { success, stdout: wait.stdout, stderr: wait.stderr }
}

/// The end of a command whose exit was awaited.
pub open spec fn after_exit(
    wait: WaitView,
    exit: Result<portable_pty::ExitStatus, std::io::Error>,
) -> Result<OutputView, ExecErrorView> {
    match exit {
        Ok(status) => Ok(finished(wait, exit_succeeded(status))),
        Err(cause) => Err(ExecErrorView::WaitFailed(cause)),
    }
}

/// The steps come in one order only: a step either ends the command or is
/// followed by the next of start, switch of standard output, switch of
/// standard error, drain of standard output, drain of standard error, wait.
/// So both drains are going before either is awaited, and the exit is
/// awaited after both have ended.
pub proof fn lemma_steps_come_in_one_order(
    started: Result<(), Seq<char>>,
    switched: Result<(), std::io::Error>,
    join: JoinView,
    outcome: ReadView,
)
    ensures
        after_start(started) is Done || after_start(started) == ExecStepView::Unblock(
            Stream::Stdout,
        ),
        after_switch(Stream::Stdout, switched) is Done || after_switch(Stream::Stdout, switched)
            == ExecStepView::Unblock(Stream::Stderr),
        after_switch(Stream::Stderr, switched) is Done || after_switch(Stream::Stderr, switched)
            == ExecStepView::Join(JoinView { stream: Stream::Stdout, stdout: Seq::empty() }),
        join.stream == Stream::Stdout ==> after_drain(join, outcome) is Done || (after_drain(
            join,
            outcome,
        ) matches ExecStepView::Join(next) && next.stream == Stream::Stderr),
        join.stream == Stream::Stderr ==> after_drain(join, outcome) is Done || after_drain(
            join,
            outcome,
        ) is Wait,
{
}

impl Launch {
    /// Takes the session's answer: started, or the reason why not.
    pub fn on_start(self, started: Result<(), String>) -> (step: ExecStep)
        ensures
            step@ == after_start(
                match started {
                    Ok(()) => Ok(()),
                    Err(reason) => Err(reason@),
                },
            ),
    {
        match started {
            Ok(()) => ExecStep::Unblock(Unblock { stream: Stream::Stdout }),
            Err(reason) => ExecStep::Done(Err(ExecError::StartFailed(reason))),
        }
    }
}

impl Unblock {
    /// The stream to switch.
    pub fn stream(&self) -> (stream: Stream)
        ensures
            stream == self@,
    {
        self.stream
    }

    /// Takes the result of switching the stream.
    pub fn on_switched(self, switched: Result<(), std::io::Error>) -> (step: ExecStep)
        ensures
            step@ == after_switch(self@, switched),
    {
        match switched {
            Ok(()) => match self.stream {
                Stream::Stdout => ExecStep::Unblock(Unblock { stream: Stream::Stderr }),
                Stream::Stderr => ExecStep::Join(
                    Join { stream: Stream::Stdout, stdout: Vec::new() },
                ),
            },
            Err(cause) => ExecStep::Done(Err(ExecError::DrainFailed(self.stream, cause))),
        }
    }
}

impl Join {
    /// The stream whose drain to await.
    pub fn stream(&self) -> (stream: Stream)
        ensures
            stream == self@.stream,
    {
        self.stream
    }

    /// Takes the outcome of the drain.
    pub fn on_drained(self, outcome: DrainOutcome) -> (step: ExecStep)
        ensures
            step@ == after_drain(self@, outcome_view(outcome)),
    {
        match outcome {
            Ok(bytes) => match self.stream {
                Stream::Stdout => ExecStep::Join(Join { stream: Stream::Stderr, stdout: bytes }),
                Stream::Stderr => ExecStep::Wait(Wait { stdout: self.stdout, stderr: bytes }),
            },
            Err(cause) => ExecStep::Done(Err(ExecError::DrainFailed(self.stream, cause))),
        }
    }
}

impl Wait {
    /// The output of the command, given whether its process succeeded.
    pub fn finish(self, success: bool) -> (output: Output)
        ensures
            output@ == finished(self@, success),
    {
        Output { success, stdout: self.stdout, stderr: self.stderr }
    }

    /// Takes the exit status of the process, or the error of waiting for it.
    pub fn on_exit(self, exit: Result<portable_pty::ExitStatus, std::io::Error>) -> (result: Result<
        Output,
        ExecError,
    >)
        ensures
            result_view(result) == after_exit(self@, exit),
    {
        match exit {
            Ok(status) => {
                let success = status.success();
                Ok(self.finish(success))
            },
            Err(cause) => Err(ExecError::WaitFailed(cause)),
        }
    }
}

/// What one stream of a recorded process did.
#[derive(Debug)]
pub struct StreamRecording {
    /// Whether the stream could be switched to non-blocking reads.
    pub switch: Result<(), std::io::Error>,
    /// What its reads returned, in order; after the last one the stream has
    /// ended.
    pub reads: Vec<RecordedRead>,
}

/// A recorded stream as plain values.
pub struct StreamRecordingView {
    pub switch: Result<(), std::io::Error>,
    pub reads: Seq<ReadView>,
}

impl View for StreamRecording {
    type V = StreamRecordingView;

    open spec fn view(&self) -> StreamRecordingView {
        StreamRecordingView { switch: self.switch, reads: recording_view(self.reads@) }
    }
}

/// What a recorded process did, from the request to start it to its exit.
#[derive(Debug)]
pub struct ProcessRecording {
    /// Whether the session started the command, or why not.
    pub start: Result<(), String>,
    /// Its standard output.
    pub stdout: StreamRecording,
    /// Its standard error.
    pub stderr: StreamRecording,
    /// The code it exited with, or the error of waiting for it.
    pub exit: Result<u32, std::io::Error>,
}

/// A recorded process as plain values.
pub struct ProcessRecordingView {
    pub start: Result<(), Seq<char>>,
    pub stdout: StreamRecordingView,
    pub stderr: StreamRecordingView,
    pub exit: Result<u32, std::io::Error>,
}

impl View for ProcessRecording {
    type V = ProcessRecordingView;

    open spec fn view(&self) -> ProcessRecordingView {
        ProcessRecordingView {
            start: match self.start {
                Ok(()) => Ok(()),
                Err(reason) => Err(reason@),
            },
            stdout: self.stdout@,
            stderr: self.stderr@,
            exit: self.exit,
        }
    }
}

/// What running a recorded process yields. The first thing to go wrong
/// decides the error: the start, the switch of standard output, the switch
/// of standard error, the drain of standard output, the drain of standard
/// error, the wait. With nothing wrong, the output holds what each stream
/// brought up to its end, and succeeds exactly when the exit code is zero.
pub open spec fn executed(process: ProcessRecordingView) -> Result<OutputView, ExecErrorView> {
    match process.start {
        Err(reason) => Err(ExecErrorView::StartFailed(reason)),
        Ok(()) => match process.stdout.switch {
            Err(cause) => Err(ExecErrorView::DrainFailed(Stream::Stdout, cause)),
            Ok(()) => match process.stderr.switch {
                Err(cause) => Err(ExecErrorView::DrainFailed(Stream::Stderr, cause)),
                Ok(()) => match drained(process.stdout.reads).outcome {
                    Err(cause) => Err(ExecErrorView::DrainFailed(Stream::Stdout, cause)),
                    Ok(stdout) => match drained(process.stderr.reads).outcome {
                        Err(cause) => Err(ExecErrorView::DrainFailed(Stream::Stderr, cause)),
                        Ok(stderr) => match process.exit {
                            Err(cause) => Err(ExecErrorView::WaitFailed(cause)),
                            Ok(code) => Ok(OutputView { success: code == 0, stdout, stderr }),
                        },
                    },
                },
            },
        },
    }
}

/// Runs a recorded process through the steps of a command, draining each of
/// its streams with a fresh drainer.
pub fn execute_cmd(process: ProcessRecording) -> (result: Result<Output, ExecError>)
    ensures
        result_view(result) == executed(process@),
{
    let ProcessRecording { start, stdout, stderr, exit } = process;
    let unblock = match Launch.on_start(start) {
        ExecStep::Unblock(unblock) => unblock,
        ExecStep::Done(result) => {
            return result;
        },
        _ => unreached(),
    };
    let unblock = match unblock.on_switched(stdout.switch) {
        ExecStep::Unblock(unblock) => unblock,
        ExecStep::Done(result) => {
            return result;
        },
        _ => unreached(),
    };
    let join = match unblock.on_switched(stderr.switch) {
        ExecStep::Join(join) => join,
        ExecStep::Done(result) => {
            return result;
        },
        _ => unreached(),
    };
    let join = match join.on_drained(drain(stdout.reads).outcome) {
        ExecStep::Join(join) => join,
        ExecStep::Done(result) => {
            return result;
        },
        _ => unreached(),
    };
    let wait = match join.on_drained(drain(stderr.reads).outcome) {
        ExecStep::Wait(wait) => wait,
        ExecStep::Done(result) => {
            return result;
        },
        _ => unreached(),
    };
    wait.on_exit(
        match exit {
            Ok(code) => Ok(portable_pty::ExitStatus::with_exit_code(code)),
            Err(cause) => Err(cause),
        },
    )
}

/// Nothing is lost, however much is written: when nothing goes wrong and
/// each stream only ever brings bytes or would block before it ends, the
/// output holds every byte of either stream, in order.
pub proof fn lemma_clean_run_captures_all(process: ProcessRecordingView, code: u32)
    requires
        process.start is Ok,
        process.stdout.switch is Ok,
        process.stderr.switch is Ok,
        forall|i: int|
            0 <= i < process.stdout.reads.len() ==> keeps_open(#[trigger] process.stdout.reads[i]),
        forall|i: int|
            0 <= i < process.stderr.reads.len() ==> keeps_open(#[trigger] process.stderr.reads[i]),
        process.exit == Ok::<u32, std::io::Error>(code),
    ensures
        executed(process) == Ok::<OutputView, ExecErrorView>(
            OutputView {
                success: code == 0,
                stdout: payload(process.stdout.reads),
                stderr: payload(process.stderr.reads),
            },
        ),
{
    lemma_drain_captures_all(process.stdout.reads);
    lemma_drain_captures_all(process.stderr.reads);
}

/// An output is never a partial capture, and neither stream bears on the
/// other: whenever a command yields an output, its two parts are what the
/// drain of each stream alone yields, and both drains reached the end.
pub proof fn lemma_output_is_each_streams_own(process: ProcessRecordingView)
    requires
        executed(process) is Ok,
    ensures
        drained(process.stdout.reads).outcome == Ok::<Seq<u8>, std::io::Error>(
            executed(process)->Ok_0.stdout,
        ),
        drained(process.stderr.reads).outcome == Ok::<Seq<u8>, std::io::Error>(
            executed(process)->Ok_0.stderr,
        ),
        process.exit is Ok,
        executed(process)->Ok_0.success == (process.exit->Ok_0 == 0),
{
}

} // verus!
