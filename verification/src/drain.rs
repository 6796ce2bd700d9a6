//! Draining one non-blocking byte stream into a buffer.
//!
//! The caller owns the stream and the clock. After every read it hands the
//! result to a [`Drainer`], which appends what was read and says what to do
//! next: read again at once, pause and read again, or stop with the outcome.

use vstd::prelude::*;

verus! {

/// Size of the scratch buffer that a caller reads into.
pub const SCRATCH_LEN: usize = 1024;

/// Pause between two reads of a stream that has nothing to give yet.
pub const READER_PAUSE_MILLIS: u64 = 100;

/// `std::io::Error`, the error of a read. Nothing is said of what it is
/// made of; it is handed on as it came.
#[verifier::external_type_specification]
#[verifier::external_body]
pub struct ExIoError(std::io::Error);

/// Whether an I/O error only says that no data is available yet.
pub uninterp spec fn is_would_block(error: std::io::Error) -> bool;

/// Calls `std::io::Error::kind` and tells `ErrorKind::WouldBlock` from every
/// other kind. The answer depends on the error alone.
#[verifier::external_body]
fn would_block(error: &std::io::Error) -> (b: bool)
    ensures
        b == is_would_block(*error),
{
    match error.kind() {
        std::io::ErrorKind::WouldBlock => true,
        _ => false,
    }
}

/// An error of a read, as the drainer tells them apart.
#[derive(Debug)]
pub enum IoError {
    /// The stream is open and has no data at the moment.
    WouldBlock,
    /// Anything else: fatal.
    Other(std::io::Error),
}

/// The class of an error of a read.
pub open spec fn classified(error: std::io::Error) -> IoError {
    if is_would_block(error) {
        IoError::WouldBlock
    } else {
        IoError::Other(error)
    }
}

impl IoError {
    /// Sorts an error of a read into the two classes.
    pub fn classify(error: std::io::Error) -> (class: IoError)
        ensures
            class == classified(error),
    {
        if would_block(&error) {
            IoError::WouldBlock
        } else {
            IoError::Other(error)
        }
    }
}

/// What a completed drain yields: every byte up to the end of the stream, or
/// the error that stopped it.
pub type DrainOutcome = Result<Vec<u8>, std::io::Error>;

/// A read, or the outcome of a drain, as plain values.
pub type ReadView = Result<Seq<u8>, std::io::Error>;

/// The bytes of a read or of an outcome as a sequence.
pub open spec fn outcome_view(outcome: DrainOutcome) -> ReadView {
    match outcome {
        Ok(bytes) => Ok(bytes@),
        Err(error) => Err(error),
    }
}

/// The accumulator of one stream.
#[derive(Debug)]
pub struct Drainer {
    bytes: Vec<u8>,
    pause_millis: u64,
}

/// A drainer as plain values.
pub struct DrainerView {
    pub captured: Seq<u8>,
    pub pause_millis: u64,
}

impl View for Drainer {
    type V = DrainerView;

    closed spec fn view(&self) -> DrainerView {
        DrainerView { captured: self.bytes@, pause_millis: self.pause_millis }
    }
}

/// What the caller does next.
#[derive(Debug)]
pub enum DrainStep {
    /// Read again at once.
    Read(Drainer),
    /// Sleep for the drainer's pause, then read again.
    Pause(Drainer),
    /// Stop: the stream has ended or failed.
    Done(DrainOutcome),
}

/// A step as plain values.
pub enum DrainStepView {
    Read(DrainerView),
    Pause(DrainerView),
    Done(ReadView),
}

impl View for DrainStep {
    type V = DrainStepView;

    open spec fn view(&self) -> DrainStepView {
        match self {
            DrainStep::Read(drainer) => DrainStepView::Read(drainer@),
            DrainStep::Pause(drainer) => DrainStepView::Pause(drainer@),
            DrainStep::Done(outcome) => DrainStepView::Done(outcome_view(*outcome)),
        }
    }
}

/// The step after a read that returned `chunk`: a chunk with bytes in it is
/// appended, an empty one is the end of the stream.
pub open spec fn after_data(drainer: DrainerView, chunk: Seq<u8>) -> DrainStepView {
    if chunk.len() > 0 {
        DrainStepView::Read(DrainerView { captured: drainer.captured + chunk, ..drainer })
    } else {
        DrainStepView::Done(Ok(drainer.captured))
    }
}

/// The step after a read that failed: "would block" asks for a pause, any
/// other error ends the drain and is handed out as it came.
pub open spec fn after_error(drainer: DrainerView, error: IoError) -> DrainStepView {
    match error {
        IoError::WouldBlock => DrainStepView::Pause(drainer),
        IoError::Other(cause) => DrainStepView::Done(Err(cause)),
    }
}

/// The step after any read.
pub open spec fn after_read(drainer: DrainerView, read: ReadView) -> DrainStepView {
    match read {
        Ok(chunk) => after_data(drainer, chunk),
        Err(error) => after_error(drainer, classified(error)),
    }
}

impl Drainer {
    /// A drainer that has captured nothing and pauses for
    /// `READER_PAUSE_MILLIS`.
    pub fn new() -> (drainer: Drainer)
        ensures
            drainer@ == (DrainerView { captured: Seq::empty(), pause_millis: READER_PAUSE_MILLIS }),
    {
        Drainer { bytes: Vec::new(), pause_millis: READER_PAUSE_MILLIS }
    }

    /// A drainer that has captured nothing and pauses for `pause_millis`.
    pub fn with_pause(pause_millis: u64) -> (drainer: Drainer)
        ensures
            drainer@ == (DrainerView { captured: Seq::empty(), pause_millis }),
    {
        Drainer { bytes: Vec::new(), pause_millis }
    }

    /// How long to sleep when told to pause.
    pub fn pause_millis(&self) -> (millis: u64)
        ensures
            millis == self@.pause_millis,
    {
        self.pause_millis
    }

    /// The bytes captured so far.
    pub fn captured(&self) -> (bytes: &[u8])
        ensures
            bytes@ == self@.captured,
    {
        self.bytes.as_slice()
    }

    /// Takes the bytes of a read that succeeded.
    pub fn on_data(self, chunk: &[u8]) -> (step: DrainStep)
        ensures
            step@ == after_data(self@, chunk@),
    {
        if chunk.len() > 0 {
            let mut drainer = self;
            drainer.bytes.extend_from_slice(chunk);
            assert(drainer.bytes@ =~= self.bytes@ + chunk@);
            DrainStep::Read(drainer)
        } else {
            DrainStep::Done(Ok(self.bytes))
        }
    }

    /// Takes the error of a read that failed.
    pub fn on_error(self, error: IoError) -> (step: DrainStep)
        ensures
            step@ == after_error(self@, error),
    {
        match error {
            IoError::WouldBlock => DrainStep::Pause(self),
            IoError::Other(cause) => DrainStep::Done(Err(cause)),
        }
    }

    /// Takes the result of a read: the bytes that it put into the scratch
    /// buffer, or its error.
    pub fn on_read(self, read: Result<&[u8], std::io::Error>) -> (step: DrainStep)
        ensures
            step@ == after_read(
                self@,
                match read {
                    Ok(chunk) => Ok(chunk@),
                    Err(error) => Err(error),
                },
            ),
    {
        match read {
            Ok(chunk) => self.on_data(chunk),
            Err(error) => self.on_error(IoError::classify(error)),
        }
    }
}

/// One read of a recorded stream: the bytes it returned, or its error.
pub type RecordedRead = Result<Vec<u8>, std::io::Error>;

/// A recorded stream as plain values.
pub open spec fn recording_view(recording: Seq<RecordedRead>) -> Seq<ReadView> {
    recording.map_values(|read: RecordedRead| outcome_view(read))
}

/// How far a drain has come through a recording.
pub struct DrainProgress {
    pub drainer: DrainerView,
    pub outcome: Option<ReadView>,
    pub reads: nat,
    pub pauses: nat,
}

/// The progress after one more read.
pub open spec fn advance(before: DrainProgress, read: ReadView) -> DrainProgress {
    match after_read(before.drainer, read) {
        DrainStepView::Read(drainer) => DrainProgress {
            drainer,
            reads: before.reads + 1,
            ..before
        },
        DrainStepView::Pause(drainer) => DrainProgress {
            drainer,
            reads: before.reads + 1,
            pauses: before.pauses + 1,
            ..before
        },
        DrainStepView::Done(outcome) => DrainProgress {
            outcome: Some(outcome),
            reads: before.reads + 1,
            ..before
        },
    }
}

/// The progress of a drain that starts at `start` and is fed the reads of
/// `recording` in order; once the drain is over, nothing more is read.
pub open spec fn progress(start: DrainerView, recording: Seq<ReadView>) -> DrainProgress
    decreases recording.len(),
{
    if recording.len() == 0 {
        DrainProgress { drainer: start, outcome: None, reads: 0, pauses: 0 }
    } else {
        let before = progress(start, recording.drop_last());
        if before.outcome is Some {
            before
        } else {
            advance(before, recording.last())
        }
    }
}

/// The report of a drain over a whole recording.
#[derive(Debug)]
pub struct DrainRun {
    /// All bytes up to the end of the stream, or the error that stopped it.
    pub outcome: DrainOutcome,
    /// How many reads of the recording were made.
    pub reads: usize,
    /// How many pauses were taken.
    pub pauses: usize,
}

/// A report as plain values.
pub struct DrainRunView {
    pub outcome: ReadView,
    pub reads: nat,
    pub pauses: nat,
}

impl View for DrainRun {
    type V = DrainRunView;

    open spec fn view(&self) -> DrainRunView {
        DrainRunView {
            outcome: outcome_view(self.outcome),
            reads: self.reads as nat,
            pauses: self.pauses as nat,
        }
    }
}

/// What draining a recorded stream yields. A recording that runs out has
/// reached the end of the stream.
pub open spec fn drained(recording: Seq<ReadView>) -> DrainRunView {
    let end = progress(
        DrainerView { captured: Seq::empty(), pause_millis: READER_PAUSE_MILLIS },
        recording,
    );
    DrainRunView {
        outcome: match end.outcome {
            Some(outcome) => outcome,
            None => Ok(end.drainer.captured),
        },
        reads: end.reads,
        pauses: end.pauses,
    }
}

/// A drain that is over stays over: what a recording holds after the read
/// that ended the drain changes nothing.
pub proof fn lemma_progress_settles(
    start: DrainerView,
    recording: Seq<ReadView>,
    k: int,
)
    requires
        0 <= k <= recording.len(),
        progress(start, recording.take(k)).outcome is Some,
    ensures
        progress(start, recording) == progress(start, recording.take(k)),
    decreases recording.len(),
{
    if k < recording.len() {
        assert(recording.drop_last().take(k) == recording.take(k));
        lemma_progress_settles(start, recording.drop_last(), k);
    } else {
        assert(recording.take(k) == recording);
    }
}

/// Whether a read leaves the drain running: it brought bytes, or it would
/// have blocked.
pub open spec fn keeps_open(read: ReadView) -> bool {
    match read {
        Ok(chunk) => chunk.len() > 0,
        Err(error) => is_would_block(error),
    }
}

/// The bytes of all reads of a recording, in order.
pub open spec fn payload(recording: Seq<ReadView>) -> Seq<u8>
    decreases recording.len(),
{
    if recording.len() == 0 {
        Seq::empty()
    } else {
        payload(recording.drop_last()) + (match recording.last() {
            Ok(chunk) => chunk,
            Err(_) => Seq::empty(),
        })
    }
}

/// Whether a read would have blocked.
pub open spec fn is_blocked(read: ReadView) -> bool {
    match read {
        Ok(_) => false,
        Err(error) => is_would_block(error),
    }
}

/// The number of reads in a recording that would have blocked.
pub open spec fn blocked(recording: Seq<ReadView>) -> nat
    decreases recording.len(),
{
    if recording.len() == 0 {
        0
    } else {
        blocked(recording.drop_last()) + (if is_blocked(recording.last()) {
            1nat
        } else {
            0nat
        })
    }
}

/// The number of reads at the front of a recording that keep the drain open.
pub open spec fn open_prefix(recording: Seq<ReadView>) -> nat
    decreases recording.len(),
{
    if recording.len() == 0 {
        0
    } else {
        let front = open_prefix(recording.drop_last());
        if front == recording.len() - 1 && keeps_open(recording.last()) {
            recording.len()
        } else {
            front
        }
    }
}

/// The open prefix is a prefix, every read in it keeps the drain open, and
/// the read behind it, if there is one, does not.
pub proof fn lemma_open_prefix(recording: Seq<ReadView>)
    ensures
        open_prefix(recording) <= recording.len(),
        forall|i: int| 0 <= i < open_prefix(recording) ==> keeps_open(#[trigger] recording[i]),
        open_prefix(recording) < recording.len() ==> !keeps_open(
            recording[open_prefix(recording) as int],
        ),
    decreases recording.len(),
{
    if recording.len() > 0 {
        let front = recording.drop_last();
        lemma_open_prefix(front);
        assert forall|i: int| 0 <= i < open_prefix(recording) implies keeps_open(
            #[trigger] recording[i],
        ) by {
            if i < front.len() {
                assert(front[i] == recording[i]);
            }
        }
    }
}

/// While every read keeps the drain open, the drainer holds exactly the bytes
/// read so far, has read everything and has paused once per blocked read.
pub proof fn lemma_progress_while_open(
    start: DrainerView,
    recording: Seq<ReadView>,
)
    requires
        forall|i: int| 0 <= i < recording.len() ==> keeps_open(#[trigger] recording[i]),
    ensures
        progress(start, recording) == (DrainProgress {
            drainer: DrainerView {
                captured: start.captured + payload(recording),
                pause_millis: start.pause_millis,
            },
            outcome: None,
            reads: recording.len(),
            pauses: blocked(recording),
        }),
    decreases recording.len(),
{
    if recording.len() > 0 {
        let front = recording.drop_last();
        lemma_progress_while_open(start, front);
        if let Ok(chunk) = recording.last() {
            assert((start.captured + payload(front)) + chunk == start.captured + (payload(front)
                + chunk));
        }
    }
}

/// Nothing is lost: a stream that only ever brings bytes or would block, and
/// then ends, is captured whole, with one pause for each blocked read.
pub proof fn lemma_drain_captures_all(recording: Seq<ReadView>)
    requires
        forall|i: int| 0 <= i < recording.len() ==> keeps_open(#[trigger] recording[i]),
    ensures
        drained(recording) == (DrainRunView {
            outcome: Ok(payload(recording)),
            reads: recording.len(),
            pauses: blocked(recording),
        }),
{
    let start = DrainerView { captured: Seq::empty(), pause_millis: READER_PAUSE_MILLIS };
    lemma_progress_while_open(start, recording);
}

/// The first read that does not keep the drain open decides the outcome: an
/// empty read yields every byte read before it, an error yields that error
/// and no bytes. Later reads of the recording are never made.
pub proof fn lemma_drain_ends_at(recording: Seq<ReadView>, k: int)
    requires
        0 <= k < recording.len(),
        forall|i: int| 0 <= i < k ==> keeps_open(#[trigger] recording[i]),
        !keeps_open(recording[k]),
    ensures
        drained(recording) == (DrainRunView {
            outcome: match recording[k] {
                Ok(_) => Ok(payload(recording.take(k))),
                Err(error) => Err(error),
            },
            reads: (k + 1) as nat,
            pauses: blocked(recording.take(k)),
        }),
{
    let start = DrainerView { captured: Seq::empty(), pause_millis: READER_PAUSE_MILLIS };
    let front = recording.take(k);
    let upto = recording.take(k + 1);
    lemma_progress_while_open(start, front);
    assert(upto.drop_last() == front);
    lemma_progress_settles(start, recording, k + 1);
}

/// A drain yields all or nothing, whatever the stream does: either every
/// byte up to the end of the stream, or the error that stopped it and no
/// byte. The end of the stream is the first empty read, or the end of the
/// recording; the error is the first one other than "would block".
pub proof fn lemma_drain_is_whole_or_error(recording: Seq<ReadView>)
    ensures
        open_prefix(recording) <= recording.len(),
        drained(recording) == (if open_prefix(recording) == recording.len() {
            DrainRunView {
                outcome: Ok(payload(recording)),
                reads: recording.len(),
                pauses: blocked(recording),
            }
        } else {
            DrainRunView {
                outcome: match recording[open_prefix(recording) as int] {
                    Ok(_) => Ok(payload(recording.take(open_prefix(recording) as int))),
                    Err(error) => Err(error),
                },
                reads: open_prefix(recording) + 1,
                pauses: blocked(recording.take(open_prefix(recording) as int)),
            }
        }),
{
    lemma_open_prefix(recording);
    if open_prefix(recording) == recording.len() {
        lemma_drain_captures_all(recording);
    } else {
        lemma_drain_ends_at(recording, open_prefix(recording) as int);
    }
}

/// Drains a recorded stream: feeds its reads to a fresh drainer, in order,
/// until the drainer stops or the recording runs out.
pub fn drain(recording: Vec<RecordedRead>) -> (run: DrainRun)
    ensures
        run@ == drained(recording_view(recording@)),
{
    let ghost reads_view = recording_view(recording@);
    let ghost start = DrainerView { captured: Seq::empty(), pause_millis: READER_PAUSE_MILLIS };
    let len: usize = recording.len();
    let mut drainer = Drainer::new();
    let mut reads: usize = 0;
    let mut pauses: usize = 0;
    for read in it: recording
        invariant
            it.seq().len() == len,
            reads_view == recording_view(it.seq()),
            reads_view == recording_view(recording@),
            start == (DrainerView { captured: Seq::empty(), pause_millis: READER_PAUSE_MILLIS }),
            progress(start, reads_view.take(it.index() as int)) == (DrainProgress {
                drainer: drainer@,
                outcome: None,
                reads: reads as nat,
                pauses: pauses as nat,
            }),
            reads == it.index(),
            pauses <= reads,
    {
        assert(reads_view.take(it.index() + 1).drop_last() == reads_view.take(it.index() as int));
        let step = match read {
            Ok(bytes) => drainer.on_data(bytes.as_slice()),
            Err(error) => drainer.on_error(IoError::classify(error)),
        };
        reads += 1;
        match step {
            DrainStep::Read(next) => {
                drainer = next;
            },
            DrainStep::Pause(next) => {
                drainer = next;
                pauses += 1;
            },
            DrainStep::Done(outcome) => {
                proof {
                    lemma_progress_settles(start, reads_view, it.index() + 1);
                }
                return DrainRun { outcome, reads, pauses };
            },
        }
    }
    assert(reads_view.take(reads_view.len() as int) == reads_view);
    DrainRun { outcome: Ok(drainer.bytes), reads, pauses }
}

} // verus!
