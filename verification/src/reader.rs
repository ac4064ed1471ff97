//! The frame reader: reassembles lines from chunks of the byte stream and
//! turns every valid frame into a sample.

use vstd::prelude::*;
use vstd::std_specs::iter::IteratorSpec;
use vstd::utf8::encode_utf8;
use crate::connection::Connection;
use crate::decimal::integer_text;
use crate::frame::{channel_field, frame_of, frame_text, lemma_five_integers_are_a_frame,
    lemma_malformed_line_is_no_frame, lemma_written_frame_reads_back, parse_frame};
use crate::platform::{decode_lossy, decoded_text, lemma_encoded_text_decodes};
use crate::sample::{sample_views, RawSample, SampleView};
use crate::text::{lemma_split_nonempty, lemma_split_pieces_clean, lemma_split_without_separator,
    optional_text, split, trimmed};

verus! {

/// The most bytes taken from the device in one read.
pub const READ_CAPACITY: usize = 1024;

/// The pause at the end of every turn of the worker, in milliseconds.
pub const IDLE_INTERVAL_MS: u64 = 10;

/// The lines of `text` that are terminated by a line feed, in order.
pub open spec fn complete_lines(text: Seq<char>) -> Seq<Seq<char>> {
    split(text, '\n').drop_last()
}

/// What follows the last line feed of `text`: the beginning of a line whose
/// end has not arrived yet.
pub open spec fn partial_line(text: Seq<char>) -> Seq<char> {
    split(text, '\n').last()
}

/// The samples carried by `lines`, in order; lines that are not valid frames
/// contribute nothing.
pub open spec fn samples_of(lines: Seq<Seq<char>>, host_ms: int) -> Seq<SampleView>
    decreases lines.len(),
{
    if lines.len() == 0 {
        Seq::empty()
    } else {
        let head = samples_of(lines.drop_last(), host_ms);
        match frame_of(lines.last(), host_ms) {
            Some(sample) => head.push(sample),
            None => head,
        }
    }
}

/// Where a reader stands in its life.
#[derive(Clone, Copy, Debug, PartialEq, Eq, Structural)]
pub enum ReaderState {
    /// Reading from the device.
    Running,
    /// Connected, but not reading until resumed.
    Paused,
    /// Finished for good: the connection went away or a read failed.
    Stopped,
}

/// What the worker does next.
#[derive(Clone, Copy, Debug, PartialEq, Eq, Structural)]
pub enum ReaderAction {
    /// Attempt one read of at most `capacity` bytes with the timeout the
    /// device was opened with, report its outcome, then pause for `pause_ms`
    /// milliseconds.
    Read { capacity: usize, pause_ms: u64 },
    /// Pause for `pause_ms` milliseconds and look at the connection again.
    Idle { pause_ms: u64 },
    /// Leave the loop.
    Exit,
}

/// How one read attempt on the device ended.
pub enum ReadOutcome {
    /// Bytes arrived.
    Data(Vec<u8>),
    /// Nothing arrived within the timeout; an ordinary quiet period.
    TimedOut,
    /// The device failed with the given reason.
    Failed(String),
}

/// What the reader hands back for one read outcome.
pub struct ReaderOutput {
    /// The samples of the frames completed by this outcome, in stream order.
    pub samples: Vec<RawSample>,
    /// The failure to report, present only when this outcome stopped the reader.
    pub error: Option<String>,
}

/// The mathematical content of a [`FrameReader`].
pub struct ReaderView {
    pub state: ReaderState,
    pub pending: Seq<char>,
}

/// The state a reader moves to on seeing the connection flags.
pub open spec fn observed_state(state: ReaderState, connected: bool, reading_active: bool)
    -> ReaderState {
    if state == ReaderState::Stopped || !connected {
        ReaderState::Stopped
    } else if reading_active {
        ReaderState::Running
    } else {
        ReaderState::Paused
    }
}

/// What the worker does in a given state: a running reader reads in chunks
/// of 1024 bytes, and every turn of the loop ends with a pause of 10
/// milliseconds, so that neither the device nor the processor is hogged and
/// a paused reader still notices promptly when it is resumed.
pub open spec fn action_in(state: ReaderState) -> ReaderAction {
    match state {
        ReaderState::Running => ReaderAction::Read {
            capacity: READ_CAPACITY,
            pause_ms: IDLE_INTERVAL_MS,
        },
        ReaderState::Paused => ReaderAction::Idle { pause_ms: IDLE_INTERVAL_MS },
        ReaderState::Stopped => ReaderAction::Exit,
    }
}

/// The prefix put before the reason of a failed read.
pub open spec fn read_error_prefix() -> Seq<char> {
    "Read error: "@
}

/// The effect of one read outcome on a reader.
pub struct StepView {
    pub reader: ReaderView,
    pub samples: Seq<SampleView>,
    pub error: Option<Seq<char>>,
}

/// What a read outcome does to a reader stamping frames with `host_ms`.
///
/// Only a running reader reacts. Data extends the line in progress and
/// yields the samples of the lines it completes; a timeout changes nothing;
/// a failure stops the reader and is reported with its reason.
pub open spec fn step_of(reader: ReaderView, outcome: ReadOutcome, host_ms: int) -> StepView {
    if reader.state != ReaderState::Running {
        StepView { reader, samples: Seq::empty(), error: None }
    } else {
        match outcome {
            ReadOutcome::Data(bytes) => {
                let buffered = reader.pending + decoded_text(bytes@);
                StepView {
                    reader: ReaderView {
                        state: ReaderState::Running,
                        pending: partial_line(buffered),
                    },
                    samples: samples_of(complete_lines(buffered), host_ms),
                    error: None,
                }
            },
            ReadOutcome::TimedOut => StepView { reader, samples: Seq::empty(), error: None },
            ReadOutcome::Failed(reason) => StepView {
                reader: ReaderView { state: ReaderState::Stopped, pending: reader.pending },
                samples: Seq::empty(),
                error: Some(read_error_prefix() + reason@),
            },
        }
    }
}

/// Reassembles frames from the chunks that successive reads deliver.
pub struct FrameReader {
    state: ReaderState,
    pending: Vec<char>,
}

impl View for FrameReader {
    type V = ReaderView;

    closed spec fn view(&self) -> ReaderView {
        ReaderView { state: self.state, pending: self.pending@ }
    }
}

impl FrameReader {
    #[verifier::type_invariant]
    spec fn line_in_progress(&self) -> bool {
        !self.pending@.contains('\n')
    }

    /// A reader at the start of a connection: running, with nothing buffered.
    pub fn new() -> (reader: FrameReader)
        ensures
            reader@.state == ReaderState::Running,
            reader@.pending == Seq::<char>::empty(),
    {
        FrameReader { state: ReaderState::Running, pending: Vec::new() }
    }

    /// The current state.
    pub fn state(&self) -> (state: ReaderState)
        ensures
            state == self@.state,
    {
        self.state
    }

    /// The number of characters buffered for the line in progress.
    pub fn pending_len(&self) -> (n: usize)
        ensures
            n == self@.pending.len(),
            !self@.pending.contains('\n'),
    {
        proof {
            use_type_invariant(self);
        }
        self.pending.len()
    }

    /// Brings the reader in line with the connection flags and says what the
    /// worker does next. A stopped reader stays stopped.
    pub fn observe(&mut self, connected: bool, reading_active: bool) -> (action: ReaderAction)
        ensures
            final(self)@.state == observed_state(old(self)@.state, connected, reading_active),
            final(self)@.pending == old(self)@.pending,
            action == action_in(final(self)@.state),
    {
        proof {
            use_type_invariant(&*self);
        }
        if self.state == ReaderState::Stopped || !connected {
            self.state = ReaderState::Stopped;
            ReaderAction::Exit
        } else if reading_active {
            self.state = ReaderState::Running;
            ReaderAction::Read { capacity: READ_CAPACITY, pause_ms: IDLE_INTERVAL_MS }
        } else {
            self.state = ReaderState::Paused;
            ReaderAction::Idle { pause_ms: IDLE_INTERVAL_MS }
        }
    }

    /// Takes in decoded text: appends it to the line in progress, emits the
    /// sample of every line the text completes, and keeps what follows the
    /// last line feed for later.
    pub fn ingest_text(&mut self, text: &str, host_ms: i64) -> (samples: Vec<RawSample>)
        ensures
            sample_views(samples@) == samples_of(
                complete_lines(old(self)@.pending + text@),
                host_ms as int,
            ),
            final(self)@.pending == partial_line(old(self)@.pending + text@),
            final(self)@.state == old(self)@.state,
    {
        broadcast use vstd::string::group_string_axioms;

        proof {
            use_type_invariant(&*self);
            lemma_split_without_separator(self.pending@, '\n');
            assert(text@.take(0) =~= Seq::<char>::empty());
            assert(self.pending@ + Seq::<char>::empty() =~= self.pending@);
        }
        let mut samples: Vec<RawSample> = Vec::new();
        let mut line: Vec<char> = self.pending.clone();
        let ghost before = self.pending@;
        let ghost lines: Seq<Seq<char>> = Seq::empty();
        assert(line@ =~= before);
        let chars = text.chars();
        for c in it: chars
            invariant
                it.seq() == text@,
                !line@.contains('\n'),
                split(before + text@.take(it.index()), '\n') == lines.push(line@),
                sample_views(samples@) == samples_of(lines, host_ms as int),
        {
            proof {
                let grown = before + text@.take(it.index() + 1);
                assert(grown.drop_last() =~= before + text@.take(it.index()));
                assert(grown.last() == c);
            }
            if c == '\n' {
                let parsed = parse_frame(line.as_slice(), host_ms);
                proof {
                    let longer = lines.push(line@);
                    assert(longer.drop_last() =~= lines);
                    assert(longer.last() == line@);
                    lines = longer;
                }
                match parsed {
                    Some(sample) => {
                        let ghost earlier = samples@;
                        samples.push(sample);
                        proof {
                            assert(sample_views(samples@) =~= sample_views(earlier).push(sample@));
                        }
                    },
                    None => {},
                }
                line.clear();
                proof {
                    assert(!Seq::<char>::empty().contains('\n'));
                }
            } else {
                let ghost shorter = line@;
                line.push(c);
                proof {
                    assert(lines.push(shorter).update(lines.len() as int, shorter.push(c))
                        =~= lines.push(line@));
                    if line@.contains('\n') {
                        let i = choose|i: int| 0 <= i < line@.len() && line@[i] == '\n';
                        assert(shorter[i] == '\n');
                    }
                }
            }
        }
        proof {
            assert(text@.take(text@.len() as int) =~= text@);
            assert(lines.push(line@).drop_last() =~= lines);
        }
        self.pending = line;
        samples
    }

    /// Takes in one chunk of the byte stream. The bytes are decoded
    /// permissively, so malformed input is never fatal, and then handled as
    /// [`FrameReader::ingest_text`] handles text.
    pub fn ingest(&mut self, bytes: &[u8], host_ms: i64) -> (samples: Vec<RawSample>)
        ensures
            sample_views(samples@) == samples_of(
                complete_lines(old(self)@.pending + decoded_text(bytes@)),
                host_ms as int,
            ),
            final(self)@.pending == partial_line(old(self)@.pending + decoded_text(bytes@)),
            final(self)@.state == old(self)@.state,
    {
        let text = decode_lossy(bytes);
        self.ingest_text(text.as_str(), host_ms)
    }

    /// Handles the outcome of one read attempt on behalf of `connection`:
    /// the reader reacts as [`FrameReader::accept`] says, and a failure that
    /// stops the reader also closes the connection, so that the device is
    /// not touched again until the caller reconnects. Any other outcome
    /// leaves the connection as it is.
    pub fn accept_for(
        &mut self,
        connection: &mut Connection,
        outcome: ReadOutcome,
        host_ms: i64,
    ) -> (out: ReaderOutput)
        ensures
            final(self)@ == step_of(old(self)@, outcome, host_ms as int).reader,
            sample_views(out.samples@) == step_of(old(self)@, outcome, host_ms as int).samples,
            optional_text(out.error) == step_of(old(self)@, outcome, host_ms as int).error,
            final(connection)@ == if out.error is Some {
                old(connection)@.closed()
            } else {
                old(connection)@
            },
    {
        let out = self.accept(outcome, host_ms);
        if out.error.is_some() {
            connection.close();
        }
        out
    }

    /// Handles the outcome of one read attempt, as [`step_of`] describes.
    pub fn accept(&mut self, outcome: ReadOutcome, host_ms: i64) -> (out: ReaderOutput)
        ensures
            final(self)@ == step_of(old(self)@, outcome, host_ms as int).reader,
            sample_views(out.samples@) == step_of(old(self)@, outcome, host_ms as int).samples,
            optional_text(out.error) == step_of(old(self)@, outcome, host_ms as int).error,
    {
        proof {
            use_type_invariant(&*self);
        }
        if self.state != ReaderState::Running {
            let out = ReaderOutput { samples: Vec::new(), error: None };
            assert(sample_views(out.samples@) =~= Seq::<SampleView>::empty());
            return out;
        }
        match outcome {
            ReadOutcome::Data(bytes) => {
                let samples = self.ingest(bytes.as_slice(), host_ms);
                ReaderOutput { samples, error: None }
            },
            ReadOutcome::TimedOut => {
                let out = ReaderOutput { samples: Vec::new(), error: None };
                assert(sample_views(out.samples@) =~= Seq::<SampleView>::empty());
                out
            },
            ReadOutcome::Failed(reason) => {
                self.state = ReaderState::Stopped;
                let mut message = String::new();
                message.append("Read error: ");
                message.append(reason.as_str());
                let out = ReaderOutput { samples: Vec::new(), error: Some(message) };
                assert(sample_views(out.samples@) =~= Seq::<SampleView>::empty());
                assert(message@ =~= read_error_prefix() + reason@);
                out
            },
        }
    }
}

/// A single line yields the sample of its frame, or nothing when it is not
/// a frame.
proof fn lemma_samples_of_one_line(line: Seq<char>, host_ms: int)
    ensures
        samples_of(seq![line], host_ms) == match frame_of(line, host_ms) {
            Some(sample) => seq![sample],
            None => Seq::<SampleView>::empty(),
        },
{
    let lines = seq![line];
    assert(lines.drop_last() =~= Seq::<Seq<char>>::empty());
    assert(samples_of(lines.drop_last(), host_ms) =~= Seq::<SampleView>::empty());
    assert(lines.last() == line);
    match frame_of(line, host_ms) {
        Some(sample) => {
            assert(Seq::<SampleView>::empty().push(sample) =~= seq![sample]);
        },
        None => {},
    }
}

/// A line followed by its line feed is one complete line, with nothing left
/// over.
pub proof fn lemma_terminated_line(line: Seq<char>)
    requires
        !line.contains('\n'),
    ensures
        complete_lines(line.push('\n')) == seq![line],
        partial_line(line.push('\n')) == Seq::<char>::empty(),
{
    lemma_split_without_separator(line, '\n');
    assert(line.push('\n').drop_last() =~= line);
    assert(seq![line].push(Seq::<char>::empty()).drop_last() =~= seq![line]);
}

/// Every valid line of five integer fields, terminated by a line feed,
/// yields exactly one sample, whose channels are the integers in field order.
pub proof fn lemma_valid_line_yields_one_sample(line: Seq<char>, host_ms: int)
    requires
        !line.contains('\n'),
        split(trimmed(line), ',').len() == 5,
        forall|i: int| 0 <= i < 5 ==> channel_field(#[trigger] split(trimmed(line), ',')[i]) is Some,
    ensures
        samples_of(complete_lines(line.push('\n')), host_ms) == seq![
            SampleView {
                timestamp: host_ms,
                channels: Seq::new(5, |i: int| channel_field(split(trimmed(line), ',')[i])->0),
            },
        ],
        partial_line(line.push('\n')) == Seq::<char>::empty(),
{
    lemma_terminated_line(line);
    lemma_five_integers_are_a_frame(line, host_ms);
    lemma_samples_of_one_line(line, host_ms);
}

/// Whatever five 32-bit readings the device writes as a frame, the reader
/// turns the frame into exactly one sample with those readings.
pub proof fn lemma_written_frame_yields_its_sample(channels: Seq<int>, host_ms: int)
    requires
        channels.len() == 5,
        forall|i: int| 0 <= i < 5 ==> i32::MIN <= #[trigger] channels[i] <= i32::MAX,
    ensures
        samples_of(complete_lines(frame_text(channels).push('\n')), host_ms) == seq![
            SampleView { timestamp: host_ms, channels },
        ],
        partial_line(frame_text(channels).push('\n')) == Seq::<char>::empty(),
{
    let line = frame_text(channels);
    lemma_written_frame_reads_back(channels, host_ms);
    lemma_terminated_line(line);
    lemma_samples_of_one_line(line, host_ms);
}

/// The same holds of the bytes on the wire: the UTF-8 encoding of a written
/// frame decodes to the frame and yields its sample.
pub proof fn lemma_frame_bytes_yield_sample(channels: Seq<int>, host_ms: int)
    requires
        channels.len() == 5,
        forall|i: int| 0 <= i < 5 ==> i32::MIN <= #[trigger] channels[i] <= i32::MAX,
    ensures
        samples_of(
            complete_lines(decoded_text(encode_utf8(frame_text(channels).push('\n')))),
            host_ms,
        ) == seq![SampleView { timestamp: host_ms, channels }],
{
    lemma_encoded_text_decodes(frame_text(channels).push('\n'));
    lemma_written_frame_yields_its_sample(channels, host_ms);
}

/// A line with the wrong number of fields, or with a field that is not an
/// integer, yields no sample.
pub proof fn lemma_malformed_line_yields_nothing(line: Seq<char>, host_ms: int)
    requires
        !line.contains('\n'),
        ({
            let fields = split(trimmed(line), ',');
            ||| fields.len() != 5 && fields.len() != 6
            ||| exists|i: int| 0 <= i < fields.len() && integer_text(#[trigger] fields[i]) is None
        }),
    ensures
        samples_of(complete_lines(line.push('\n')), host_ms) == Seq::<SampleView>::empty(),
        partial_line(line.push('\n')) == Seq::<char>::empty(),
{
    lemma_terminated_line(line);
    lemma_malformed_line_is_no_frame(line, host_ms);
    lemma_samples_of_one_line(line, host_ms);
}

/// Text without a line feed completes no line: it yields no sample and only
/// extends the line in progress.
pub proof fn lemma_partial_text_is_kept(pending: Seq<char>, text: Seq<char>, host_ms: int)
    requires
        !pending.contains('\n'),
        !text.contains('\n'),
    ensures
        samples_of(complete_lines(pending + text), host_ms) == Seq::<SampleView>::empty(),
        partial_line(pending + text) == pending + text,
{
    let whole = pending + text;
    if whole.contains('\n') {
        let i = choose|i: int| 0 <= i < whole.len() && whole[i] == '\n';
        if i < pending.len() {
            assert(pending[i] == '\n');
        } else {
            assert(text[i - pending.len()] == '\n');
        }
    }
    lemma_split_without_separator(whole, '\n');
    assert(seq![whole].drop_last() =~= Seq::<Seq<char>>::empty());
}

/// The samples of two runs of lines are those of the first run followed by
/// those of the second.
pub proof fn lemma_samples_of_concat(first: Seq<Seq<char>>, second: Seq<Seq<char>>, host_ms: int)
    ensures
        samples_of(first + second, host_ms) == samples_of(first, host_ms) + samples_of(
            second,
            host_ms,
        ),
    decreases second.len(),
{
    if second.len() == 0 {
        assert(first + second =~= first);
        assert(samples_of(first, host_ms) + samples_of(second, host_ms) =~= samples_of(
            first,
            host_ms,
        ));
    } else {
        lemma_samples_of_concat(first, second.drop_last(), host_ms);
        assert((first + second).drop_last() =~= first + second.drop_last());
        assert((first + second).last() == second.last());
        let head = samples_of(first, host_ms) + samples_of(second.drop_last(), host_ms);
        match frame_of(second.last(), host_ms) {
            Some(sample) => {
                assert(head.push(sample) =~= samples_of(first, host_ms) + samples_of(
                    second.drop_last(),
                    host_ms,
                ).push(sample));
            },
            None => {},
        }
    }
}

/// Where the stream is cut into chunks does not matter to its lines: the
/// lines completed by `head + tail` are those completed by `head`, followed
/// by those that `tail` completes after the line `head` left in progress.
pub proof fn lemma_lines_across_chunks(head: Seq<char>, tail: Seq<char>)
    ensures
        complete_lines(head + tail) == complete_lines(head) + complete_lines(
            partial_line(head) + tail,
        ),
        partial_line(head + tail) == partial_line(partial_line(head) + tail),
    decreases tail.len(),
{
    let rest = partial_line(head);
    lemma_split_nonempty(head, '\n');
    lemma_split_nonempty(head + tail, '\n');
    lemma_split_nonempty(rest + tail, '\n');
    if tail.len() == 0 {
        assert(head + tail =~= head);
        assert(rest + tail =~= rest);
        lemma_split_pieces_clean(head, '\n', split(head, '\n').len() - 1);
        lemma_split_without_separator(rest, '\n');
        assert(complete_lines(rest) =~= Seq::<Seq<char>>::empty());
        assert(complete_lines(head) + complete_lines(rest) =~= complete_lines(head));
    } else {
        let shorter = tail.drop_last();
        lemma_lines_across_chunks(head, shorter);
        lemma_split_nonempty(head + shorter, '\n');
        lemma_split_nonempty(rest + shorter, '\n');
        assert((head + tail).drop_last() =~= head + shorter);
        assert((rest + tail).drop_last() =~= rest + shorter);
        assert((head + tail).last() == tail.last());
        assert((rest + tail).last() == tail.last());
        let whole = split(head + shorter, '\n');
        let part = split(rest + shorter, '\n');
        if tail.last() == '\n' {
            assert(whole.push(Seq::<char>::empty()).drop_last() =~= whole);
            assert(part.push(Seq::<char>::empty()).drop_last() =~= part);
            assert(whole =~= whole.drop_last().push(whole.last()));
            assert(part =~= part.drop_last().push(part.last()));
            assert(complete_lines(head + tail) =~= complete_lines(head) + complete_lines(
                rest + tail,
            ));
        } else {
            let grown = whole.last().push(tail.last());
            assert(whole.update(whole.len() - 1, grown).drop_last() =~= whole.drop_last());
            assert(part.update(part.len() - 1, grown).drop_last() =~= part.drop_last());
        }
    }
}

/// Feeding a stream in two chunks gives the samples, and leaves the line in
/// progress, that feeding it in one piece gives: a frame cut in two by a
/// read is put together again.
pub proof fn lemma_chunking_is_transparent(
    pending: Seq<char>,
    first: Seq<char>,
    second: Seq<char>,
    host_ms: int,
)
    ensures
        samples_of(complete_lines(pending + first), host_ms) + samples_of(
            complete_lines(partial_line(pending + first) + second),
            host_ms,
        ) == samples_of(complete_lines(pending + first + second), host_ms),
        partial_line(partial_line(pending + first) + second) == partial_line(
            pending + first + second,
        ),
{
    lemma_lines_across_chunks(pending + first, second);
    lemma_samples_of_concat(
        complete_lines(pending + first),
        complete_lines(partial_line(pending + first) + second),
        host_ms,
    );
}

/// A stopped reader stays stopped, whatever the connection flags say.
pub proof fn lemma_stopped_is_terminal(connected: bool, reading_active: bool)
    ensures
        observed_state(ReaderState::Stopped, connected, reading_active) == ReaderState::Stopped,
        action_in(ReaderState::Stopped) == ReaderAction::Exit,
{
}

/// Only a failed read stops a reader or raises an error: data, however
/// malformed, and timeouts leave the state as it was and report nothing.
/// The failure is reported by the step that stops the reader and by no
/// later one.
pub proof fn lemma_only_failure_stops(reader: ReaderView, outcome: ReadOutcome, host_ms: int)
    ensures
        !(outcome is Failed) ==> {
            &&& step_of(reader, outcome, host_ms).reader.state == reader.state
            &&& step_of(reader, outcome, host_ms).error is None
        },
        step_of(reader, outcome, host_ms).error is Some <==> reader.state == ReaderState::Running
            && outcome is Failed,
        step_of(reader, outcome, host_ms).error is Some ==> step_of(
            reader,
            outcome,
            host_ms,
        ).reader.state == ReaderState::Stopped,
        reader.state != ReaderState::Running ==> step_of(reader, outcome, host_ms) == (StepView {
            reader,
            samples: Seq::empty(),
            error: None,
        }),
{
}

} // verus!
