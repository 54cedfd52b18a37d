//! Recording: cutting the output into chunks of fixed size on the audio side, and
//! what the writer of the sound file does with each message on the disk side.

use crate::single::Single;
use vstd::prelude::*;

verus! {

/// The number of samples in a chunk.
pub const CHUNK_SIZE: usize = 1024;

/// A message from the audio side to the writer of the sound file.
#[derive(Clone, Copy, Debug)]
pub enum RecordMsg {
    /// A recording starts, at this sample rate.
    Start(u32),
    /// The next samples of the recording.
    Audio([Single; CHUNK_SIZE]),
    /// The recording is over.
    Stop,
}

/// The samples of a recording that wait for their chunk to fill up. Its view is the
/// waiting samples.
#[derive(Debug)]
pub struct Recorder {
    rec_buffer: [Single; CHUNK_SIZE],
    rec_idx: usize,
}

impl View for Recorder {
    type V = Seq<Single>;

    closed spec fn view(&self) -> Seq<Single> {
        self.rec_buffer@.take(self.rec_idx as int)
    }
}

impl Recorder {
    /// The next sample goes into the chunk.
    pub closed spec fn in_bounds(&self) -> bool {
        self.rec_idx < CHUNK_SIZE
    }

    /// The chunk is never full between calls.
    pub open spec fn wf(&self) -> bool {
        self.in_bounds() && self@.len() < CHUNK_SIZE
    }

    /// A recorder with nothing waiting.
    pub fn new() -> (r: Recorder)
        ensures
            r.wf(),
            r@ == Seq::<Single>::empty(),
    {
        Recorder { rec_buffer: [Single::zero();CHUNK_SIZE], rec_idx: 0 }
    }

    /// Drops what is waiting.
    pub fn clear(&mut self)
        ensures
            final(self).wf(),
            final(self)@ == Seq::<Single>::empty(),
    {
        self.rec_idx = 0;
    }

    /// Takes in a sample, and hands out the chunk that it fills, if it fills one.
    pub fn push(&mut self, sample: Single) -> (r: Option<[Single; CHUNK_SIZE]>)
        requires
            old(self).wf(),
        ensures
            final(self).wf(),
            old(self)@.len() < CHUNK_SIZE,
            final(self)@.len() < CHUNK_SIZE,
            r is Some <==> old(self)@.len() + 1 == CHUNK_SIZE,
            match r {
                Some(chunk) => {
                    &&& chunk@ == old(self)@.push(sample)
                    &&& final(self)@ == Seq::<Single>::empty()
                },
                None => final(self)@ == old(self)@.push(sample),
            },
    {
        self.rec_buffer[self.rec_idx] = sample;
        self.rec_idx += 1;
        assert(self.rec_buffer@.take(self.rec_idx as int) =~= old(self)@.push(sample));
        if self.rec_idx == CHUNK_SIZE {
            assert(self.rec_buffer@.take(CHUNK_SIZE as int) =~= self.rec_buffer@);
            self.rec_idx = 0;
            Some(self.rec_buffer)
        } else {
            None
        }
    }
}

/// What has been handed out, chunk after chunk, and what is waiting, after each of
/// `samples` in turn has been pushed into an empty recorder.
pub open spec fn after_pushes(samples: Seq<Single>) -> (Seq<Single>, Seq<Single>)
    decreases samples.len(),
{
    if samples.len() == 0 {
        (Seq::empty(), Seq::empty())
    } else {
        let (written, waiting) = after_pushes(samples.drop_last());
        let chunk = waiting.push(samples.last());
        if chunk.len() == CHUNK_SIZE {
            (written + chunk, Seq::empty())
        } else {
            (written, chunk)
        }
    }
}

/// No sample is lost, doubled or moved: the chunks and what is waiting are together
/// the samples, and the chunks are as many as have been filled.
pub proof fn law_chunks_keep_every_sample(samples: Seq<Single>)
    ensures
        ({
            let (written, waiting) = after_pushes(samples);
            &&& written + waiting == samples
            &&& written == samples.take(samples.len() - samples.len() % (CHUNK_SIZE as nat))
            &&& waiting.len() == samples.len() % (CHUNK_SIZE as nat)
        }),
    decreases samples.len(),
{
    let (written, waiting) = after_pushes(samples);
    if samples.len() > 0 {
        let (earlier, partial) = after_pushes(samples.drop_last());
        law_chunks_keep_every_sample(samples.drop_last());
        assert(earlier + partial.push(samples.last()) =~= (earlier + partial).push(samples.last()));
        assert(samples.drop_last().push(samples.last()) =~= samples);
        assert(written + waiting =~= earlier + partial.push(samples.last()));
    }
    assert(written =~= samples.take(written.len() as int));
}

/// `msgs` are the messages that carry the chunks handed out while each of `samples` in
/// turn is pushed into an empty recorder.
pub open spec fn carries(msgs: Seq<RecordMsg>, samples: Seq<Single>) -> bool
    decreases samples.len(),
{
    if samples.len() == 0 {
        msgs.len() == 0
    } else {
        let chunk = after_pushes(samples.drop_last()).1.push(samples.last());
        if chunk.len() == CHUNK_SIZE {
            &&& msgs.len() > 0
            &&& carries(msgs.drop_last(), samples.drop_last())
            &&& msgs.last() matches RecordMsg::Audio(audio) && audio@ == chunk
        } else {
            carries(msgs, samples.drop_last())
        }
    }
}

/// Where recordings are saved.
pub const RECORDING_PATH: &'static str = "synth_recording.wav";

/// The format of a sound file.
#[derive(Clone, Copy, Debug, PartialEq, Eq, Structural)]
pub struct WavFormat {
    pub channels: u16,
    pub sample_rate: u32,
    pub bits_per_sample: u16,
    /// Samples are floating-point numbers, not integers.
    pub floating: bool,
}

/// What the writer does on a message.
#[derive(Clone, Copy, Debug)]
pub enum WriterAction {
    /// Begin a new file; a file that is still open is left behind.
    Create(WavFormat),
    /// Append samples to the open file.
    Write([Single; CHUNK_SIZE]),
    /// Complete and close the open file.
    Finalize,
    /// Nothing: there is no open file.
    Skip,
}

/// The writer of the sound file: whether a file is open.
#[derive(Clone, Copy, Debug, PartialEq, Eq, Structural)]
pub struct WavWriterState {
    pub open: bool,
}

impl WavWriterState {
    /// Whether a file is open after a message.
    pub open spec fn open_after(open: bool, msg: RecordMsg) -> bool {
        match msg {
            RecordMsg::Start(_) => true,
            RecordMsg::Audio(_) => open,
            RecordMsg::Stop => false,
        }
    }

    /// What the writer does on a message, given whether a file is open: a start begins a
    /// file of one channel of 32-bit floating-point samples; samples are written, and a stop
    /// completes the file, where one is open.
    pub open spec fn action(open: bool, msg: RecordMsg) -> WriterAction {
        match msg {
            RecordMsg::Start(sample_rate) => WriterAction::Create(
                WavFormat { channels: 1, sample_rate, bits_per_sample: 32, floating: true },
            ),
            RecordMsg::Audio(samples) => if open {
                WriterAction::Write(samples)
            } else {
                WriterAction::Skip
            },
            RecordMsg::Stop => if open {
                WriterAction::Finalize
            } else {
                WriterAction::Skip
            },
        }
    }

    /// A writer without a file.
    pub fn new() -> (r: WavWriterState)
        ensures
            !r.open,
    {
        WavWriterState { open: false }
    }

    /// Decides what to do on a message: a start begins a file of one channel of 32-bit
    /// floating-point samples at the given rate; samples are written while a file is
    /// open, and a stop completes it; without a file, both do nothing.
    pub fn on_message(&mut self, msg: RecordMsg) -> (r: WriterAction)
        ensures
            final(self).open == WavWriterState::open_after(old(self).open, msg),
            r == WavWriterState::action(old(self).open, msg),
    {
        match msg {
            RecordMsg::Start(sample_rate) => {
                self.open = true;
                WriterAction::Create(
                    WavFormat { channels: 1, sample_rate, bits_per_sample: 32, floating: true },
                )
            },
            RecordMsg::Audio(samples) => if self.open {
                WriterAction::Write(samples)
            } else {
                WriterAction::Skip
            },
            RecordMsg::Stop => if self.open {
                self.open = false;
                WriterAction::Finalize
            } else {
                WriterAction::Skip
            },
        }
    }
}

/// Whether a file is open after each of `msgs` in turn, beginning without a file.
pub open spec fn open_after_all(msgs: Seq<RecordMsg>) -> bool
    decreases msgs.len(),
{
    if msgs.len() == 0 {
        false
    } else {
        WavWriterState::open_after(open_after_all(msgs.drop_last()), msgs.last())
    }
}

/// Samples are written exactly between a start and the stop after it: a file is open
/// where some start has had no stop since.
pub proof fn law_open_between_start_and_stop(msgs: Seq<RecordMsg>)
    ensures
        open_after_all(msgs) <==> exists|i: int|
            0 <= i < msgs.len() && (#[trigger] msgs[i]) is Start && forall|j: int|
                i < j < msgs.len() ==> !((#[trigger] msgs[j]) is Stop),
    decreases msgs.len(),
{
    if msgs.len() > 0 {
        let before = msgs.drop_last();
        let last = msgs.len() - 1;
        law_open_between_start_and_stop(before);
        if open_after_all(msgs) {
            if msgs.last() is Start {
                assert(msgs[last] is Start);
            } else {
                let i = choose|i: int|
                    0 <= i < before.len() && (#[trigger] before[i]) is Start && forall|j: int|
                        i < j < before.len() ==> !((#[trigger] before[j]) is Stop);
                assert(msgs[i] is Start);
                assert forall|j: int| i < j < msgs.len() implies !((#[trigger] msgs[j]) is Stop) by {
                    if j < last {
                        assert(msgs[j] == before[j]);
                    }
                }
            }
        }
        if exists|i: int|
            0 <= i < msgs.len() && (#[trigger] msgs[i]) is Start && forall|j: int|
                i < j < msgs.len() ==> !((#[trigger] msgs[j]) is Stop) {
            let i = choose|i: int|
                0 <= i < msgs.len() && (#[trigger] msgs[i]) is Start && forall|j: int|
                    i < j < msgs.len() ==> !((#[trigger] msgs[j]) is Stop);
            if i < last {
                assert(!(msgs[last] is Stop));
                assert(before[i] is Start);
                assert forall|j: int| i < j < before.len() implies !((#[trigger] before[j]) is Stop) by {
                    assert(before[j] == msgs[j]);
                }
            }
        }
    }
}

/// What the latest file holds after an action, given what it held before: a new file is
/// empty, and samples that are written follow those before them.
pub open spec fn file_after_action(held: Seq<Single>, action: WriterAction) -> Seq<Single> {
    match action {
        WriterAction::Create(_) => Seq::empty(),
        WriterAction::Write(samples) => held + samples@,
        WriterAction::Finalize => held,
        WriterAction::Skip => held,
    }
}

/// What the latest file holds once the writer has acted on each of `msgs` in turn.
pub open spec fn file_after(msgs: Seq<RecordMsg>) -> Seq<Single>
    decreases msgs.len(),
{
    if msgs.len() == 0 {
        Seq::empty()
    } else {
        file_after_action(
            file_after(msgs.drop_last()),
            WavWriterState::action(open_after_all(msgs.drop_last()), msgs.last()),
        )
    }
}

proof fn lemma_file_grows(
    before: Seq<RecordMsg>,
    sample_rate: u32,
    msgs: Seq<RecordMsg>,
    samples: Seq<Single>,
)
    requires
        carries(msgs, samples),
    ensures
        ({
            let all = before.push(RecordMsg::Start(sample_rate)) + msgs;
            open_after_all(all) && file_after(all) == after_pushes(samples).0
        }),
    decreases samples.len(),
{
    let started = before.push(RecordMsg::Start(sample_rate));
    let all = started + msgs;
    if samples.len() == 0 {
        assert(all =~= started);
        assert(started.drop_last() =~= before);
        assert(started.last() == RecordMsg::Start(sample_rate));
    } else {
        let chunk = after_pushes(samples.drop_last()).1.push(samples.last());
        if chunk.len() == CHUNK_SIZE {
            lemma_file_grows(before, sample_rate, msgs.drop_last(), samples.drop_last());
            assert(all.drop_last() =~= started + msgs.drop_last());
            assert(all.last() == msgs.last());
        } else {
            lemma_file_grows(before, sample_rate, msgs, samples.drop_last());
        }
    }
}

/// A recording gives back what was played: whatever came before it, once it is stopped
/// its file holds its samples, in order, up to the last chunk that was filled.
pub proof fn law_file_holds_recording(
    before: Seq<RecordMsg>,
    sample_rate: u32,
    msgs: Seq<RecordMsg>,
    samples: Seq<Single>,
)
    requires
        carries(msgs, samples),
    ensures
        ({
            let running = before.push(RecordMsg::Start(sample_rate)) + msgs;
            let all = running.push(RecordMsg::Stop);
            &&& WavWriterState::action(open_after_all(running), RecordMsg::Stop) is Finalize
            &&& file_after(all) == samples.take(
                samples.len() - samples.len() % (CHUNK_SIZE as nat),
            )
            &&& !open_after_all(all)
        }),
{
    let running = before.push(RecordMsg::Start(sample_rate)) + msgs;
    lemma_file_grows(before, sample_rate, msgs, samples);
    law_chunks_keep_every_sample(samples);
    assert(running.push(RecordMsg::Stop).drop_last() =~= running);
}

/// The starts and stops that wait for their turn where the way to the writer is full. Its
/// view is the waiting messages, first in line first. However many there have been, three
/// stand for them all: the stop of an earlier recording, the latest start, and its stop.
#[derive(Clone, Copy, Debug, PartialEq, Eq, Structural)]
pub struct Outbox {
    pub closing: bool,
    pub start: Option<u32>,
    pub stopping: bool,
}

impl View for Outbox {
    type V = Seq<RecordMsg>;

    open spec fn view(&self) -> Seq<RecordMsg> {
        let first = if self.closing {
            seq![RecordMsg::Stop]
        } else {
            Seq::empty()
        };
        match self.start {
            Some(sample_rate) => {
                let started = first.push(RecordMsg::Start(sample_rate));
                if self.stopping {
                    started.push(RecordMsg::Stop)
                } else {
                    started
                }
            },
            None => first,
        }
    }
}

impl Outbox {
    /// Only a start that waits can have a stop behind it.
    pub open spec fn wf(&self) -> bool {
        self.stopping ==> self.start is Some
    }

    /// The outbox once a message has been offered: a start takes the place of an earlier one
    /// and of its stop, and a stop goes to the end; samples never wait.
    pub open spec fn after_offer(self, msg: RecordMsg) -> Outbox {
        match msg {
            RecordMsg::Start(sample_rate) => Outbox {
                start: Some(sample_rate),
                stopping: false,
                ..self
            },
            RecordMsg::Stop => if self.start is Some {
                Outbox { stopping: true, ..self }
            } else {
                Outbox { closing: true, ..self }
            },
            RecordMsg::Audio(_) => self,
        }
    }

    /// An outbox with nothing waiting.
    pub fn new() -> (r: Outbox)
        ensures
            r.wf(),
            r@ == Seq::<RecordMsg>::empty(),
    {
        Outbox { closing: false, start: None, stopping: false }
    }

    /// Offers a message. Starts and stops join the line; samples are handed back, to be sent
    /// now or not at all, where nothing waits, and are dropped where something does.
    pub fn offer(&mut self, msg: RecordMsg) -> (r: Option<RecordMsg>)
        requires
            old(self).wf(),
        ensures
            final(self).wf(),
            *final(self) == old(self).after_offer(msg),
            r == if msg is Audio && old(self)@.len() == 0 {
                Some(msg)
            } else {
                None
            },
    {
        match msg {
            RecordMsg::Start(sample_rate) => {
                self.start = Some(sample_rate);
                self.stopping = false;
                None
            },
            RecordMsg::Stop => {
                if self.start.is_some() {
                    self.stopping = true;
                } else {
                    self.closing = true;
                }
                None
            },
            RecordMsg::Audio(_) => if self.closing || self.start.is_some() {
                None
            } else {
                Some(msg)
            },
        }
    }

    /// The message that is first in line, if one waits.
    pub fn first(&self) -> (r: Option<RecordMsg>)
        ensures
            r == if self@.len() > 0 {
                Some(self@[0])
            } else {
                None
            },
    {
        if self.closing {
            Some(RecordMsg::Stop)
        } else {
            match self.start {
                Some(sample_rate) => Some(RecordMsg::Start(sample_rate)),
                None => None,
            }
        }
    }

    /// Takes the first message out of the line, once it has been sent.
    pub fn sent(&mut self)
        requires
            old(self).wf(),
            old(self)@.len() > 0,
        ensures
            final(self).wf(),
            final(self)@ == old(self)@.drop_first(),
    {
        if self.closing {
            self.closing = false;
        } else {
            self.start = None;
            self.closing = self.stopping;
            self.stopping = false;
        }
        assert(self@ =~= old(self)@.drop_first());
    }
}

/// No start and no stop is lost on the way: whatever the writer has had before, once it has
/// had what waits, the latest file holds what it would if every message had waited, in the
/// format that it would have, and is open or not as it would be; and never more than three
/// wait.
pub proof fn law_outbox_loses_nothing(before: Seq<RecordMsg>, outbox: Outbox, msg: RecordMsg)
    requires
        outbox.wf(),
        !(msg is Audio),
    ensures
        file_after(before + outbox.after_offer(msg)@) == file_after(before + outbox@.push(msg)),
        open_after_all(before + outbox.after_offer(msg)@) == open_after_all(
            before + outbox@.push(msg),
        ),
        format_after(before + outbox.after_offer(msg)@) == format_after(before + outbox@.push(msg)),
        outbox.after_offer(msg)@.len() <= 3,
{
    let line = outbox@;
    let short = outbox.after_offer(msg)@;
    assert((before + line.push(msg)).drop_last() =~= before + line);
    assert((before + line.push(msg)).last() == msg);
    assert((before + short).drop_last() =~= before + short.drop_last());
    assert((before + short).last() == short.last());
    if msg is Stop {
        if outbox.start is Some && !outbox.stopping || outbox.start is None && !outbox.closing {
            assert(short =~= line.push(msg));
        } else {
            assert(short =~= line);
            assert((before + line).drop_last() =~= before + line.drop_last());
            assert(line.last() == RecordMsg::Stop);
        }
    }
}

/// The format of the latest file that the writer has begun once it has acted on each of
/// `msgs` in turn, if it has begun one.
pub open spec fn format_after(msgs: Seq<RecordMsg>) -> Option<WavFormat>
    decreases msgs.len(),
{
    if msgs.len() == 0 {
        None
    } else {
        match WavWriterState::action(open_after_all(msgs.drop_last()), msgs.last()) {
            WriterAction::Create(format) => Some(format),
            _ => format_after(msgs.drop_last()),
        }
    }
}

/// Every start begins a file, whether one is open or not, of one channel of 32-bit
/// floating-point samples at exactly the sample rate of the start. Samples are written as
/// they came, all of them, and a stop completes the file, exactly where a file is open.
pub proof fn law_writer_does_as_told(open: bool, msg: RecordMsg)
    ensures
        match WavWriterState::action(open, msg) {
            WriterAction::Create(format) => {
                &&& msg matches RecordMsg::Start(sample_rate)
                &&& format.sample_rate == sample_rate
                &&& format.channels == 1
                &&& format.bits_per_sample == 32
                &&& format.floating
            },
            WriterAction::Write(written) => open && msg == RecordMsg::Audio(written),
            WriterAction::Finalize => open && msg is Stop,
            WriterAction::Skip => !open && !(msg is Start),
        },
{
}

/// The file plays back at the rate at which it was recorded: whatever came before and
/// whatever samples and stops came after it, the format of the latest file is that of the
/// latest start.
pub proof fn law_file_has_the_rate_of_its_start(msgs: Seq<RecordMsg>, i: int)
    requires
        0 <= i < msgs.len(),
        msgs[i] is Start,
        forall|j: int| i < j < msgs.len() ==> !((#[trigger] msgs[j]) is Start),
    ensures
        format_after(msgs) matches Some(format) && format.sample_rate == msgs[i]->Start_0
            && format.channels == 1 && format.bits_per_sample == 32 && format.floating,
    decreases msgs.len(),
{
    let before = msgs.drop_last();
    if i < msgs.len() - 1 {
        assert(!(msgs[msgs.len() - 1] is Start));
        assert forall|j: int| i < j < before.len() implies !((#[trigger] before[j]) is Start) by {
            assert(before[j] == msgs[j]);
        }
        law_file_has_the_rate_of_its_start(before, i);
    }
}

proof fn lemma_carried_are_samples(msgs: Seq<RecordMsg>, samples: Seq<Single>, j: int)
    requires
        carries(msgs, samples),
        0 <= j < msgs.len(),
    ensures
        msgs[j] is Audio,
    decreases samples.len(),
{
    if samples.len() > 0 {
        let chunk = after_pushes(samples.drop_last()).1.push(samples.last());
        if chunk.len() == CHUNK_SIZE {
            if j < msgs.len() - 1 {
                lemma_carried_are_samples(msgs.drop_last(), samples.drop_last(), j);
            }
        } else {
            lemma_carried_are_samples(msgs, samples.drop_last(), j);
        }
    }
}

/// A recording keeps its time: once it is stopped, its file holds as many samples as were
/// played but for less than a chunk of 1024, at the rate at which they were played.
pub proof fn law_recording_keeps_time(
    before: Seq<RecordMsg>,
    sample_rate: u32,
    msgs: Seq<RecordMsg>,
    samples: Seq<Single>,
)
    requires
        carries(msgs, samples),
    ensures
        ({
            let all = (before.push(RecordMsg::Start(sample_rate)) + msgs).push(RecordMsg::Stop);
            &&& format_after(all) matches Some(format) && format.sample_rate == sample_rate
            &&& samples.len() - 1024 < file_after(all).len() <= samples.len()
            &&& forall|k: int|
                0 <= k < file_after(all).len() ==> #[trigger] file_after(all)[k] == samples[k]
        }),
{
    let all = (before.push(RecordMsg::Start(sample_rate)) + msgs).push(RecordMsg::Stop);
    let i = before.len() as int;
    law_file_holds_recording(before, sample_rate, msgs, samples);
    assert(all[i] == RecordMsg::Start(sample_rate));
    assert forall|j: int| i < j < all.len() implies !((#[trigger] all[j]) is Start) by {
        if j < all.len() - 1 {
            assert(all[j] == msgs[j - i - 1]);
            lemma_carried_are_samples(msgs, samples, j - i - 1);
        }
    }
    law_file_has_the_rate_of_its_start(all, i);
}

/// What waits after a start is that start, behind the stop of an earlier recording where one
/// waited first; a stop goes to the end of the line, but where a stop is there already;
/// samples leave the line as it is.
pub proof fn law_line_ends_with_the_latest(outbox: Outbox, msg: RecordMsg)
    requires
        outbox.wf(),
    ensures
        ({
            let (line, after) = (outbox@, outbox.after_offer(msg)@);
            match msg {
                RecordMsg::Start(sample_rate) => {
                    if line.len() > 0 && line[0] is Stop {
                        after == seq![RecordMsg::Stop, RecordMsg::Start(sample_rate)]
                    } else {
                        after == seq![RecordMsg::Start(sample_rate)]
                    }
                },
                RecordMsg::Stop => if line.len() > 0 && line.last() is Stop {
                    after == line
                } else {
                    after == line.push(RecordMsg::Stop)
                },
                RecordMsg::Audio(_) => after == line,
            }
        }),
{
}

} // verus!
