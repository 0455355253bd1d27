//! The sink that hands decoded audio to a PipeWire stream.
//!
//! The stream lives on a thread of its own; the player's thread hands samples over through a ring
//! buffer. Output latency is governed solely by the requested quantum, the ring only buffers
//! decoded audio ahead of time.

use vstd::prelude::*;

use super::ring::{
    count_free, count_full, free_slots, full_slots, is_abandoned, new_ring, pop_into, push_all,
    pushed, taken,
};
use crate::geometry::min;
use crate::text::{concat, decimal, decimal_text};
use rtrb::{Consumer, Producer};

verus! {

/// Quantum (in frames) requested from PipeWire when the user hasn't configured one.
pub const DEFAULT_QUANTUM: u32 = 1024;

/// How many quanta of decoded audio the ring buffer holds. This is decode-ahead buffering between
/// the decoder and the PipeWire thread; it does not add output latency.
pub const RING_QUANTA: usize = 8;

/// How many samples make a frame.
pub const NUM_CHANNELS: usize = 2;

/// How many frames make a second.
pub const SAMPLE_RATE: u32 = 44100;

/// How samples are encoded.
#[allow(non_camel_case_types)]
#[derive(Clone, Copy, Debug, PartialEq, Eq, Structural)]
pub enum AudioFormat {
    F64,
    F32,
    S32,
    S24,
    S24_3,
    S16,
}

/// How PipeWire names the encodings that the sink supports.
#[derive(Clone, Copy, Debug, PartialEq, Eq, Structural)]
pub enum SpaFormat {
    S16LE,
    S32LE,
    F32LE,
}

/// Why the sink failed.
#[derive(Clone, Debug, PartialEq, Eq)]
pub enum SinkError {
    ConnectionRefused(String),
    InvalidParams(String),
    NotConnected(String),
}

impl AudioFormat {
    /// The bytes of a sample.
    pub open spec fn bytes(self) -> int {
        match self {
            AudioFormat::F64 => 8,
            AudioFormat::F32 => 4,
            AudioFormat::S32 => 4,
            AudioFormat::S24 => 4,
            AudioFormat::S24_3 => 3,
            AudioFormat::S16 => 2,
        }
    }

    pub fn size(self) -> (bytes: usize)
        ensures
            bytes == self.bytes(),
    {
        match self {
            AudioFormat::F64 => 8,
            AudioFormat::F32 => 4,
            AudioFormat::S32 => 4,
            AudioFormat::S24 => 4,
            AudioFormat::S24_3 => 3,
            AudioFormat::S16 => 2,
        }
    }

    pub open spec fn label(self) -> Seq<char> {
        match self {
            AudioFormat::F64 => "F64"@,
            AudioFormat::F32 => "F32"@,
            AudioFormat::S32 => "S32"@,
            AudioFormat::S24 => "S24"@,
            AudioFormat::S24_3 => "S24_3"@,
            AudioFormat::S16 => "S16"@,
        }
    }

    pub fn name(self) -> (name: &'static str)
        ensures
            name@ == self.label(),
    {
        match self {
            AudioFormat::F64 => "F64",
            AudioFormat::F32 => "F32",
            AudioFormat::S32 => "S32",
            AudioFormat::S24 => "S24",
            AudioFormat::S24_3 => "S24_3",
            AudioFormat::S16 => "S16",
        }
    }
}

/// The bytes of a frame.
pub fn bytes_per_frame(format: AudioFormat) -> (bytes: usize)
    ensures
        bytes == format.bytes() * NUM_CHANNELS,
{
    format.size() * NUM_CHANNELS
}

pub open spec fn spa_format_spec(format: AudioFormat) -> Option<SpaFormat> {
    match format {
        AudioFormat::S16 => Some(SpaFormat::S16LE),
        AudioFormat::S32 => Some(SpaFormat::S32LE),
        AudioFormat::F32 => Some(SpaFormat::F32LE),
        _ => None,
    }
}

/// The error for an encoding that the sink does not support.
pub open spec fn unsupported(format: AudioFormat) -> Seq<char> {
    "audio format "@ + format.label()
        + " is not supported by the pipewire backend, use S16, S32 or F32"@
}

/// PipeWire's name for the encoding.
pub fn spa_format(format: AudioFormat) -> (named: Result<SpaFormat, SinkError>)
    ensures
        match spa_format_spec(format) {
            Some(spa) => named == Ok::<SpaFormat, SinkError>(spa),
            None => named matches Err(SinkError::InvalidParams(text)) && text@ == unsupported(
                format,
            ),
        },
{
    match format {
        AudioFormat::S16 => Ok(SpaFormat::S16LE),
        AudioFormat::S32 => Ok(SpaFormat::S32LE),
        AudioFormat::F32 => Ok(SpaFormat::F32LE),
        other => {
            let start = concat("audio format ", other.name());
            let text = concat(
                start.as_str(),
                " is not supported by the pipewire backend, use S16, S32 or F32",
            );
            Err(SinkError::InvalidParams(text))
        },
    }
}

/// The latency to request: the quantum as a share of a second.
pub fn latency(quantum: u32) -> (text: String)
    ensures
        text@ == decimal(quantum as nat) + "/"@ + decimal(SAMPLE_RATE as nat),
{
    let frames = decimal_text(quantum as u64);
    let start = concat(frames.as_str(), "/");
    let rate = decimal_text(SAMPLE_RATE as u64);
    concat(start.as_str(), rate.as_str())
}

/// How many slots the ring has.
pub open spec fn ring_slots(format: AudioFormat, quantum: u32) -> int {
    RING_QUANTA * quantum * (format.bytes() * NUM_CHANNELS)
}

/// A ring for so many quanta of frames.
pub fn open_ring(format: AudioFormat, quantum: u32) -> (ends: (Producer<u8>, Consumer<u8>))
    requires
        ring_slots(format, quantum) <= isize::MAX,
    ensures
        pushed(ends.0) == Seq::<u8>::empty(),
        free_slots(ends.0) == ring_slots(format, quantum),
        taken(ends.1) == Seq::<u8>::empty(),
        full_slots(ends.1) == 0,
{
    let frame_size: usize = bytes_per_frame(format);
    assert(0 <= RING_QUANTA * quantum <= ring_slots(format, quantum)) by (nonlinear_arith)
        requires
            ring_slots(format, quantum) == RING_QUANTA * quantum * frame_size,
            frame_size >= 1,
            RING_QUANTA == 8,
    ;
    new_ring(RING_QUANTA * quantum as usize * frame_size)
}

/// How long to wait for a full ring: half a quantum, in nanoseconds. The quantum is counted in
/// whole microseconds.
pub open spec fn backpressure_nanos(quantum: u32) -> int {
    (quantum * 1_000_000 / SAMPLE_RATE as int) * 1000 / 2
}

/// What to do about samples that are still to be written.
#[derive(Clone, Copy, Debug, PartialEq, Eq, Structural)]
pub enum WritePlan {
    Died,
    Wait,
    Write(usize),
}

/// Decides how to go on when so many bytes are left to write.
pub fn plan_write(abandoned: bool, slots: usize, left: usize) -> (plan: WritePlan)
    ensures
        plan == if abandoned {
            WritePlan::Died
        } else if min(slots as int, left as int) == 0 {
            WritePlan::Wait
        } else {
            WritePlan::Write(min(slots as int, left as int) as usize)
        },
{
    if abandoned {
        return WritePlan::Died;
    }
    let n: usize = if slots <= left {
        slots
    } else {
        left
    };
    if n == 0 {
        WritePlan::Wait
    } else {
        WritePlan::Write(n)
    }
}

/// How far a packet was written.
#[derive(Debug)]
pub enum WriteStep {
    Done,
    /// The ring is full. Wait for so many nanoseconds, then go on behind the bytes that were
    /// written. This is the backpressure that paces the decoder.
    Full { written: usize, wait_nanos: u64 },
    Failed { written: usize, error: SinkError },
}

/// What the thread of the stream reported about its connection.
pub enum Ready {
    Connected,
    Failed(String),
    TimedOut,
}

/// What a sink has to do to start.
#[derive(Clone, Copy, Debug, PartialEq, Eq, Structural)]
pub enum StartStep {
    /// Spawn the thread of the stream, hand its report to [`PipeWireSink::connected`], then
    /// activate the stream.
    Spawn,
    Activate,
}

pub struct PipeWireSink {
    pub format: AudioFormat,
    pub device: Option<String>,
    pub quantum: u32,
    /// The writing end of the ring, while the thread of the stream runs.
    pub producer: Option<Producer<u8>>,
}

impl PipeWireSink {
    pub fn new(device: Option<String>, format: AudioFormat, quantum: u32) -> (sink: PipeWireSink)
        ensures
            sink.device == device,
            sink.format == format,
            sink.quantum == quantum,
            sink.producer is None,
    {
        PipeWireSink { format, device, quantum, producer: None }
    }

    /// What to do to start: the thread of the stream is spawned once.
    pub fn start(&self) -> (step: StartStep)
        ensures
            step == if self.producer is Some {
                StartStep::Activate
            } else {
                StartStep::Spawn
            },
    {
        match self.producer {
            Some(_) => StartStep::Activate,
            None => StartStep::Spawn,
        }
    }

    /// Takes over the writing end of the ring once the stream is connected.
    pub fn connected(&mut self, producer: Producer<u8>, ready: Ready) -> (result: Result<
        (),
        SinkError,
    >)
        ensures
            match ready {
                Ready::Connected => result is Ok && *final(self) == (PipeWireSink {
                    producer: Some(producer),
                    ..*old(self)
                }),
                Ready::Failed(text) => result == Err::<(), SinkError>(
                    SinkError::ConnectionRefused(text),
                ) && *final(self) == *old(self),
                Ready::TimedOut => {
                    &&& result matches Err(SinkError::ConnectionRefused(text)) && text@
                        == "timed out waiting for the PipeWire stream to connect"@
                    &&& *final(self) == *old(self)
                },
            },
    {
        match ready {
            Ready::Connected => {
                self.producer = Some(producer);
                Ok(())
            },
            Ready::Failed(text) => Err(SinkError::ConnectionRefused(text)),
            Ready::TimedOut => Err(
                SinkError::ConnectionRefused(
                    "timed out waiting for the PipeWire stream to connect".to_owned(),
                ),
            ),
        }
    }

    /// Whether a command can be sent to the thread of the stream.
    pub fn running(&self) -> (result: Result<(), SinkError>)
        ensures
            self.producer is Some ==> result is Ok,
            self.producer is None ==> (result matches Err(SinkError::NotConnected(text)) && text@
                == "pipewire thread not running"@),
    {
        match self.producer {
            Some(_) => Ok(()),
            None => Err(SinkError::NotConnected("pipewire thread not running".to_owned())),
        }
    }

    /// What came of sending a command.
    pub fn sent(delivered: bool) -> (result: Result<(), SinkError>)
        ensures
            delivered ==> result is Ok,
            !delivered ==> (result matches Err(SinkError::NotConnected(text)) && text@
                == "pipewire thread died"@),
    {
        if delivered {
            Ok(())
        } else {
            Err(SinkError::NotConnected("pipewire thread died".to_owned()))
        }
    }

    /// How long to wait for a full ring.
    pub fn wait_nanos(&self) -> (nanos: u64)
        ensures
            nanos == backpressure_nanos(self.quantum),
    {
        let micros: u64 = self.quantum as u64 * 1_000_000 / SAMPLE_RATE as u64;
        micros * 1000 / 2
    }

    /// Writes the bytes of a packet behind those that were written already, until all are written
    /// or the ring is full. How many fit depends on how fast the other thread reads.
    pub fn write(&mut self, bytes: &[u8], written: usize) -> (step: WriteStep)
        requires
            written <= bytes@.len(),
        ensures
            final(self).format == old(self).format,
            final(self).device == old(self).device,
            final(self).quantum == old(self).quantum,
            (final(self).producer is Some) == (old(self).producer is Some),
            old(self).producer is None ==> (step matches WriteStep::Failed {
                written: reached,
                error: SinkError::NotConnected(text),
            } && reached == written && text@ == "pipewire thread not running"@),
            old(self).producer is Some ==> ({
                let before = pushed(old(self).producer->0);
                let after = pushed(final(self).producer->0);
                match step {
                    WriteStep::Done => after == before + bytes@.skip(written as int),
                    WriteStep::Full { written: reached, wait_nanos } => {
                        &&& written <= reached < bytes@.len()
                        &&& after == before + bytes@.subrange(written as int, reached as int)
                        &&& wait_nanos == backpressure_nanos(old(self).quantum)
                        &&& free_slots(final(self).producer->0) == 0
                    },
                    WriteStep::Failed { written: reached, error } => {
                        &&& written <= reached < bytes@.len()
                        &&& after == before + bytes@.subrange(written as int, reached as int)
                        &&& error matches SinkError::NotConnected(text) && text@
                            == "pipewire thread died"@
                    },
                }
            }),
    {
        let wait_nanos: u64 = self.wait_nanos();
        let mut producer = match self.producer.take() {
            Some(producer) => producer,
            None => {
                let error = SinkError::NotConnected("pipewire thread not running".to_owned());
                return WriteStep::Failed { written, error };
            },
        };
        let ghost before = pushed(producer);
        let mut reached: usize = written;
        let mut step = WriteStep::Done;
        assert(bytes@.subrange(written as int, written as int) =~= Seq::<u8>::empty());
        assert(pushed(producer) =~= before + bytes@.subrange(written as int, written as int));
        while reached < bytes.len()
            invariant_except_break
                step == WriteStep::Done,
            invariant
                written <= reached <= bytes@.len(),
                pushed(producer) == before + bytes@.subrange(written as int, reached as int),
                wait_nanos == backpressure_nanos(old(self).quantum),
            ensures
                match step {
                    WriteStep::Done => reached == bytes@.len(),
                    WriteStep::Full { written: at, wait_nanos: nanos } => at == reached && reached
                        < bytes@.len() && nanos == wait_nanos && free_slots(producer) == 0,
                    WriteStep::Failed { written: at, error } => at == reached && reached
                        < bytes@.len() && (error matches SinkError::NotConnected(text) && text@
                        == "pipewire thread died"@),
                },
            decreases bytes@.len() - reached,
        {
            let abandoned = is_abandoned(&producer);
            let slots: usize = count_free(&mut producer);
            match plan_write(abandoned, slots, bytes.len() - reached) {
                WritePlan::Died => {
                    let error = SinkError::NotConnected("pipewire thread died".to_owned());
                    step = WriteStep::Failed { written: reached, error };
                    break;
                },
                WritePlan::Wait => {
                    step = WriteStep::Full { written: reached, wait_nanos };
                    break;
                },
                WritePlan::Write(n) => {
                    let next: usize = reached + n;
                    let done = push_all(&mut producer, &bytes[reached..next]);
                    assert(done);
                    assert(bytes@.subrange(written as int, reached as int) + bytes@.subrange(
                        reached as int,
                        next as int,
                    ) =~= bytes@.subrange(written as int, next as int));
                    assert(pushed(producer) =~= before + bytes@.subrange(
                        written as int,
                        next as int,
                    ));
                    reached = next;
                },
            }
        }
        assert(bytes@.subrange(written as int, bytes@.len() as int) =~= bytes@.skip(
            written as int,
        ));
        self.producer = Some(producer);
        step
    }
}

/// A packet that is written in several steps arrives whole and in order: two steps, of which the
/// second goes on where the first ended, push what one step over both pushes.
pub proof fn lemma_steps_join(
    bytes: Seq<u8>,
    before: Seq<u8>,
    start: int,
    middle: int,
    end: int,
)
    requires
        0 <= start <= middle <= end <= bytes.len(),
    ensures
        (before + bytes.subrange(start, middle)) + bytes.subrange(middle, end) == before
            + bytes.subrange(start, end),
{
    assert((before + bytes.subrange(start, middle)) + bytes.subrange(middle, end) =~= before
        + bytes.subrange(start, end));
}

/// The bytes of a buffer that a stream is to fill: whole frames, and no more than it asks for, if
/// it asks for a number of frames.
pub open spec fn buffer_bytes(len: int, frame_size: int, requested_frames: int) -> int {
    let whole = len - len % frame_size;
    if requested_frames > 0 {
        min(whole, requested_frames * frame_size)
    } else {
        whole
    }
}

/// How a buffer was filled.
#[derive(Clone, Copy, Debug, PartialEq, Eq, Structural)]
pub struct Filled {
    /// The bytes of audio at the start of the buffer.
    pub audio: usize,
    /// The bytes of the buffer that are to be played. Behind the audio they are silence.
    pub size: usize,
}

proof fn lemma_frames(len: int, frame_size: int, requested: int)
    requires
        len >= 0,
        frame_size > 0,
        requested >= 0,
    ensures
        0 <= len - len % frame_size <= len,
        (len - len % frame_size) % frame_size == 0,
        (len - len % frame_size) == (len / frame_size) * frame_size,
        requested <= len / frame_size ==> requested * frame_size <= len - len % frame_size,
        requested >= len / frame_size ==> requested * frame_size >= len - len % frame_size,
        (requested * frame_size) % frame_size == 0,
        requested * frame_size >= 0,
{
    vstd::arithmetic::div_mod::lemma_fundamental_div_mod(len, frame_size);
    vstd::arithmetic::div_mod::lemma_mod_bound(len, frame_size);
    vstd::arithmetic::div_mod::lemma_mod_multiples_basic(requested, frame_size);
    vstd::arithmetic::div_mod::lemma_mod_multiples_basic(len / frame_size, frame_size);
    assert(frame_size * (len / frame_size) == (len / frame_size) * frame_size)
        by (nonlinear_arith);
    assert(0 <= len / frame_size) by (nonlinear_arith)
        requires
            len >= 0,
            frame_size > 0,
    ;
    assert(0 <= (len / frame_size) * frame_size) by (nonlinear_arith)
        requires
            0 <= len / frame_size,
            frame_size > 0,
    ;
    assert(requested * frame_size >= 0) by (nonlinear_arith)
        requires
            requested >= 0,
            frame_size > 0,
    ;
    if requested <= len / frame_size {
        assert(requested * frame_size <= (len / frame_size) * frame_size) by (nonlinear_arith)
            requires
                requested <= len / frame_size,
                frame_size > 0,
        ;
    }
    if requested >= len / frame_size {
        assert(requested * frame_size >= (len / frame_size) * frame_size) by (nonlinear_arith)
            requires
                requested >= len / frame_size,
                frame_size > 0,
        ;
    }
}

/// Fills the buffer of a stream with audio from the ring, in whole frames. What the ring cannot
/// give is filled with silence, which keeps the timing of the stream intact.
pub fn fill_buffer(
    consumer: &mut Consumer<u8>,
    out: &mut [u8],
    frame_size: usize,
    requested_frames: usize,
) -> (filled: Filled)
    requires
        frame_size > 0,
    ensures
        filled.size == buffer_bytes(
            old(out)@.len() as int,
            frame_size as int,
            requested_frames as int,
        ),
        filled.audio <= filled.size <= old(out)@.len(),
        filled.audio % frame_size == 0,
        filled.size % frame_size == 0,
        filled.audio < filled.size ==> full_slots(*final(consumer)) < frame_size,
        final(out)@.len() == old(out)@.len(),
        taken(*final(consumer)) == taken(*old(consumer)) + final(out)@.take(filled.audio as int),
        forall|i: int| filled.audio <= i < filled.size ==> (#[trigger] final(out)@[i]) == 0,
        forall|i: int|
            filled.size <= i < old(out)@.len() ==> (#[trigger] final(out)@[i]) == old(out)@[i],
{
    let len: usize = out.len();
    proof {
        lemma_frames(len as int, frame_size as int, requested_frames as int);
    }
    let mut size: usize = len - len % frame_size;
    if requested_frames > 0 && requested_frames <= len / frame_size {
        size = requested_frames * frame_size;
    }
    let available: usize = count_full(consumer);
    let mut audio: usize = if available <= size {
        available
    } else {
        size
    };
    proof {
        lemma_frames(audio as int, frame_size as int, 0);
        vstd::arithmetic::div_mod::lemma_mod_bound(audio as int, frame_size as int);
    }
    let ghost whole = audio;
    audio = audio - audio % frame_size;
    assert(audio < size ==> available - audio < frame_size) by {
        if whole == size {
            assert(whole as int % frame_size as int == 0);
        }
    }
    let ghost start = out@;
    let done = pop_into(consumer, out, audio);
    assert(done);
    let ghost read = out@;
    assert forall|i: int| audio <= i < start.len() implies read[i] == start[i] by {
        assert(read.skip(audio as int)[i - audio] == start.skip(audio as int)[i - audio]);
    }
    let mut i: usize = audio;
    while i < size
        invariant
            audio <= i <= size <= len,
            out@.len() == len,
            read.len() == len,
            forall|j: int| 0 <= j < audio ==> (#[trigger] out@[j]) == read[j],
            forall|j: int| audio <= j < i ==> (#[trigger] out@[j]) == 0,
            forall|j: int| size <= j < len ==> (#[trigger] out@[j]) == read[j],
        decreases size - i,
    {
        out[i] = 0;
        i += 1;
    }
    assert(out@.take(audio as int) =~= read.take(audio as int));
    Filled { audio, size }
}

/// The `k`th byte of a number, counted from the least significant one.
pub open spec fn nth_byte(word: int, k: int) -> u8
    decreases k,
{
    if k <= 0 {
        (word % 256) as u8
    } else {
        nth_byte(word / 256, k - 1)
    }
}

/// Samples of 16 bits, given by their bits, one after the other with the least significant byte
/// first.
pub fn bytes_of_16(words: &[u16]) -> (bytes: Vec<u8>)
    ensures
        bytes@ == Seq::new(2 * words@.len(), |i: int| nth_byte(words@[i / 2] as int, i % 2)),
{
    let mut bytes: Vec<u8> = Vec::new();
    let mut n: usize = 0;
    while n < words.len()
        invariant
            n <= words@.len(),
            bytes@ == Seq::new((2 * n) as nat, |i: int| nth_byte(words@[i / 2] as int, i % 2)),
        decreases words@.len() - n,
    {
        let word: u16 = words[n];
        proof {
            reveal_with_fuel(nth_byte, 2);
        }
        bytes.push((word % 256) as u8);
        bytes.push((word / 256 % 256) as u8);
        n += 1;
        assert(bytes@ =~= Seq::new(
            (2 * n) as nat,
            |i: int| nth_byte(words@[i / 2] as int, i % 2),
        ));
    }
    bytes
}

/// Samples of 32 bits, given by their bits, one after the other with the least significant byte
/// first.
pub fn bytes_of_32(words: &[u32]) -> (bytes: Vec<u8>)
    ensures
        bytes@ == Seq::new(4 * words@.len(), |i: int| nth_byte(words@[i / 4] as int, i % 4)),
{
    let mut bytes: Vec<u8> = Vec::new();
    let mut n: usize = 0;
    while n < words.len()
        invariant
            n <= words@.len(),
            bytes@ == Seq::new((4 * n) as nat, |i: int| nth_byte(words@[i / 4] as int, i % 4)),
        decreases words@.len() - n,
    {
        let word: u32 = words[n];
        proof {
            reveal_with_fuel(nth_byte, 4);
        }
        bytes.push((word % 256) as u8);
        bytes.push((word / 256 % 256) as u8);
        bytes.push((word / 256 / 256 % 256) as u8);
        bytes.push((word / 256 / 256 / 256 % 256) as u8);
        n += 1;
        assert(bytes@ =~= Seq::new(
            (4 * n) as nat,
            |i: int| nth_byte(words@[i / 4] as int, i % 4),
        ));
    }
    bytes
}

/// A buffer is filled with whole frames: as many as fit, but no more than are asked for.
pub proof fn lemma_buffer_is_filled_with_frames(len: int, frame_size: int, requested: int)
    requires
        0 <= len,
        0 < frame_size,
        0 <= requested,
    ensures
        ({
            let bytes = buffer_bytes(len, frame_size, requested);
            &&& 0 <= bytes <= len
            &&& bytes % frame_size == 0
            &&& requested > 0 ==> bytes <= requested * frame_size
            &&& bytes + frame_size > len || (requested > 0 && bytes == requested * frame_size)
        }),
{
    lemma_frames(len, frame_size, requested);
    assert(len % frame_size < frame_size) by (nonlinear_arith)
        requires
            0 < frame_size,
    ;
}

/// The bytes of a sample make up the sample, the least significant one first.
pub proof fn lemma_bytes_make_up_the_sample(short: u16, long: u32)
    ensures
        short == nth_byte(short as int, 0) + 256 * nth_byte(short as int, 1),
        long == nth_byte(long as int, 0) + 256 * nth_byte(long as int, 1) + 65536 * nth_byte(
            long as int,
            2,
        ) + 16777216 * nth_byte(long as int, 3),
{
    reveal_with_fuel(nth_byte, 4);
}

/// The samples stand one after the other in the bytes.
pub proof fn lemma_samples_stand_in_order(
    words: &[u32],
    short_words: &[u16],
    bytes: Vec<u8>,
    short_bytes: Vec<u8>,
    i: int,
)
    requires
        call_ensures(bytes_of_32, (words,), bytes),
        call_ensures(bytes_of_16, (short_words,), short_bytes),
    ensures
        bytes@.len() == 4 * words@.len(),
        short_bytes@.len() == 2 * short_words@.len(),
        0 <= i < words@.len() ==> words@[i] == bytes@[4 * i] + 256 * bytes@[4 * i + 1] + 65536
            * bytes@[4 * i + 2] + 16777216 * bytes@[4 * i + 3],
        0 <= i < short_words@.len() ==> short_words@[i] == short_bytes@[2 * i] + 256
            * short_bytes@[2 * i + 1],
{
    if 0 <= i < words@.len() {
        lemma_bytes_make_up_the_sample(0, words@[i]);
        assert((4 * i) / 4 == i && (4 * i + 1) / 4 == i && (4 * i + 2) / 4 == i && (4 * i + 3) / 4
            == i);
    }
    if 0 <= i < short_words@.len() {
        lemma_bytes_make_up_the_sample(short_words@[i], 0);
        assert((2 * i) / 2 == i && (2 * i + 1) / 2 == i);
    }
}

/// As much is written as there is room for and is left, the sink waits just where that is nothing,
/// and nothing is written for a stream that is gone.
pub proof fn lemma_as_much_is_written_as_fits(
    abandoned: bool,
    slots: usize,
    left: usize,
    plan: WritePlan,
)
    requires
        call_ensures(plan_write, (abandoned, slots, left), plan),
    ensures
        plan is Died <==> abandoned,
        plan is Wait <==> !abandoned && (slots == 0 || left == 0),
        plan matches WritePlan::Write(n) ==> {
            &&& 0 < n <= slots
            &&& n <= left
            &&& n == slots || n == left
        },
{
}

/// The ring holds a whole number of frames, as many as the quanta that it is to hold, and the sink
/// waits for half a quantum: two waits are no longer than a quantum, and shorter by less than a
/// microsecond.
pub proof fn lemma_quanta_fill_the_ring(format: AudioFormat, quantum: u32)
    ensures
        ring_slots(format, quantum) == quantum * ring_slots(format, 1),
        ring_slots(format, 1) == RING_QUANTA * (NUM_CHANNELS * format.bytes()),
        ({
            let two_waits = 2 * backpressure_nanos(quantum);
            &&& two_waits * SAMPLE_RATE <= quantum * 1_000_000_000
            &&& quantum * 1_000_000_000 < (two_waits + 1000) * SAMPLE_RATE
        }),
{
    let bytes = format.bytes();
    assert(RING_QUANTA * quantum * (bytes * NUM_CHANNELS) == quantum * (RING_QUANTA * 1 * (bytes
        * NUM_CHANNELS))) by (nonlinear_arith);
}

/// The encodings that PipeWire has a name for are those that the error names.
pub proof fn lemma_supported_encodings(format: AudioFormat)
    ensures
        spa_format_spec(format) is Some <==> format is S16 || format is S32 || format is F32,
        spa_format_spec(format) == Some(SpaFormat::S16LE) <==> format is S16,
        spa_format_spec(format) == Some(SpaFormat::S32LE) <==> format is S32,
        spa_format_spec(format) == Some(SpaFormat::F32LE) <==> format is F32,
{
}

/// The stream is spawned until it is connected; only then does the sink have an end to write to, and
/// commands can be sent.
pub proof fn lemma_sink_writes_once_connected(
    sink: &mut PipeWireSink,
    producer: Producer<u8>,
    ready: Ready,
    result: Result<(), SinkError>,
    step: StartStep,
    running: Result<(), SinkError>,
)
    requires
        call_ensures(PipeWireSink::connected, (sink, producer, ready), result),
        call_ensures(PipeWireSink::start, (final(sink),), step),
        call_ensures(PipeWireSink::running, (final(sink),), running),
    ensures
        result is Ok <==> ready is Connected,
        ready is Connected ==> final(sink).producer == Some(producer) && step is Activate && running
            is Ok,
        !(ready is Connected) ==> final(sink).producer == old(sink).producer,
        step is Spawn <==> final(sink).producer is None,
        running is Err <==> final(sink).producer is None,
        final(sink).format == old(sink).format && final(sink).quantum == old(sink).quantum,
{
}

} // verus!
