//! How audio from the other side is played.
use vstd::prelude::*;

use crate::common::Opus;
use crate::streamer::audio::Channels;
use crate::wire::audio_readable;

verus! {

/// The number of samples that wait for playback at most.
pub const PLAYBACK_BUFFER_CAP: usize = 20_000;

/// The number of samples that a chunk decodes to at most.
pub const DECODE_BUFFER_CAP: usize = 4000;

/// The end of a ring buffer at which samples are put in.
#[verifier::external_type_specification]
#[verifier::external_body]
#[verifier::reject_recursive_types(T)]
pub struct ExProducer<T>(rtrb::Producer<T>);

/// The end of a ring buffer at which samples are taken out.
#[verifier::external_type_specification]
#[verifier::external_body]
#[verifier::reject_recursive_types(T)]
pub struct ExConsumer<T>(rtrb::Consumer<T>);

/// All samples that have been put into the ring buffer, also those that have been taken out.
pub uninterp spec fn written_samples(writer: rtrb::Producer<i16>) -> Seq<i16>;

/// The number of samples that the ring buffer has room for.
pub uninterp spec fn ring_capacity(writer: rtrb::Producer<i16>) -> nat;

/// `rtrb::RingBuffer::new`: the two ends of an empty ring buffer with the given room.
#[verifier::external_body]
fn new_ring(capacity: usize) -> (ends: (rtrb::Producer<i16>, rtrb::Consumer<i16>))
    requires
        capacity <= PLAYBACK_BUFFER_CAP,
    ensures
        written_samples(ends.0) == Seq::<i16>::empty(),
        ring_capacity(ends.0) == capacity,
{
    rtrb::RingBuffer::new(capacity)
}

/// `rtrb::Producer::push_partial_slice`: puts as many samples as there is room for into the ring
/// buffer, and returns those that were put in and the others. How much room there is depends on
/// how many samples the reader has taken out, which is not stated; there is room for all of them
/// as long as no more samples have ever been put in than the ring buffer holds.
#[verifier::external_body]
fn push_partial_slice<'a>(writer: &mut rtrb::Producer<i16>, chunk: &'a [i16]) -> (r: (
    &'a [i16],
    &'a [i16],
))
    ensures
        r.0@ + r.1@ == chunk@,
        written_samples(*final(writer)) == written_samples(*old(writer)) + r.0@,
        ring_capacity(*final(writer)) == ring_capacity(*old(writer)),
        written_samples(*old(writer)).len() + chunk@.len() <= ring_capacity(*old(writer))
            ==> r.1@.len() == 0,
        r.0@.len() <= ring_capacity(*old(writer)),
{
    writer.push_partial_slice(chunk)
}

/// What an output device offers.
#[derive(Debug, Clone, Copy, PartialEq, Eq, Structural)]
pub struct OutputConfig {
    pub channels: u16,
    pub min_sample_rate: u32,
    pub max_sample_rate: u32,
    /// Whether samples are signed 16-bit integers.
    pub is_i16: bool,
}

impl OutputConfig {
    /// Whether the device can play this audio in this way.
    pub open spec fn matches(self, channels: u32, sample_rate: u32) -> bool {
        &&& self.channels == channels
        &&& self.min_sample_rate <= sample_rate <= self.max_sample_rate
        &&& self.is_i16
    }
}

/// A configuration can play audio if it has as many channels, plays as many samples per second as the
/// audio has, both ends of its range included, and takes signed 16-bit samples.
pub proof fn law_matching_config(config: OutputConfig, channels: u32, sample_rate: u32)
    ensures
        config.matches(channels, sample_rate) <==> {
            &&& config.channels == channels
            &&& !(sample_rate < config.min_sample_rate)
            &&& !(sample_rate > config.max_sample_rate)
            &&& config.is_i16
        },
{
}

/// The first of the configurations that can play the audio.
pub fn select_config(configs: &[OutputConfig], channels: u32, sample_rate: u32) -> (at: Option<usize>)
    ensures
        at matches Some(i) ==> {
            &&& i < configs@.len()
            &&& configs@[i as int].matches(channels, sample_rate)
            &&& forall|j: int|
                0 <= j < i ==> !(#[trigger] configs@[j]).matches(channels, sample_rate)
        },
        at is None ==> forall|j: int|
            0 <= j < configs@.len() ==> !(#[trigger] configs@[j]).matches(channels, sample_rate),
{
    let mut i: usize = 0;
    while i < configs.len()
        invariant
            i <= configs@.len(),
            forall|j: int|
                0 <= j < i ==> !(#[trigger] configs@[j]).matches(channels, sample_rate),
        decreases configs@.len() - i,
    {
        let config = configs[i];
        if config.channels as u32 != channels || sample_rate < config.min_sample_rate || sample_rate
            > config.max_sample_rate || !config.is_i16 {
            i = i + 1;
            continue;
        }
        return Some(i);
    }
    None
}

/// What the playback thread has reported.
#[derive(Debug, PartialEq, Eq)]
pub enum PlaybackReport<E> {
    /// Nothing.
    Nothing,
    /// The playback stream can no longer be used.
    StreamInvalidated,
    /// Another error.
    Failed(E),
    /// The thread is gone.
    Disconnected,
}

/// What follows from it.
#[derive(Debug, PartialEq, Eq)]
pub enum PlaybackStep<E> {
    /// Go on.
    Continue,
    /// Make a new playback stream.
    Recreate,
    /// Give up with the error.
    Failed(E),
    /// Give up, because the playback thread panicked.
    Panicked,
}

/// What is known of the playback.
#[verifier::ext_equal]
pub struct PlaybackState {
    /// All samples that have been put in.
    pub written: Seq<i16>,
    pub channels: u32,
    pub sample_rate: u32,
    /// Whether there is a playback stream: it is gone once it has been invalidated.
    pub has_stream: bool,
}

impl PlaybackState {
    /// What follows from a report of the playback thread. Without a stream nothing does.
    pub open spec fn step<E>(self, report: PlaybackReport<E>) -> PlaybackStep<E> {
        if !self.has_stream {
            PlaybackStep::Continue
        } else {
            match report {
                PlaybackReport::Nothing => PlaybackStep::Continue,
                PlaybackReport::StreamInvalidated => PlaybackStep::Recreate,
                PlaybackReport::Failed(err) => PlaybackStep::Failed(err),
                PlaybackReport::Disconnected => PlaybackStep::Panicked,
            }
        }
    }

    /// After a report of the playback thread: a stream that has been invalidated is gone.
    pub open spec fn after<E>(self, report: PlaybackReport<E>) -> Self {
        PlaybackState { has_stream: self.has_stream && !(report is StreamInvalidated), ..self }
    }

    /// After some reports, one after the other, with no new playback made in between.
    pub open spec fn after_reports<E>(self, reports: Seq<PlaybackReport<E>>) -> Self
        decreases reports.len(),
    {
        if reports.len() == 0 {
            self
        } else {
            self.after_reports(reports.drop_last()).after(reports.last())
        }
    }
}

/// Puts samples where the playback thread finds them.
pub struct AudioPlayback {
    writer: rtrb::Producer<i16>,
    channels: u32,
    sample_rate: u32,
    has_stream: bool,
}

impl View for AudioPlayback {
    type V = PlaybackState;

    closed spec fn view(&self) -> PlaybackState {
        PlaybackState {
            written: written_samples(self.writer),
            channels: self.channels,
            sample_rate: self.sample_rate,
            has_stream: self.has_stream,
        }
    }
}

impl AudioPlayback {
    /// The buffer has room for `PLAYBACK_BUFFER_CAP` samples.
    pub closed spec fn wf(&self) -> bool {
        ring_capacity(self.writer) == PLAYBACK_BUFFER_CAP
    }

    /// Whether the two ends of the ring buffer were made together, and nothing has been put in
    /// since.
    pub closed spec fn made_with(&self, reader: rtrb::Consumer<i16>) -> bool {
        call_ensures(new_ring, (PLAYBACK_BUFFER_CAP,), (self.writer, reader))
    }

    /// Whether the ring buffer can have taken in this many samples of the chunk, when it was
    /// offered all of them.
    pub closed spec fn offered(&self, chunk: &[i16], written: int) -> bool {
        exists|writer: &mut rtrb::Producer<i16>, r: (&[i16], &[i16])|
            {
                &&& #[trigger] call_ensures(push_partial_slice, (writer, chunk), r)
                &&& *writer == self.writer
                &&& written == r.0@.len()
            }
    }

    /// An empty buffer, and the end of it that the playback thread reads.
    pub fn new(channels: u32, sample_rate: u32) -> (r: (Self, rtrb::Consumer<i16>))
        ensures
            r.0.wf(),
            r.0@ == (PlaybackState {
                written: Seq::<i16>::empty(),
                channels,
                sample_rate,
                has_stream: true,
            }),
            r.0.made_with(r.1),
    {
        let (writer, reader) = new_ring(PLAYBACK_BUFFER_CAP);
        (AudioPlayback { writer, channels, sample_rate, has_stream: true }, reader)
    }

    /// The number of channels.
    pub fn channels(&self) -> (channels: u32)
        ensures
            channels == self@.channels,
    {
        self.channels
    }

    /// The sample rate.
    pub fn sample_rate(&self) -> (sample_rate: u32)
        ensures
            sample_rate == self@.sample_rate,
    {
        self.sample_rate
    }

    /// Whether there is a playback stream.
    pub fn has_stream(&self) -> (has_stream: bool)
        ensures
            has_stream == self@.has_stream,
    {
        self.has_stream
    }

    /// What follows from what the playback thread has reported. Without a stream there is nothing
    /// to do: it has been invalidated, and could not be made again.
    pub fn get_error<E>(&mut self, report: PlaybackReport<E>) -> (step: PlaybackStep<E>)
        ensures
            final(self).wf() == old(self).wf(),
            final(self)@ == old(self)@.after(report),
            final(self)@.written == old(self)@.written,
            final(self)@.channels == old(self)@.channels,
            final(self)@.sample_rate == old(self)@.sample_rate,
            final(self)@.has_stream <==> old(self)@.has_stream && report !is StreamInvalidated,
            step == old(self)@.step(report),
            !old(self)@.has_stream ==> step is Continue,
            old(self)@.has_stream ==> match report {
                PlaybackReport::Nothing => step is Continue,
                PlaybackReport::StreamInvalidated => step is Recreate,
                PlaybackReport::Failed(err) => step == PlaybackStep::Failed(err),
                PlaybackReport::Disconnected => step is Panicked,
            },
    {
        if !self.has_stream {
            return PlaybackStep::Continue;
        }
        match report {
            PlaybackReport::Nothing => PlaybackStep::Continue,
            PlaybackReport::StreamInvalidated => {
                self.has_stream = false;
                PlaybackStep::Recreate
            },
            PlaybackReport::Failed(err) => PlaybackStep::Failed(err),
            PlaybackReport::Disconnected => PlaybackStep::Panicked,
        }
    }

    /// Puts a chunk of samples into the buffer, as far as there is room, and returns how many were
    /// put in. The others are lost.
    pub fn write_chunk(&mut self, chunk: &[i16]) -> (written: usize)
        requires
            old(self).wf(),
        ensures
            final(self).wf(),
            old(self).offered(chunk, written as int),
            written <= chunk@.len(),
            final(self)@ == (PlaybackState {
                written: old(self)@.written + chunk@.take(written as int),
                ..old(self)@
            }),
            old(self)@.written.len() + chunk@.len() <= PLAYBACK_BUFFER_CAP ==> written
                == chunk@.len(),
    {
        let (written, remainder) = push_partial_slice(&mut self.writer, chunk);
        proof {
            assert(chunk@.take(written@.len() as int) =~= written@);
            assert(chunk@.len() == written@.len() + remainder@.len());
        }
        written.len()
    }
}

/// The chunks that are missing between the last one and this one.
pub open spec fn missing_chunks(last_chunk_id: u64, chunk_id: u64) -> Option<(u64, u64)> {
    if last_chunk_id + 1 < chunk_id {
        Some(((last_chunk_id + 1) as u64, (chunk_id - 1) as u64))
    } else {
        None
    }
}

/// The number of channels.
pub open spec fn channel_count(is_stereo: bool) -> u32 {
    if is_stereo {
        2
    } else {
        1
    }
}

/// What is done with a chunk.
pub struct ChunkPlan<'a> {
    /// The first and the last of the chunks that were lost before this one.
    pub lost: Option<(u64, u64)>,
    /// Whether a decoder and a playback stream have to be made first.
    pub create: bool,
    pub channels: Channels,
    pub num_channels: u32,
    pub sample_rate: u32,
    /// What is decoded.
    pub bytes: &'a [u8],
}

/// Decides what is done with the chunks of a stream of audio.
pub struct AudioProcessor {
    last_chunk_id: u64,
    is_playing: bool,
}

impl View for AudioProcessor {
    type V = (u64, bool);

    /// The id of the last chunk, and whether there are a decoder and a playback stream.
    closed spec fn view(&self) -> (u64, bool) {
        (self.last_chunk_id, self.is_playing)
    }
}

impl AudioProcessor {
    /// No chunk has come in.
    pub fn new() -> (processor: Self)
        ensures
            processor@ == (0u64, false),
    {
        AudioProcessor { last_chunk_id: 0, is_playing: false }
    }

    /// Whether the id of the last chunk leaves room for a next one.
    pub fn can_process(&self) -> (r: bool)
        ensures
            r == (self@.0 < u64::MAX),
    {
        self.last_chunk_id < u64::MAX
    }

    /// What to do with a chunk.
    pub fn on_chunk<'a>(&mut self, chunk: Opus<'a>) -> (plan: ChunkPlan<'a>)
        requires
            old(self)@.0 < u64::MAX,
        ensures
            final(self)@ == (chunk.chunk_id, true),
            plan.lost == missing_chunks(old(self)@.0, chunk.chunk_id),
            plan.create == !old(self)@.1,
            plan.channels == if chunk.is_stereo {
                Channels::Stereo
            } else {
                Channels::Mono
            },
            plan.num_channels == channel_count(chunk.is_stereo),
            plan.num_channels == if chunk.is_stereo {
                2int
            } else {
                1int
            },
            plan.lost is Some <==> old(self)@.0 + 1 < chunk.chunk_id,
            plan.lost matches Some(range) ==> range.0 == old(self)@.0 + 1 && range.1 + 1
                == chunk.chunk_id,
            plan.sample_rate == chunk.sample_rate,
            plan.bytes@ == chunk.bytes@,
    {
        let lost = if self.last_chunk_id + 1 < chunk.chunk_id {
            Some((self.last_chunk_id + 1, chunk.chunk_id - 1))
        } else {
            None
        };
        let (channels, num_channels): (Channels, u32) = match chunk.is_stereo {
            false => (Channels::Mono, 1),
            true => (Channels::Stereo, 2),
        };
        let create = !self.is_playing;
        self.is_playing = true;
        self.last_chunk_id = chunk.chunk_id;
        ChunkPlan {
            lost,
            create,
            channels,
            num_channels,
            sample_rate: chunk.sample_rate,
            bytes: chunk.bytes,
        }
    }

    /// What to do with a message: nothing, if it is no chunk.
    pub fn on_message<'a>(&mut self, message: &'a [u8]) -> (r: Result<
        ChunkPlan<'a>,
        wincode::ReadError,
    >)
        requires
            old(self)@.0 < u64::MAX,
        ensures
            r is Ok <==> audio_readable(message@),
            r is Err ==> final(self)@ == old(self)@,
            r matches Ok(plan) ==> exists|chunk: Opus|
                {
                    &&& (#[trigger] chunk.layout()).is_prefix_of(message@)
                    &&& final(self)@ == (chunk.chunk_id, true)
                    &&& plan.lost == missing_chunks(old(self)@.0, chunk.chunk_id)
                    &&& plan.create == !old(self)@.1
                    &&& plan.num_channels == channel_count(chunk.is_stereo)
                    &&& plan.channels is Stereo <==> chunk.is_stereo
                    &&& plan.sample_rate == chunk.sample_rate
                    &&& plan.bytes@ == chunk.bytes@
                },
    {
        match Opus::from_bytes(message) {
            Ok(chunk) => Ok(self.on_chunk(chunk)),
            Err(err) => Err(err),
        }
    }
}

/// The number of samples that a decoded chunk has, all channels together.
pub fn decoded_len(samples_per_channel: usize, num_channels: u32) -> (len: usize)
    requires
        samples_per_channel * num_channels <= usize::MAX,
    ensures
        len == samples_per_channel * num_channels,
{
    samples_per_channel * num_channels as usize
}

/// Once the stream has been invalidated and could not be made again, each later look for an error
/// passes quietly, whatever is reported, and changes nothing.
pub proof fn law_invalidated_stream_stays_quiet<E>(
    playback: PlaybackState,
    later: Seq<PlaybackReport<E>>,
    report: PlaybackReport<E>,
)
    requires
        playback.has_stream,
    ensures
        ({
            let invalidated = PlaybackReport::<E>::StreamInvalidated;
            let gone = playback.after(invalidated);
            &&& playback.step(invalidated) is Recreate
            &&& gone == (PlaybackState { has_stream: false, ..playback })
            &&& gone.after_reports(later) == gone
            &&& gone.after_reports(later).step(report) is Continue
        }),
    decreases later.len(),
{
    if later.len() > 0 {
        law_invalidated_stream_stays_quiet(playback, later.drop_last(), later.last());
    }
}

/// The ends of a ring buffer go together if one call made them, with room for 20,000 samples.
proof fn law_ends_are_made_together(playback: AudioPlayback, reader: rtrb::Consumer<i16>)
    ensures
        playback.made_with(reader) <==> call_ensures(
            new_ring,
            (20_000usize,),
            (playback.writer, reader),
        ),
{
}

/// The ring buffer is offered the chunk as it is, and as many samples count as written as it took.
proof fn law_chunks_are_offered(playback: AudioPlayback, chunk: &[i16], written: int)
    ensures
        playback.offered(chunk, written) <==> exists|
            writer: &mut rtrb::Producer<i16>,
            r: (&[i16], &[i16]),
        |
            {
                &&& #[trigger] call_ensures(push_partial_slice, (writer, chunk), r)
                &&& *writer == playback.writer
                &&& written == r.0@.len()
            },
{
}

/// Mono audio has one channel, and stereo audio two.
pub proof fn law_channel_count(is_stereo: bool)
    ensures
        is_stereo ==> channel_count(is_stereo) == 2,
        !is_stereo ==> channel_count(is_stereo) == 1,
{
}

/// What is reported as lost is exactly what lies between two chunks: an id was lost if it comes
/// after the last chunk and before this one.
pub proof fn law_lost_chunks(last_chunk_id: u64, chunk_id: u64, id: u64)
    requires
        last_chunk_id < u64::MAX,
    ensures
        (missing_chunks(last_chunk_id, chunk_id) matches Some((first, last)) && first <= id <= last)
            <==> last_chunk_id < id < chunk_id,
{
}

} // verus!
