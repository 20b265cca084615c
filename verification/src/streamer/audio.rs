//! How captured audio is cut into chunks and sent.
use vstd::prelude::*;

use crate::common::Opus;
use crate::streamer::encoder::{ChunkEncoder, EncoderCall};
use crate::timestamp::{clock_shows_micros, nameable_micros, TimeStamp};
use crate::wire::audio_layout;

verus! {

/// The only sample rate that can be captured.
pub const SAMPLE_RATE: u32 = 48_000;

/// The samples per channel in a chunk: 120 samples is a 2.5ms frame at 48000 hz, which is the
/// smallest Opus frame size.
pub const SAMPLES_PER_CHUNK: usize = 120;

/// How many channels audio has.
#[derive(Debug, Clone, Copy, PartialEq, Eq, Structural)]
pub enum Channels {
    Mono,
    Stereo,
}

/// How captured audio is cut and encoded.
#[derive(Debug, Clone, Copy, PartialEq, Eq, Structural)]
pub struct ChunkFormat {
    pub channels: Channels,
    /// The number of samples in a chunk, all channels together.
    pub chunk_len: usize,
}

/// Why captured audio cannot be encoded.
#[derive(Debug, Clone, Copy, PartialEq, Eq, Structural)]
pub enum FormatError {
    /// The sample rate is not `SAMPLE_RATE`.
    SampleRate(u32),
    /// Only mono and stereo audio input is supported.
    NumChannels(u32),
}

/// How to encode audio with this many channels and samples per second.
pub open spec fn chunk_format(num_channels: u32, sample_rate: u32) -> Result<
    ChunkFormat,
    FormatError,
> {
    if sample_rate != SAMPLE_RATE {
        Err(FormatError::SampleRate(sample_rate))
    } else if num_channels == 1 {
        Ok(ChunkFormat { channels: Channels::Mono, chunk_len: 120 })
    } else if num_channels == 2 {
        Ok(ChunkFormat { channels: Channels::Stereo, chunk_len: 240 })
    } else {
        Err(FormatError::NumChannels(num_channels))
    }
}

impl ChunkFormat {
    /// How to encode audio with this many channels and samples per second.
    pub fn new(num_channels: u32, sample_rate: u32) -> (r: Result<ChunkFormat, FormatError>)
        ensures
            r == chunk_format(num_channels, sample_rate),
            r is Ok <==> sample_rate == 48_000 && 1 <= num_channels <= 2,
            r matches Ok(format) ==> format.chunk_len == 120 * num_channels && (format.channels
                is Stereo <==> num_channels == 2),
            r matches Err(FormatError::SampleRate(rate)) ==> rate == sample_rate && rate != 48_000,
            r matches Err(FormatError::NumChannels(n)) ==> n == num_channels && sample_rate
                == 48_000,
    {
        if sample_rate != SAMPLE_RATE {
            return Err(FormatError::SampleRate(sample_rate));
        }
        let channels = match num_channels {
            1 => Channels::Mono,
            2 => Channels::Stereo,
            _ => {
                return Err(FormatError::NumChannels(num_channels));
            },
        };
        Ok(ChunkFormat { channels, chunk_len: SAMPLES_PER_CHUNK * num_channels as usize })
    }
}

/// The message that carries an encoded chunk, encoded at `timestamp`. The next chunk gets the next
/// id.
pub fn send_encoded_at(
    chunk_id: &mut u64,
    encoded: &[u8],
    sample_rate: u32,
    num_channels: u32,
    timestamp: i64,
) -> (message: Vec<u8>)
    requires
        *old(chunk_id) < u64::MAX,
        encoded@.len() + 29 <= isize::MAX,
    ensures
        *final(chunk_id) == *old(chunk_id) + 1,
        message@ == audio_layout(
            *old(chunk_id),
            sample_rate,
            num_channels == 2,
            encoded@,
            timestamp,
        ),
{
    let chunk = Opus {
        chunk_id: *chunk_id,
        sample_rate,
        is_stereo: num_channels == 2,
        bytes: encoded,
        timestamp,
    };
    let message = chunk.to_bytes();
    *chunk_id = *chunk_id + 1;
    message
}

/// The message that carries an encoded chunk, encoded now.
pub fn send_encoded(
    chunk_id: &mut u64,
    encoded: &[u8],
    sample_rate: u32,
    num_channels: u32,
) -> (message: Vec<u8>)
    requires
        *old(chunk_id) < u64::MAX,
        encoded@.len() + 29 <= isize::MAX,
    ensures
        *final(chunk_id) == *old(chunk_id) + 1,
        exists|timestamp: i64|
            #[trigger] clock_shows_micros(timestamp) && 0 <= timestamp && nameable_micros(
                timestamp as int,
            ) && message@ == audio_layout(
                *old(chunk_id),
                sample_rate,
                num_channels == 2,
                encoded@,
                timestamp,
            ),
{
    let now = TimeStamp::now();
    let timestamp: i64 = now.raw();
    assert(clock_shows_micros(timestamp));
    send_encoded_at(chunk_id, encoded, sample_rate, num_channels, timestamp)
}

/// The chunks of `chunk_len` samples that can be cut from the front of the samples.
pub open spec fn full_chunks<T>(samples: Seq<T>, chunk_len: int) -> Seq<Seq<T>> {
    Seq::new(
        (samples.len() as int / chunk_len) as nat,
        |k: int| samples.subrange(k * chunk_len, (k + 1) * chunk_len),
    )
}

/// The samples after the last full chunk.
pub open spec fn left_over<T>(samples: Seq<T>, chunk_len: int) -> Seq<T> {
    samples.skip((samples.len() as int / chunk_len) * chunk_len)
}

/// Whether cloning a sample gives the same sample.
pub open spec fn clones_are_equal<T: Clone>() -> bool {
    forall|a: T, b: T| #[trigger] cloned(a, b) ==> a == b
}

/// Whether these are clones of the samples, one of each.
pub open spec fn are_clones<T: Clone>(samples: Seq<T>, clones: Seq<T>) -> bool {
    &&& samples.len() == clones.len()
    &&& forall|i: int| 0 <= i < samples.len() ==> #[trigger] cloned(samples[i], clones[i])
}

/// Whether these can be what an encoder's buffer has held, at first and after each chunk, and the
/// size of each encoded chunk.
pub open spec fn is_encoding(buffers: Seq<Seq<u8>>, sizes: Seq<usize>, first: Seq<u8>) -> bool {
    &&& buffers.len() == sizes.len() + 1
    &&& buffers[0] == first
}

/// What is known of an encoder: which chunk it can encode into a buffer that holds this, to this
/// size, so that the buffer holds that.
pub type Encoder<T> = spec_fn(Seq<T>, Seq<u8>, usize, Seq<u8>) -> bool;

/// Whether an encoder can encode the chunks, one after the other, into its buffer, so that they
/// take this up: `first` and `last` is what the buffer holds before and after.
pub open spec fn encodes_to<T>(
    can: Encoder<T>,
    chunks: Seq<Seq<T>>,
    first: Seq<u8>,
    encoded: Seq<Seq<u8>>,
    last: Seq<u8>,
) -> bool
    decreases chunks.len(),
{
    &&& encoded.len() == chunks.len()
    &&& if chunks.len() == 0 {
        last == first
    } else {
        exists|before: Seq<u8>, size: usize|
            {
                &&& encodes_to(
                    can,
                    chunks.drop_last(),
                    first,
                    encoded.drop_last(),
                    before,
                )
                &&& #[trigger] can(chunks.last(), before, size, last)
                &&& size <= last.len()
                &&& encoded.last() == last.take(size as int)
            }
    }
}

/// The contents of buffers.
pub open spec fn contents(buffers: Seq<Vec<u8>>) -> Seq<Seq<u8>> {
    buffers.map_values(|buffer: Vec<u8>| buffer@)
}

/// The contents of buffers stand in the order of the buffers.
pub proof fn law_contents(buffers: Seq<Vec<u8>>, i: int)
    ensures
        contents(buffers).len() == buffers.len(),
        0 <= i < buffers.len() ==> contents(buffers)[i] == buffers[i]@,
{
}

/// Chunks are encoded one by one: the encoder takes each of them in its order, finds its buffer as
/// it has left it, and the chunk takes up the front of the buffer, as far as the encoder said.
pub proof fn law_encoding_steps<T>(
    can: Encoder<T>,
    chunks: Seq<Seq<T>>,
    first: Seq<u8>,
    encoded: Seq<Seq<u8>>,
    last: Seq<u8>,
)
    requires
        encodes_to(can, chunks, first, encoded, last),
    ensures
        encoded.len() == chunks.len(),
        exists|buffers: Seq<Seq<u8>>, sizes: Seq<usize>|
            {
                &&& #[trigger] buffers.len() == chunks.len() + 1
                &&& #[trigger] sizes.len() == chunks.len()
                &&& buffers[0] == first
                &&& buffers.last() == last
                &&& forall|k: int|
                    0 <= k < chunks.len() ==> {
                        &&& #[trigger] sizes[k] <= buffers[k + 1].len()
                        &&& can(chunks[k], buffers[k], sizes[k], buffers[k + 1])
                        &&& encoded[k] == buffers[k + 1].take(sizes[k] as int)
                    }
            },
    decreases chunks.len(),
{
    let n = chunks.len() as int;
    if n == 0 {
        let buffers = seq![first];
        let sizes = Seq::<usize>::empty();
        assert(buffers.len() == chunks.len() + 1 && sizes.len() == chunks.len());
    } else {
        let (before, size) = choose|before: Seq<u8>, size: usize|
            {
                &&& encodes_to(can, chunks.drop_last(), first, encoded.drop_last(), before)
                &&& #[trigger] can(chunks.last(), before, size, last)
                &&& size <= last.len()
                &&& encoded.last() == last.take(size as int)
            };
        law_encoding_steps(can, chunks.drop_last(), first, encoded.drop_last(), before);
        let (buffers0, sizes0) = choose|buffers: Seq<Seq<u8>>, sizes: Seq<usize>|
            {
                &&& #[trigger] buffers.len() == n
                &&& #[trigger] sizes.len() == n - 1
                &&& buffers[0] == first
                &&& buffers.last() == before
                &&& forall|k: int|
                    0 <= k < n - 1 ==> {
                        &&& #[trigger] sizes[k] <= buffers[k + 1].len()
                        &&& can(chunks.drop_last()[k], buffers[k], sizes[k], buffers[k + 1])
                        &&& encoded.drop_last()[k] == buffers[k + 1].take(sizes[k] as int)
                    }
            };
        let buffers = buffers0.push(last);
        let sizes = sizes0.push(size);
        assert forall|k: int| 0 <= k < n implies {
            &&& #[trigger] sizes[k] <= buffers[k + 1].len()
            &&& can(chunks[k], buffers[k], sizes[k], buffers[k + 1])
            &&& encoded[k] == buffers[k + 1].take(sizes[k] as int)
        } by {
            if k < n - 1 {
                assert(sizes0[k] <= buffers0[k + 1].len());
            }
        }
        assert(buffers.len() == chunks.len() + 1 && sizes.len() == chunks.len());
    }
}

/// Encoding the chunks step by step.
proof fn lemma_encoded<T>(
    can: Encoder<T>,
    chunks: Seq<Seq<T>>,
    buffers: Seq<Seq<u8>>,
    sizes: Seq<usize>,
    encoded: Seq<Seq<u8>>,
)
    requires
        buffers.len() == chunks.len() + 1,
        sizes.len() == chunks.len(),
        encoded.len() == chunks.len(),
        forall|k: int|
            0 <= k < chunks.len() ==> {
                &&& #[trigger] sizes[k] <= buffers[k + 1].len()
                &&& encoded[k] == buffers[k + 1].take(sizes[k] as int)
                &&& can(chunks[k], buffers[k], sizes[k], buffers[k + 1])
            },
    ensures
        encodes_to(can, chunks, buffers[0], encoded, buffers.last()),
    decreases chunks.len(),
{
    let n = chunks.len() as int;
    if n > 0 {
        assert forall|k: int| 0 <= k < n - 1 implies {
            &&& #[trigger] sizes.drop_last()[k] <= buffers.drop_last()[k + 1].len()
            &&& encoded.drop_last()[k] == buffers.drop_last()[k + 1].take(
                sizes.drop_last()[k] as int,
            )
            &&& can(
                chunks.drop_last()[k],
                buffers.drop_last()[k],
                sizes.drop_last()[k],
                buffers.drop_last()[k + 1],
            )
        } by {
            assert(sizes[k] <= buffers[k + 1].len());
        }
        lemma_encoded(
            can,
            chunks.drop_last(),
            buffers.drop_last(),
            sizes.drop_last(),
            encoded.drop_last(),
        );
        assert(sizes[n - 1] <= buffers[n].len());
        assert(can(chunks.last(), buffers.drop_last().last(), sizes[n - 1], buffers.last()));
    }
}

/// Whether the samples that waited, and clones of the input behind them, can be cut into chunks and
/// encoded so that they take this up. What waits, and what the encoder's buffer holds, is given
/// before and after.
pub open spec fn cuts_and_encodes<T: Clone>(
    can: Encoder<T>,
    chunk_len: int,
    before: (Seq<T>, Seq<u8>),
    input: Seq<T>,
    encoded: Seq<Seq<u8>>,
    after: (Seq<T>, Seq<u8>),
) -> bool {
    exists|clones: Seq<T>|
        {
            &&& #[trigger] are_clones(input, clones)
            &&& clones_are_equal::<T>() ==> clones == input
            &&& after.0 == left_over(before.0 + clones, chunk_len)
            &&& encodes_to(
                can,
                full_chunks(before.0 + clones, chunk_len),
                before.1,
                encoded,
                after.1,
            )
        }
}

/// The clones of samples are as many as the samples, one of each in its place. Numbers are cloned as
/// they are.
pub proof fn law_clones<T: Clone>(samples: Seq<T>, clones: Seq<T>, i: int)
    requires
        are_clones(samples, clones),
    ensures
        clones.len() == samples.len(),
        0 <= i < samples.len() ==> cloned(samples[i], clones[i]),
        clones_are_equal::<T>() && 0 <= i < samples.len() ==> clones[i] == samples[i],
        clones_are_equal::<i16>(),
{
    if 0 <= i < samples.len() {
        assert(cloned(samples[i], clones[i]));
    }
}

/// What is cut and encoded is what waited and the input behind it, where clones are as what they are
/// cloned from: the full chunks are encoded, and what is left waits.
pub proof fn law_samples_are_cut_and_encoded<T: Clone>(
    can: Encoder<T>,
    chunk_len: int,
    before: (Seq<T>, Seq<u8>),
    input: Seq<T>,
    encoded: Seq<Seq<u8>>,
    after: (Seq<T>, Seq<u8>),
)
    requires
        clones_are_equal::<T>(),
        cuts_and_encodes(can, chunk_len, before, input, encoded, after),
    ensures
        encodes_to(can, full_chunks(before.0 + input, chunk_len), before.1, encoded, after.1),
        after.0 == left_over(before.0 + input, chunk_len),
{
}

/// Cutting off the first chunk.
proof fn lemma_first_chunk<T>(samples: Seq<T>, chunk_len: int)
    requires
        0 < chunk_len <= samples.len(),
    ensures
        full_chunks(samples, chunk_len) == seq![samples.take(chunk_len)] + full_chunks(
            samples.skip(chunk_len),
            chunk_len,
        ),
        left_over(samples, chunk_len) == left_over(samples.skip(chunk_len), chunk_len),
{
    let rest = samples.skip(chunk_len);
    let n = samples.len() as int / chunk_len;
    assert(n == rest.len() as int / chunk_len + 1 && n * chunk_len <= samples.len()) by (nonlinear_arith)
        requires
            n == samples.len() as int / chunk_len,
            rest.len() == samples.len() - chunk_len,
            0 < chunk_len <= samples.len(),
    ;
    assert((n - 1) * chunk_len == n * chunk_len - chunk_len) by (nonlinear_arith);
    let all = full_chunks(samples, chunk_len);
    let split = seq![samples.take(chunk_len)] + full_chunks(rest, chunk_len);
    assert forall|k: int| 0 <= k < n implies #[trigger] all[k] == split[k] by {
        assert((k + 1) * chunk_len == k * chunk_len + chunk_len && k * chunk_len == (k - 1) * chunk_len
            + chunk_len) by (nonlinear_arith);
        assert((k + 1) * chunk_len <= n * chunk_len && 0 <= k * chunk_len) by (nonlinear_arith)
            requires
                0 <= k < n,
                chunk_len > 0,
        ;
        if k > 0 {
            assert(0 <= (k - 1) * chunk_len) by (nonlinear_arith)
                requires
                    0 < k,
                    chunk_len > 0,
            ;
            assert(split[k] == full_chunks(rest, chunk_len)[k - 1]);
            assert(samples.subrange(k * chunk_len, (k + 1) * chunk_len) =~= rest.subrange(
                (k - 1) * chunk_len,
                k * chunk_len,
            ));
        } else {
            assert(0 * chunk_len == 0 && 1 * chunk_len == chunk_len);
            assert(all[0] =~= samples.take(chunk_len));
        }
    }
    assert(all =~= split);
    assert(samples.skip(n * chunk_len) =~= rest.skip((n - 1) * chunk_len));
}

/// Too few samples for a chunk.
proof fn lemma_no_chunk<T>(samples: Seq<T>, chunk_len: int)
    requires
        samples.len() < chunk_len,
    ensures
        full_chunks(samples, chunk_len) == Seq::<Seq<T>>::empty(),
        left_over(samples, chunk_len) == samples,
{
    assert(samples.len() as int / chunk_len == 0) by (nonlinear_arith)
        requires
            0 <= samples.len() < chunk_len,
    ;
    assert(0 * chunk_len == 0);
    assert(full_chunks(samples, chunk_len) =~= Seq::<Seq<T>>::empty());
    assert(samples.skip(0) =~= samples);
}

/// Cloning some more of the samples.
proof fn lemma_more_clones<T: Clone>(
    samples: Seq<T>,
    clones: Seq<T>,
    added: Seq<T>,
    from: int,
    to: int,
)
    requires
        0 <= from <= to <= samples.len(),
        are_clones(samples.take(from), clones),
        are_clones(samples.subrange(from, to), added),
    ensures
        are_clones(samples.take(to), clones + added),
{
    assert forall|i: int| 0 <= i < to implies #[trigger] cloned(
        samples.take(to)[i],
        (clones + added)[i],
    ) by {
        if i < from {
            assert(cloned(samples.take(from)[i], clones[i]));
        } else {
            assert(cloned(samples.subrange(from, to)[i - from], added[i - from]));
        }
    }
}

/// Samples that fill up a chunk.
proof fn lemma_filled_chunk<T>(start: Seq<T>, samples: Seq<T>, added: Seq<T>, chunk_len: int)
    requires
        left_over(start + samples, chunk_len).len() + added.len() == chunk_len,
        0 < chunk_len,
    ensures
        full_chunks(start + (samples + added), chunk_len) == full_chunks(
            start + samples,
            chunk_len,
        ).push(left_over(start + samples, chunk_len) + added),
        left_over(start + (samples + added), chunk_len) == Seq::<T>::empty(),
{
    let chunk = left_over(start + samples, chunk_len) + added;
    let none = chunk.skip(chunk_len);
    lemma_divided_input(start, samples, added, chunk_len);
    lemma_first_chunk(chunk, chunk_len);
    lemma_no_chunk(none, chunk_len);
    assert(chunk.take(chunk_len) =~= chunk);
    assert(none =~= Seq::empty());
    assert(full_chunks(start + samples, chunk_len) + (seq![chunk] + Seq::empty()) =~= full_chunks(
        start + samples,
        chunk_len,
    ).push(chunk));
}

/// Encodes samples in chunks, and returns what each of them takes up when it is encoded: what is to
/// be sent, in this order.
///
/// The encoder is called once for every chunk that is cut from what was in the buffer and the input
/// behind it, in the order of the chunks, and never else. Each call finds `encode_buffer` as the call
/// before has left it.
#[verifier::spinoff_prover]
pub fn encode_with<T: Clone, E: FnMut(&[T], &mut [u8]) -> usize>(
    buffer: &mut Vec<T>,
    encode_buffer: &mut [u8],
    input: &[T],
    chunk_len: usize,
    encoder: &mut ChunkEncoder<T, E>,
) -> (encoded: Vec<Vec<u8>>)
    requires
        old(buffer)@.len() < chunk_len,
        forall|chunk: &[T], out: &mut [u8]|
            chunk@.len() == chunk_len && out@.len() == old(encode_buffer)@.len()
                ==> #[trigger] call_requires(old(encoder).encoder(), (chunk, out)),
        forall|chunk: &[T], out: &mut [u8], size: usize|
            out@.len() == old(encode_buffer)@.len() && #[trigger] call_ensures(
                old(encoder).encoder(),
                (chunk, out),
                size,
            ) ==> size <= out@.len() == final(out)@.len(),
    ensures
        final(encoder).encoder() == old(encoder).encoder(),
        final(encoder).calls().len() == old(encoder).calls().len() + (old(buffer)@.len()
            + input@.len()) as int / chunk_len as int,
        exists|clones: Seq<T>|
            {
                let n = old(encoder).calls().len() as int;
                let calls = final(encoder).calls();
                let chunks = full_chunks(old(buffer)@ + clones, chunk_len as int);
                &&& #[trigger] are_clones(input@, clones)
                &&& clones_are_equal::<T>() ==> clones == input@
                &&& final(buffer)@ == left_over(old(buffer)@ + clones, chunk_len as int)
                &&& encoded@.len() == chunks.len()
                &&& calls.len() == n + chunks.len()
                &&& calls.take(n) == old(encoder).calls()
                &&& forall|k: int|
                    0 <= k < chunks.len() ==> {
                        &&& (#[trigger] calls[n + k]).chunk == chunks[k]
                        &&& calls[n + k].before == if k == 0 {
                            old(encode_buffer)@
                        } else {
                            calls[n + k - 1].after
                        }
                        &&& calls[n + k].size <= calls[n + k].after.len()
                    }
                &&& forall|k: int|
                    0 <= k < chunks.len() ==> (#[trigger] encoded@[k])@ == calls[n
                        + k].after.take(calls[n + k].size as int)
                &&& final(encode_buffer)@ == if chunks.len() == 0 {
                    old(encode_buffer)@
                } else {
                    calls.last().after
                }
            },
        final(buffer)@.len() < chunk_len,
        final(encode_buffer)@.len() == old(encode_buffer)@.len(),
        forall|k: int|
            0 <= k < encoded@.len() ==> (#[trigger] encoded@[k])@.len() <= old(encode_buffer)@.len(),
        clones_are_equal::<T>() ==> final(buffer)@ == left_over(
            old(buffer)@ + input@,
            chunk_len as int,
        ),
        exists|clones: Seq<T>, buffers: Seq<Seq<u8>>, sizes: Seq<usize>|
            {
                let chunks = full_chunks(old(buffer)@ + clones, chunk_len as int);
                &&& #[trigger] are_clones(input@, clones)
                &&& clones_are_equal::<T>() ==> clones == input@
                &&& final(buffer)@ == left_over(old(buffer)@ + clones, chunk_len as int)
                &&& #[trigger] is_encoding(buffers, sizes, old(encode_buffer)@)
                &&& sizes.len() == chunks.len()
                &&& final(encode_buffer)@ == buffers.last()
                &&& encoded@.len() == chunks.len()
                &&& forall|k: int|
                    0 <= k < chunks.len() ==> {
                        &&& #[trigger] sizes[k] <= buffers[k + 1].len()
                        &&& encoded@[k]@ == buffers[k + 1].take(sizes[k] as int)
                        &&& exists|chunk: &[T], out: &mut [u8]|
                            {
                                &&& #[trigger] call_ensures(old(encoder).encoder(), (chunk, out), sizes[k])
                                &&& chunk@ == chunks[k]
                                &&& out@ == buffers[k]
                                &&& final(out)@ == buffers[k + 1]
                            }
                    }
            },
        forall|can: Encoder<T>|
            (forall|chunk: &[T], out: &mut [u8], size: usize| #[trigger]
                call_ensures(old(encoder).encoder(), (chunk, out), size) ==> can(
                    chunk@,
                    out@,
                    size,
                    final(out)@,
                )) ==> #[trigger] cuts_and_encodes(
                can,
                chunk_len as int,
                (old(buffer)@, old(encode_buffer)@),
                input@,
                contents(encoded@),
                (final(buffer)@, final(encode_buffer)@),
            ),
{
    let ghost start = buffer@;
    let ghost c = chunk_len as int;
    let ghost mut clones: Seq<T> = Seq::empty();
    let ghost mut done: Seq<Seq<T>> = Seq::empty();
    let ghost mut buffers: Seq<Seq<u8>> = seq![encode_buffer@];
    let ghost mut sizes: Seq<usize> = Seq::empty();
    let ghost encode_chunk = encoder.encoder();
    let ghost calls0 = encoder.calls();
    let ghost mut made: Seq<EncoderCall<T>> = Seq::empty();
    assert(encoder.calls() =~= calls0 + made);
    let mut encoded: Vec<Vec<u8>> = Vec::new();
    let mut from: usize = 0;
    proof {
        lemma_no_chunk(start, c);
        assert(start + clones =~= start);
    }
    while input.len() - from >= chunk_len - buffer.len()
        invariant
            encoder.encoder() == encode_chunk,
            encoder.calls() == calls0 + made,
            made.len() == done.len(),
            forall|k: int|
                0 <= k < made.len() ==> #[trigger] made[k] == (EncoderCall {
                    chunk: done[k],
                    before: buffers[k],
                    after: buffers[k + 1],
                    size: sizes[k],
                }),
            forall|chunk: &[T], out: &mut [u8]|
                chunk@.len() == chunk_len && out@.len() == old(encode_buffer)@.len()
                    ==> #[trigger] call_requires(encode_chunk, (chunk, out)),
            forall|chunk: &[T], out: &mut [u8], size: usize|
                out@.len() == old(encode_buffer)@.len() && #[trigger] call_ensures(
                    encode_chunk,
                    (chunk, out),
                    size,
                ) ==> size <= out@.len() == final(out)@.len(),
            encode_buffer@.len() == old(encode_buffer)@.len(),
            from <= input@.len(),
            buffer@.len() < chunk_len,
            c == chunk_len,
            are_clones(input@.take(from as int), clones),
            done == full_chunks(start + clones, c),
            buffer@ == left_over(start + clones, c),
            is_encoding(buffers, sizes, old(encode_buffer)@),
            sizes.len() == done.len(),
            encode_buffer@ == buffers.last(),
            forall|k: int|
                0 <= k < done.len() ==> {
                    &&& #[trigger] sizes[k] <= buffers[k + 1].len()
                    &&& exists|chunk: &[T], out: &mut [u8]|
                        {
                            &&& #[trigger] call_ensures(encode_chunk, (chunk, out), sizes[k])
                            &&& chunk@ == done[k]
                            &&& out@ == buffers[k]
                            &&& final(out)@ == buffers[k + 1]
                        }
                },
            encoded@.len() == done.len(),
            forall|k: int|
                0 <= k < done.len() ==> {
                    &&& #[trigger] sizes[k] <= buffers[k + 1].len()
                    &&& encoded@[k]@ == buffers[k + 1].take(sizes[k] as int)
                    &&& encoded@[k]@.len() <= old(encode_buffer)@.len()
                },
        decreases input@.len() - from,
    {
        let ghost (waiting, done0, buffers0, sizes0) = (buffer@, done, buffers, sizes);
        let ghost encoded0 = encoded@;
        let to: usize = from + (chunk_len - buffer.len());
        buffer.extend_from_slice(&input[from..to]);
        let ghost added = buffer@.skip(waiting.len() as int);
        proof {
            assert(buffer@ =~= waiting + added);
            lemma_more_clones(input@, clones, added, from as int, to as int);
            lemma_filled_chunk(start, clones, added, c);
        }
        let size: usize = encoder.encode_chunk(buffer.as_slice(), encode_buffer);
        let mut bytes: Vec<u8> = Vec::new();
        bytes.extend_from_slice(&encode_buffer[0..size]);
        assert(bytes@ =~= encode_buffer@.take(size as int));
        encoded.push(bytes);
        proof {
            let call = EncoderCall {
                chunk: buffer@,
                before: buffers.last(),
                after: encode_buffer@,
                size,
            };
            assert((calls0 + made).push(call) =~= calls0 + made.push(call));
            made = made.push(call);
            clones = clones + added;
            done = done.push(buffer@);
            buffers = buffers.push(encode_buffer@);
            sizes = sizes.push(size);
        }
        assert forall|k: int| 0 <= k < done.len() implies {
            &&& #[trigger] sizes[k] <= buffers[k + 1].len()
            &&& exists|chunk: &[T], out: &mut [u8]|
                {
                    &&& #[trigger] call_ensures(encode_chunk, (chunk, out), sizes[k])
                    &&& chunk@ == done[k]
                    &&& out@ == buffers[k]
                    &&& final(out)@ == buffers[k + 1]
                }
        } by {
            if k < sizes0.len() {
                assert(sizes[k] == sizes0[k] && done[k] == done0[k]);
                assert(buffers[k] == buffers0[k] && buffers[k + 1] == buffers0[k + 1]);
            } else {
                assert(sizes[k] == size && done[k] == buffer@);
            }
        }
        assert forall|k: int| 0 <= k < done.len() implies {
            &&& #[trigger] sizes[k] <= buffers[k + 1].len()
            &&& encoded@[k]@ == buffers[k + 1].take(sizes[k] as int)
            &&& encoded@[k]@.len() <= old(encode_buffer)@.len()
        } by {
            if k < sizes0.len() {
                assert(sizes[k] == sizes0[k] && encoded@[k] == encoded0[k]);
                assert(buffers[k + 1] == buffers0[k + 1]);
            } else {
                assert(sizes[k] == size && encoded@[k] == bytes);
            }
        }
        buffer.clear();
        from = to;
    }
    let ghost waiting = buffer@;
    buffer.extend_from_slice(&input[from..input.len()]);
    proof {
        let added = buffer@.skip(waiting.len() as int);
        assert(buffer@ =~= waiting + added);
        lemma_more_clones(input@, clones, added, from as int, input@.len() as int);
        lemma_divided_input(start, clones, added, c);
        lemma_no_chunk(buffer@, c);
        clones = clones + added;
        assert(input@.take(input@.len() as int) =~= input@);
        assert(done =~= full_chunks(start + clones, c));
        assert(are_clones(input@, clones));
        assert(clones_are_equal::<T>() ==> clones =~= input@) by {
            if clones_are_equal::<T>() {
                assert forall|i: int| 0 <= i < clones.len() implies clones[i] == input@[i] by {
                    assert(cloned(input@[i], clones[i]));
                }
            }
        }
        assert(is_encoding(buffers, sizes, old(encode_buffer)@));
        let n = calls0.len() as int;
        let calls = encoder.calls();
        assert(calls.take(n) =~= calls0);
        assert forall|k: int| 0 <= k < done.len() implies #[trigger] calls[n + k] == (EncoderCall {
            chunk: done[k],
            before: buffers[k],
            after: buffers[k + 1],
            size: sizes[k],
        }) by {
            assert(calls[n + k] == made[k]);
        }
        assert forall|k: int| 0 <= k < done.len() implies (#[trigger] encoded@[k])@ == calls[n
            + k].after.take(calls[n + k].size as int) by {
            assert(sizes[k] <= buffers[k + 1].len());
        }
        assert forall|k: int| 0 <= k < encoded@.len() implies (#[trigger] encoded@[k])@.len()
            <= old(encode_buffer)@.len() by {
            assert(sizes[k] <= buffers[k + 1].len());
        }
        assert forall|can: Encoder<T>|
            (forall|chunk: &[T], out: &mut [u8], size: usize| #[trigger]
                call_ensures(encode_chunk, (chunk, out), size) ==> can(
                    chunk@,
                    out@,
                    size,
                    final(out)@,
                )) implies #[trigger] cuts_and_encodes(
            can,
            chunk_len as int,
            (start, old(encode_buffer)@),
            input@,
            contents(encoded@),
            (buffer@, encode_buffer@),
        ) by {
            assert forall|k: int| 0 <= k < done.len() implies {
                &&& #[trigger] sizes[k] <= buffers[k + 1].len()
                &&& can(done[k], buffers[k], sizes[k], buffers[k + 1])
            } by {}
            lemma_encoded(can, done, buffers, sizes, contents(encoded@));
        }
    }
    encoded
}

/// Encodes samples in chunks, one after the other, and returns what each of them takes up when it is
/// encoded: what is to be sent, in this order.
///
/// The samples wait in the buffer until there are enough of them: the chunks are cut from what was
/// in the buffer and the input behind it, and the buffer keeps what does not fill a chunk. Every
/// chunk is encoded into `encode_buffer`. See [`encode_with`] for the calls of the encoder, one for
/// every chunk.
pub fn encode<T: Clone, E: FnMut(&[T], &mut [u8]) -> usize>(
    buffer: &mut Vec<T>,
    encode_buffer: &mut [u8],
    input: &[T],
    chunk_len: usize,
    encode_chunk: E,
) -> (encoded: Vec<Vec<u8>>)
    requires
        old(buffer)@.len() < chunk_len,
        forall|chunk: &[T], out: &mut [u8]|
            chunk@.len() == chunk_len && out@.len() == old(encode_buffer)@.len()
                ==> #[trigger] call_requires(encode_chunk, (chunk, out)),
        forall|chunk: &[T], out: &mut [u8], size: usize|
            out@.len() == old(encode_buffer)@.len() && #[trigger] call_ensures(
                encode_chunk,
                (chunk, out),
                size,
            ) ==> size <= out@.len() == final(out)@.len(),
    ensures
        final(buffer)@.len() < chunk_len,
        final(encode_buffer)@.len() == old(encode_buffer)@.len(),
        forall|k: int|
            0 <= k < encoded@.len() ==> (#[trigger] encoded@[k])@.len() <= old(encode_buffer)@.len(),
        clones_are_equal::<T>() ==> final(buffer)@ == left_over(
            old(buffer)@ + input@,
            chunk_len as int,
        ),
        exists|clones: Seq<T>, buffers: Seq<Seq<u8>>, sizes: Seq<usize>|
            {
                let chunks = full_chunks(old(buffer)@ + clones, chunk_len as int);
                &&& #[trigger] are_clones(input@, clones)
                &&& clones_are_equal::<T>() ==> clones == input@
                &&& final(buffer)@ == left_over(old(buffer)@ + clones, chunk_len as int)
                &&& #[trigger] is_encoding(buffers, sizes, old(encode_buffer)@)
                &&& sizes.len() == chunks.len()
                &&& final(encode_buffer)@ == buffers.last()
                &&& encoded@.len() == chunks.len()
                &&& forall|k: int|
                    0 <= k < chunks.len() ==> {
                        &&& #[trigger] sizes[k] <= buffers[k + 1].len()
                        &&& encoded@[k]@ == buffers[k + 1].take(sizes[k] as int)
                        &&& exists|chunk: &[T], out: &mut [u8]|
                            {
                                &&& #[trigger] call_ensures(encode_chunk, (chunk, out), sizes[k])
                                &&& chunk@ == chunks[k]
                                &&& out@ == buffers[k]
                                &&& final(out)@ == buffers[k + 1]
                            }
                    }
            },
        forall|can: Encoder<T>|
            (forall|chunk: &[T], out: &mut [u8], size: usize| #[trigger]
                call_ensures(encode_chunk, (chunk, out), size) ==> can(
                    chunk@,
                    out@,
                    size,
                    final(out)@,
                )) ==> #[trigger] cuts_and_encodes(
                can,
                chunk_len as int,
                (old(buffer)@, old(encode_buffer)@),
                input@,
                contents(encoded@),
                (final(buffer)@, final(encode_buffer)@),
            ),
{
    let mut encoder = ChunkEncoder::new(encode_chunk);
    encode_with(buffer, encode_buffer, input, chunk_len, &mut encoder)
}

/// The messages that carry encoded chunks: the first one has the id `first_id`, and the ids go up.
pub open spec fn numbered_messages(
    first_id: int,
    sample_rate: u32,
    is_stereo: bool,
    encoded: Seq<Seq<u8>>,
    timestamps: Seq<i64>,
) -> Seq<Seq<u8>> {
    Seq::new(
        encoded.len(),
        |k: int|
            audio_layout((first_id + k) as u64, sample_rate, is_stereo, encoded[k], timestamps[k]),
    )
}

/// Whether these can be the times of messages, in microseconds since the UNIX epoch.
pub open spec fn are_times(timestamps: Seq<i64>) -> bool {
    forall|k: int|
        0 <= k < timestamps.len() ==> clock_shows_micros(#[trigger] timestamps[k]) && 0
            <= timestamps[k] && nameable_micros(timestamps[k] as int)
}

/// The times of messages are times that the clock can show.
pub proof fn law_times(timestamps: Seq<i64>, k: int)
    requires
        are_times(timestamps),
        0 <= k < timestamps.len(),
    ensures
        clock_shows_micros(timestamps[k]),
        0 <= timestamps[k],
{
}

/// What captured audio finds: the id of the next chunk, the samples that wait, and what the
/// encoder's buffer holds.
#[verifier::ext_equal]
pub struct Capturing<T> {
    pub chunk_id: u64,
    pub waiting: Seq<T>,
    pub encode_buffer: Seq<u8>,
}

/// Whether captured samples can be sent in these messages: one message for every full chunk of what
/// waited and what came in, with the next id, the encoded chunk, and the time at which it was put
/// together.
pub open spec fn captures<T>(
    can: Encoder<T>,
    format: ChunkFormat,
    sample_rate: u32,
    before: Capturing<T>,
    input: Seq<T>,
    messages: Seq<Seq<u8>>,
    after: Capturing<T>,
) -> bool {
    let samples = before.waiting + input;
    let chunks = full_chunks(samples, format.chunk_len as int);
    &&& after.waiting == left_over(samples, format.chunk_len as int)
    &&& after.chunk_id == before.chunk_id + chunks.len()
    &&& exists|encoded: Seq<Seq<u8>>, timestamps: Seq<i64>|
        {
            &&& #[trigger] encodes_to(
                can,
                chunks,
                before.encode_buffer,
                encoded,
                after.encode_buffer,
            )
            &&& #[trigger] are_times(timestamps)
            &&& timestamps.len() == encoded.len()
            &&& messages == numbered_messages(
                before.chunk_id as int,
                sample_rate,
                format.channels is Stereo,
                encoded,
                timestamps,
            )
        }
}

/// Messages are numbered one after the other: message `k` of them has the id `k` after the first.
pub proof fn law_numbered_messages(
    first_id: int,
    sample_rate: u32,
    is_stereo: bool,
    encoded: Seq<Seq<u8>>,
    timestamps: Seq<i64>,
    k: int,
)
    requires
        0 <= first_id,
        first_id + encoded.len() <= u64::MAX,
        0 <= k < encoded.len(),
    ensures
        ({
            let messages = numbered_messages(
                first_id,
                sample_rate,
                is_stereo,
                encoded,
                timestamps,
            );
            &&& messages.len() == encoded.len()
            &&& exists|id: u64|
                id == first_id + k && messages[k] == #[trigger] audio_layout(
                    id,
                    sample_rate,
                    is_stereo,
                    encoded[k],
                    timestamps[k],
                )
        }),
{
    let id = (first_id + k) as u64;
    assert(id == first_id + k);
    assert(numbered_messages(first_id, sample_rate, is_stereo, encoded, timestamps)[k]
        == audio_layout(id, sample_rate, is_stereo, encoded[k], timestamps[k]));
}

/// Whether clones of captured samples can be sent in these messages.
pub open spec fn captures_clones<T: Clone>(
    can: Encoder<T>,
    format: ChunkFormat,
    sample_rate: u32,
    before: Capturing<T>,
    input: Seq<T>,
    messages: Seq<Seq<u8>>,
    after: Capturing<T>,
) -> bool {
    exists|clones: Seq<T>|
        {
            &&& #[trigger] are_clones(input, clones)
            &&& clones_are_equal::<T>() ==> clones == input
            &&& captures(can, format, sample_rate, before, clones, messages, after)
        }
}

/// What is sent is what waited and the input behind it, where clones are as what they are cloned
/// from: every full chunk is encoded, numbered and sent in a message of its own.
pub proof fn law_samples_are_captured<T: Clone>(
    can: Encoder<T>,
    format: ChunkFormat,
    sample_rate: u32,
    before: Capturing<T>,
    input: Seq<T>,
    messages: Seq<Seq<u8>>,
    after: Capturing<T>,
)
    requires
        clones_are_equal::<T>(),
        captures_clones(can, format, sample_rate, before, input, messages, after),
        0 < format.chunk_len,
    ensures
        captures(can, format, sample_rate, before, input, messages, after),
        after.waiting == left_over(before.waiting + input, format.chunk_len as int),
        after.chunk_id == before.chunk_id + messages.len(),
        messages.len() == full_chunks(before.waiting + input, format.chunk_len as int).len(),
{
}

/// What the audio capture remembers.
#[verifier::ext_equal]
pub struct CaptureState {
    /// The id of the next chunk.
    pub chunk_id: u64,
    pub has_encoder: bool,
}

/// Numbers the chunks of captured audio.
pub struct AudioCapture {
    chunk_id: u64,
    has_encoder: bool,
}

impl View for AudioCapture {
    type V = CaptureState;

    closed spec fn view(&self) -> CaptureState {
        CaptureState { chunk_id: self.chunk_id, has_encoder: self.has_encoder }
    }
}

impl AudioCapture {
    /// Nothing has been captured.
    pub fn new() -> (capture: Self)
        ensures
            capture@ == (CaptureState { chunk_id: 0, has_encoder: false }),
    {
        AudioCapture { chunk_id: 0, has_encoder: false }
    }

    /// Whether an encoder has to be made before samples can be encoded: it is made for the first
    /// ones.
    pub fn needs_encoder(&mut self) -> (create: bool)
        ensures
            final(self)@ == (CaptureState { has_encoder: true, ..old(self)@ }),
            create == !old(self)@.has_encoder,
    {
        let create = !self.has_encoder;
        self.has_encoder = true;
        create
    }

    /// Whether `waiting` samples, and `input` more, can be cut, encoded into a buffer of `room`
    /// bytes, and numbered.
    pub fn can_capture(&self, waiting: usize, input: usize, format: &ChunkFormat, room: usize) -> (r:
        bool)
        ensures
            r == (waiting < format.chunk_len && self@.chunk_id + (waiting + input) as int
                / format.chunk_len as int <= u64::MAX && room + 29 <= isize::MAX),
    {
        if waiting >= format.chunk_len || room > isize::MAX as usize - 29 {
            return false;
        }
        let chunks: u128 = (waiting as u128 + input as u128) / format.chunk_len as u128;
        chunks <= (u64::MAX - self.chunk_id) as u128
    }

    /// The messages that carry captured samples, in the order in which they are to be sent.
    pub fn on_samples<T: Clone, E: FnMut(&[T], &mut [u8]) -> usize>(
        &mut self,
        buffer: &mut Vec<T>,
        encode_buffer: &mut [u8],
        input: &[T],
        format: &ChunkFormat,
        sample_rate: u32,
        encode_chunk: E,
    ) -> (messages: Vec<Vec<u8>>)
        requires
            old(buffer)@.len() < format.chunk_len,
            old(self)@.chunk_id + (old(buffer)@.len() + input@.len()) as int
                / format.chunk_len as int <= u64::MAX,
            old(encode_buffer)@.len() + 29 <= isize::MAX,
            forall|chunk: &[T], out: &mut [u8]|
                chunk@.len() == format.chunk_len && out@.len() == old(encode_buffer)@.len()
                    ==> #[trigger] call_requires(encode_chunk, (chunk, out)),
            forall|chunk: &[T], out: &mut [u8], size: usize|
                out@.len() == old(encode_buffer)@.len() && #[trigger] call_ensures(
                    encode_chunk,
                    (chunk, out),
                    size,
                ) ==> size <= out@.len() == final(out)@.len(),
        ensures
            final(self)@.has_encoder == old(self)@.has_encoder,
            final(buffer)@.len() < format.chunk_len,
            final(encode_buffer)@.len() == old(encode_buffer)@.len(),
            forall|can: Encoder<T>|
                (forall|chunk: &[T], out: &mut [u8], size: usize| #[trigger]
                    call_ensures(encode_chunk, (chunk, out), size) ==> can(
                        chunk@,
                        out@,
                        size,
                        final(out)@,
                    )) ==> #[trigger] captures_clones(
                    can,
                    *format,
                    sample_rate,
                    Capturing {
                        chunk_id: old(self)@.chunk_id,
                        waiting: old(buffer)@,
                        encode_buffer: old(encode_buffer)@,
                    },
                    input@,
                    contents(messages@),
                    Capturing {
                        chunk_id: final(self)@.chunk_id,
                        waiting: final(buffer)@,
                        encode_buffer: final(encode_buffer)@,
                    },
                ),
    {
        let mut encoder = ChunkEncoder::new(encode_chunk);
        self.on_samples_with(buffer, encode_buffer, input, format, sample_rate, &mut encoder)
    }

    /// The messages that carry captured samples, in the order in which they are to be sent: one for
    /// every call of the encoder, of which there is one for every chunk, in the order of the chunks.
    pub fn on_samples_with<T: Clone, E: FnMut(&[T], &mut [u8]) -> usize>(
        &mut self,
        buffer: &mut Vec<T>,
        encode_buffer: &mut [u8],
        input: &[T],
        format: &ChunkFormat,
        sample_rate: u32,
        encoder: &mut ChunkEncoder<T, E>,
    ) -> (messages: Vec<Vec<u8>>)
        requires
            old(buffer)@.len() < format.chunk_len,
            old(self)@.chunk_id + (old(buffer)@.len() + input@.len()) as int
                / format.chunk_len as int <= u64::MAX,
            old(encode_buffer)@.len() + 29 <= isize::MAX,
            forall|chunk: &[T], out: &mut [u8]|
                chunk@.len() == format.chunk_len && out@.len() == old(encode_buffer)@.len()
                    ==> #[trigger] call_requires(old(encoder).encoder(), (chunk, out)),
            forall|chunk: &[T], out: &mut [u8], size: usize|
                out@.len() == old(encode_buffer)@.len() && #[trigger] call_ensures(
                    old(encoder).encoder(),
                    (chunk, out),
                    size,
                ) ==> size <= out@.len() == final(out)@.len(),
        ensures
            final(self)@.has_encoder == old(self)@.has_encoder,
            final(encoder).encoder() == old(encoder).encoder(),
            messages@.len() == (old(buffer)@.len() + input@.len()) as int / format.chunk_len as int,
            final(self)@.chunk_id == old(self)@.chunk_id + messages@.len(),
            final(encoder).calls().len() == old(encoder).calls().len() + messages@.len(),
            exists|clones: Seq<T>, timestamps: Seq<i64>|
                {
                    let n = old(encoder).calls().len() as int;
                    let calls = final(encoder).calls();
                    let chunks = full_chunks(old(buffer)@ + clones, format.chunk_len as int);
                    &&& #[trigger] are_clones(input@, clones)
                    &&& clones_are_equal::<T>() ==> clones == input@
                    &&& #[trigger] are_times(timestamps)
                    &&& timestamps.len() == messages@.len() == chunks.len()
                    &&& final(buffer)@ == left_over(
                        old(buffer)@ + clones,
                        format.chunk_len as int,
                    )
                    &&& calls.take(n) == old(encoder).calls()
                    &&& forall|k: int|
                        0 <= k < chunks.len() ==> {
                            &&& (#[trigger] calls[n + k]).chunk == chunks[k]
                            &&& calls[n + k].before == if k == 0 {
                                old(encode_buffer)@
                            } else {
                                calls[n + k - 1].after
                            }
                        }
                    &&& forall|k: int|
                        0 <= k < messages@.len() ==> (#[trigger] messages@[k])@ == audio_layout(
                            (old(self)@.chunk_id + k) as u64,
                            sample_rate,
                            format.channels is Stereo,
                            calls[n + k].after.take(calls[n + k].size as int),
                            timestamps[k],
                        )
                },
            final(buffer)@.len() < format.chunk_len,
            final(encode_buffer)@.len() == old(encode_buffer)@.len(),
            forall|can: Encoder<T>|
                (forall|chunk: &[T], out: &mut [u8], size: usize| #[trigger]
                    call_ensures(old(encoder).encoder(), (chunk, out), size) ==> can(
                        chunk@,
                        out@,
                        size,
                        final(out)@,
                    )) ==> #[trigger] captures_clones(
                    can,
                    *format,
                    sample_rate,
                    Capturing {
                        chunk_id: old(self)@.chunk_id,
                        waiting: old(buffer)@,
                        encode_buffer: old(encode_buffer)@,
                    },
                    input@,
                    contents(messages@),
                    Capturing {
                        chunk_id: final(self)@.chunk_id,
                        waiting: final(buffer)@,
                        encode_buffer: final(encode_buffer)@,
                    },
                ),
    {
        let num_channels: u32 = match format.channels {
            Channels::Mono => 1,
            Channels::Stereo => 2,
        };
        let ghost first_id = self.chunk_id as int;
        let encoded = encode_with(buffer, encode_buffer, input, format.chunk_len, encoder);
        let mut messages: Vec<Vec<u8>> = Vec::new();
        let ghost mut timestamps: Seq<i64> = Seq::empty();
        let ghost is_stereo = format.channels is Stereo;
        while messages.len() < encoded.len()
            invariant
                messages@.len() <= encoded@.len(),
                timestamps.len() == messages@.len(),
                are_times(timestamps),
                first_id + encoded@.len() <= u64::MAX,
                self.chunk_id == first_id + messages@.len(),
                self.has_encoder == old(self).has_encoder,
                is_stereo == (num_channels == 2),
                old(encode_buffer)@.len() + 29 <= isize::MAX,
                forall|k: int|
                    0 <= k < encoded@.len() ==> (#[trigger] encoded@[k])@.len() <= old(
                        encode_buffer,
                    )@.len(),
                forall|k: int|
                    0 <= k < messages@.len() ==> (#[trigger] messages@[k])@ == audio_layout(
                        (first_id + k) as u64,
                        sample_rate,
                        is_stereo,
                        encoded@[k]@,
                        timestamps[k],
                    ),
            decreases encoded@.len() - messages@.len(),
        {
            let at: usize = messages.len();
            let ghost id = self.chunk_id;
            let bytes: &[u8] = encoded[at].as_slice();
            let message = send_encoded(&mut self.chunk_id, bytes, sample_rate, num_channels);
            proof {
                let timestamp = choose|timestamp: i64|
                    #[trigger] clock_shows_micros(timestamp) && 0 <= timestamp && nameable_micros(
                        timestamp as int,
                    ) && message@ == audio_layout(
                        id,
                        sample_rate,
                        num_channels == 2,
                        bytes@,
                        timestamp,
                    );
                timestamps = timestamps.push(timestamp);
            }
            messages.push(message);
        }
        assert(contents(messages@) =~= numbered_messages(
            first_id,
            sample_rate,
            is_stereo,
            contents(encoded@),
            timestamps,
        ));
        proof {
            let c = format.chunk_len as int;
            let before = Capturing {
                chunk_id: old(self)@.chunk_id,
                waiting: old(buffer)@,
                encode_buffer: old(encode_buffer)@,
            };
            let after = Capturing {
                chunk_id: self.chunk_id,
                waiting: buffer@,
                encode_buffer: encode_buffer@,
            };
            assert forall|can: Encoder<T>|
                (forall|chunk: &[T], out: &mut [u8], size: usize| #[trigger]
                    call_ensures(old(encoder).encoder(), (chunk, out), size) ==> can(
                        chunk@,
                        out@,
                        size,
                        final(out)@,
                    )) implies #[trigger] captures_clones(
                can,
                *format,
                sample_rate,
                before,
                input@,
                contents(messages@),
                after,
            ) by {
                assert(cuts_and_encodes(
                    can,
                    c,
                    (before.waiting, before.encode_buffer),
                    input@,
                    contents(encoded@),
                    (after.waiting, after.encode_buffer),
                ));
                let clones = choose|clones: Seq<T>|
                    {
                        &&& #[trigger] are_clones(input@, clones)
                        &&& clones_are_equal::<T>() ==> clones == input@
                        &&& after.waiting == left_over(before.waiting + clones, c)
                        &&& encodes_to(
                            can,
                            full_chunks(before.waiting + clones, c),
                            before.encode_buffer,
                            contents(encoded@),
                            after.encode_buffer,
                        )
                    };
                assert(captures(
                    can,
                    *format,
                    sample_rate,
                    before,
                    clones,
                    contents(messages@),
                    after,
                ));
            }
        }
        messages
    }
}

/// Nothing is lost: the chunks, one after the other, and what is left over are the samples, every
/// chunk is full, and what is left over does not fill one.
pub proof fn law_chunks_join_to_samples<T>(samples: Seq<T>, chunk_len: int)
    requires
        0 < chunk_len,
    ensures
        full_chunks(samples, chunk_len).flatten() + left_over(samples, chunk_len) == samples,
        forall|k: int|
            0 <= k < full_chunks(samples, chunk_len).len() ==> (#[trigger] full_chunks(
                samples,
                chunk_len,
            )[k]).len() == chunk_len,
        left_over(samples, chunk_len).len() < chunk_len,
    decreases samples.len(),
{
    let chunks = full_chunks(samples, chunk_len);
    if samples.len() < chunk_len {
        lemma_no_chunk(samples, chunk_len);
        assert(chunks.flatten() + samples =~= samples);
    } else {
        let first = samples.take(chunk_len);
        let rest = samples.skip(chunk_len);
        let others = full_chunks(rest, chunk_len);
        lemma_first_chunk(samples, chunk_len);
        law_chunks_join_to_samples(rest, chunk_len);
        assert(chunks.first() == first);
        assert(chunks.drop_first() =~= others);
        assert(chunks.flatten() =~= first + others.flatten());
        assert(first + (others.flatten() + left_over(rest, chunk_len)) =~= chunks.flatten()
            + left_over(samples, chunk_len));
        assert(first + rest =~= samples);
        assert forall|k: int| 0 <= k < chunks.len() implies (#[trigger] full_chunks(
            samples,
            chunk_len,
        )[k]).len() == chunk_len by {
            if k > 0 {
                assert(chunks[k] == others[k - 1]);
            }
        }
    }
}

/// What is cut from two inputs, one after the other, is what is cut from both together.
proof fn lemma_divided_input<T>(waiting: Seq<T>, first: Seq<T>, second: Seq<T>, chunk_len: int)
    requires
        0 < chunk_len,
    ensures
        ({
            let kept = left_over(waiting + first, chunk_len);
            &&& full_chunks(waiting + first, chunk_len) + full_chunks(kept + second, chunk_len)
                == full_chunks(waiting + (first + second), chunk_len)
            &&& left_over(kept + second, chunk_len) == left_over(
                waiting + (first + second),
                chunk_len,
            )
        }),
    decreases waiting.len() + first.len(),
{
    let samples = waiting + first;
    let all = waiting + (first + second);
    assert(all =~= samples + second);
    if samples.len() < chunk_len {
        lemma_no_chunk(samples, chunk_len);
        assert(full_chunks(samples, chunk_len) + full_chunks(samples + second, chunk_len)
            =~= full_chunks(all, chunk_len));
    } else {
        let rest = samples.skip(chunk_len);
        lemma_first_chunk(samples, chunk_len);
        lemma_first_chunk(all, chunk_len);
        assert(all.take(chunk_len) =~= samples.take(chunk_len));
        assert(all.skip(chunk_len) =~= rest + second);
        lemma_divided_input(rest, Seq::empty(), second, chunk_len);
        assert(rest + Seq::<T>::empty() =~= rest);
        assert(rest + (Seq::<T>::empty() + second) =~= rest + second);
        let kept = left_over(samples, chunk_len);
        assert(full_chunks(samples, chunk_len) + full_chunks(kept + second, chunk_len) =~= seq![
            samples.take(chunk_len),
        ] + (full_chunks(rest, chunk_len) + full_chunks(kept + second, chunk_len)));
    }
}

/// Encoding some chunks, and then others.
proof fn lemma_encodings_join<T>(
    can: Encoder<T>,
    chunks: Seq<Seq<T>>,
    others: Seq<Seq<T>>,
    first: Seq<u8>,
    encoded: Seq<Seq<u8>>,
    middle: Seq<u8>,
    others_encoded: Seq<Seq<u8>>,
    last: Seq<u8>,
)
    requires
        encodes_to(can, chunks, first, encoded, middle),
        encodes_to(can, others, middle, others_encoded, last),
    ensures
        encodes_to(can, chunks + others, first, encoded + others_encoded, last),
    decreases others.len(),
{
    if others.len() == 0 {
        assert(chunks + others =~= chunks);
        assert(encoded + others_encoded =~= encoded);
    } else {
        let (before, size) = choose|before: Seq<u8>, size: usize|
            {
                &&& encodes_to(
                    can,
                    others.drop_last(),
                    middle,
                    others_encoded.drop_last(),
                    before,
                )
                &&& #[trigger] can(others.last(), before, size, last)
                &&& size <= last.len()
                &&& others_encoded.last() == last.take(size as int)
            };
        lemma_encodings_join(
            can,
            chunks,
            others.drop_last(),
            first,
            encoded,
            middle,
            others_encoded.drop_last(),
            before,
        );
        let all = chunks + others;
        let all_encoded = encoded + others_encoded;
        assert(all.drop_last() =~= chunks + others.drop_last());
        assert(all_encoded.drop_last() =~= encoded + others_encoded.drop_last());
        assert(can(all.last(), before, size, last));
    }
}

/// Whether the encoder can do no more than one thing with a chunk.
pub open spec fn is_deterministic<T>(can: Encoder<T>) -> bool {
    forall|chunk: Seq<T>, before: Seq<u8>, size: usize, after: Seq<u8>, size2: usize, after2: Seq<u8>|
        #[trigger] can(chunk, before, size, after) && #[trigger] can(chunk, before, size2, after2)
            ==> size == size2 && after == after2
}

/// A deterministic encoder encodes the same chunks in the same way.
pub proof fn law_encoding_is_determined<T>(
    can: Encoder<T>,
    chunks: Seq<Seq<T>>,
    first: Seq<u8>,
    encoded: Seq<Seq<u8>>,
    last: Seq<u8>,
    encoded2: Seq<Seq<u8>>,
    last2: Seq<u8>,
)
    requires
        is_deterministic(can),
        encodes_to(can, chunks, first, encoded, last),
        encodes_to(can, chunks, first, encoded2, last2),
    ensures
        encoded == encoded2,
        last == last2,
    decreases chunks.len(),
{
    if chunks.len() == 0 {
        assert(encoded =~= encoded2);
    } else {
        let (before, size) = choose|before: Seq<u8>, size: usize|
            {
                &&& encodes_to(can, chunks.drop_last(), first, encoded.drop_last(), before)
                &&& #[trigger] can(chunks.last(), before, size, last)
                &&& size <= last.len()
                &&& encoded.last() == last.take(size as int)
            };
        let (before2, size2) = choose|before: Seq<u8>, size: usize|
            {
                &&& encodes_to(can, chunks.drop_last(), first, encoded2.drop_last(), before)
                &&& #[trigger] can(chunks.last(), before, size, last2)
                &&& size <= last2.len()
                &&& encoded2.last() == last2.take(size as int)
            };
        law_encoding_is_determined(
            can,
            chunks.drop_last(),
            first,
            encoded.drop_last(),
            before,
            encoded2.drop_last(),
            before2,
        );
        assert(can(chunks.last(), before, size, last) && can(chunks.last(), before, size2, last2));
        assert(encoded =~= encoded.drop_last().push(encoded.last()));
        assert(encoded2 =~= encoded2.drop_last().push(encoded2.last()));
    }
}

/// It does not matter how the samples come in: two inputs, one after the other, are cut, encoded and
/// kept like both together. What is to be sent, the samples that wait and what the encoder's buffer
/// holds in the end can all come from one input as well, and have to, if the encoder is
/// deterministic.
pub proof fn law_input_can_be_divided<T>(
    can: Encoder<T>,
    waiting: Seq<T>,
    first: Seq<T>,
    second: Seq<T>,
    chunk_len: int,
    buffers: (Seq<u8>, Seq<u8>, Seq<u8>),
    encoded: (Seq<Seq<u8>>, Seq<Seq<u8>>),
)
    requires
        0 < chunk_len,
        encodes_to(
            can,
            full_chunks(waiting + first, chunk_len),
            buffers.0,
            encoded.0,
            buffers.1,
        ),
        encodes_to(
            can,
            full_chunks(left_over(waiting + first, chunk_len) + second, chunk_len),
            buffers.1,
            encoded.1,
            buffers.2,
        ),
    ensures
        ({
            let all = waiting + (first + second);
            let chunks = full_chunks(all, chunk_len);
            &&& left_over(left_over(waiting + first, chunk_len) + second, chunk_len) == left_over(
                all,
                chunk_len,
            )
            &&& encodes_to(can, chunks, buffers.0, encoded.0 + encoded.1, buffers.2)
            &&& is_deterministic(can) ==> forall|e: Seq<Seq<u8>>, b: Seq<u8>| #[trigger]
                encodes_to(can, chunks, buffers.0, e, b) ==> e == encoded.0 + encoded.1 && b
                    == buffers.2
        }),
{
    let chunks = full_chunks(waiting + (first + second), chunk_len);
    lemma_divided_input(waiting, first, second, chunk_len);
    lemma_encodings_join(
        can,
        full_chunks(waiting + first, chunk_len),
        full_chunks(left_over(waiting + first, chunk_len) + second, chunk_len),
        buffers.0,
        encoded.0,
        buffers.1,
        encoded.1,
        buffers.2,
    );
    if is_deterministic(can) {
        assert forall|e: Seq<Seq<u8>>, b: Seq<u8>| #[trigger]
            encodes_to(can, chunks, buffers.0, e, b) implies e == encoded.0 + encoded.1 && b
            == buffers.2 by {
            law_encoding_is_determined(
                can,
                chunks,
                buffers.0,
                e,
                b,
                encoded.0 + encoded.1,
                buffers.2,
            );
        }
    }
}

/// Inputs, or the messages that carry them, one after the other.
pub open spec fn joined<T>(inputs: Seq<Seq<T>>) -> Seq<T>
    decreases inputs.len(),
{
    if inputs.len() == 0 {
        Seq::empty()
    } else {
        joined(inputs.drop_last()) + inputs.last()
    }
}

/// Capturing some samples, and then others, is like capturing all of them at once.
proof fn lemma_captures_join<T>(
    can: Encoder<T>,
    format: ChunkFormat,
    sample_rate: u32,
    states: (Capturing<T>, Capturing<T>, Capturing<T>),
    inputs: (Seq<T>, Seq<T>),
    messages: (Seq<Seq<u8>>, Seq<Seq<u8>>),
)
    requires
        0 < format.chunk_len,
        captures(can, format, sample_rate, states.0, inputs.0, messages.0, states.1),
        captures(can, format, sample_rate, states.1, inputs.1, messages.1, states.2),
    ensures
        captures(
            can,
            format,
            sample_rate,
            states.0,
            inputs.0 + inputs.1,
            messages.0 + messages.1,
            states.2,
        ),
{
    let c = format.chunk_len as int;
    let is_stereo = format.channels is Stereo;
    let chunks = full_chunks(states.0.waiting + inputs.0, c);
    let others = full_chunks(states.1.waiting + inputs.1, c);
    let (e1, t1) = choose|encoded: Seq<Seq<u8>>, timestamps: Seq<i64>|
        {
            &&& #[trigger] encodes_to(
                can,
                chunks,
                states.0.encode_buffer,
                encoded,
                states.1.encode_buffer,
            )
            &&& #[trigger] are_times(timestamps)
            &&& timestamps.len() == encoded.len()
            &&& messages.0 == numbered_messages(
                states.0.chunk_id as int,
                sample_rate,
                is_stereo,
                encoded,
                timestamps,
            )
        };
    let (e2, t2) = choose|encoded: Seq<Seq<u8>>, timestamps: Seq<i64>|
        {
            &&& #[trigger] encodes_to(
                can,
                others,
                states.1.encode_buffer,
                encoded,
                states.2.encode_buffer,
            )
            &&& #[trigger] are_times(timestamps)
            &&& timestamps.len() == encoded.len()
            &&& messages.1 == numbered_messages(
                states.1.chunk_id as int,
                sample_rate,
                is_stereo,
                encoded,
                timestamps,
            )
        };
    lemma_divided_input(states.0.waiting, inputs.0, inputs.1, c);
    lemma_encodings_join(
        can,
        chunks,
        others,
        states.0.encode_buffer,
        e1,
        states.1.encode_buffer,
        e2,
        states.2.encode_buffer,
    );
    assert(are_times(t1 + t2)) by {
        assert forall|k: int| 0 <= k < (t1 + t2).len() implies clock_shows_micros(
            #[trigger] (t1 + t2)[k],
        ) && 0 <= (t1 + t2)[k] && nameable_micros((t1 + t2)[k] as int) by {
            if k < t1.len() {
                assert(clock_shows_micros(t1[k]));
            } else {
                assert(clock_shows_micros(t2[k - t1.len()]));
            }
        }
    }
    assert(messages.0 + messages.1 =~= numbered_messages(
        states.0.chunk_id as int,
        sample_rate,
        is_stereo,
        e1 + e2,
        t1 + t2,
    ));
}

/// Captured samples go out without a gap: however they are divided into inputs, the messages that
/// are sent carry the full chunks of all samples together, encoded one after the other, message `k`
/// of them with the id `k`. There is one for each 120 samples of each channel, and the samples that
/// wait are those after the last full chunk.
pub proof fn law_chunks_are_numbered<T>(
    can: Encoder<T>,
    num_channels: u32,
    sample_rate: u32,
    format: ChunkFormat,
    states: Seq<Capturing<T>>,
    inputs: Seq<Seq<T>>,
    messages: Seq<Seq<Seq<u8>>>,
)
    requires
        chunk_format(num_channels, sample_rate) == Ok::<ChunkFormat, FormatError>(format),
        states.len() == inputs.len() + 1,
        messages.len() == inputs.len(),
        states[0].chunk_id == 0,
        states[0].waiting.len() == 0,
        forall|i: int|
            0 <= i < inputs.len() ==> captures(
                can,
                format,
                sample_rate,
                states[i],
                #[trigger] inputs[i],
                messages[i],
                states[i + 1],
            ),
    ensures
        ({
            let samples = joined(inputs);
            let sent = joined(messages);
            let chunks = full_chunks(samples, 120 * num_channels);
            &&& sent.len() == chunks.len() == samples.len() as int / (120 * num_channels as int)
            &&& states.last().chunk_id == sent.len()
            &&& states.last().waiting == left_over(samples, 120 * num_channels)
            &&& exists|encoded: Seq<Seq<u8>>, timestamps: Seq<i64>|
                {
                    &&& #[trigger] encodes_to(
                        can,
                        chunks,
                        states[0].encode_buffer,
                        encoded,
                        states.last().encode_buffer,
                    )
                    &&& #[trigger] are_times(timestamps)
                    &&& timestamps.len() == encoded.len()
                    &&& forall|k: int|
                        0 <= k < sent.len() ==> #[trigger] sent[k] == audio_layout(
                            k as u64,
                            48_000,
                            num_channels == 2,
                            encoded[k],
                            timestamps[k],
                        )
                }
        }),
{
    lemma_all_captured(can, format, sample_rate, states, inputs, messages);
    assert(states[0].waiting + joined(inputs) =~= joined(inputs));
}

/// Capturing inputs, one after the other, is like capturing all of them at once.
proof fn lemma_all_captured<T>(
    can: Encoder<T>,
    format: ChunkFormat,
    sample_rate: u32,
    states: Seq<Capturing<T>>,
    inputs: Seq<Seq<T>>,
    messages: Seq<Seq<Seq<u8>>>,
)
    requires
        states[0].waiting.len() < format.chunk_len,
        states.len() == inputs.len() + 1,
        messages.len() == inputs.len(),
        forall|i: int|
            0 <= i < inputs.len() ==> captures(
                can,
                format,
                sample_rate,
                states[i],
                #[trigger] inputs[i],
                messages[i],
                states[i + 1],
            ),
    ensures
        captures(
            can,
            format,
            sample_rate,
            states[0],
            joined(inputs),
            joined(messages),
            states.last(),
        ),
    decreases inputs.len(),
{
    let n = inputs.len() as int;
    if n == 0 {
        let none = Seq::<Seq<u8>>::empty();
        let times = Seq::<i64>::empty();
        assert(states[0].waiting + joined(inputs) =~= states[0].waiting);
        lemma_no_chunk(states[0].waiting, format.chunk_len as int);
        assert(encodes_to(
            can,
            Seq::<Seq<T>>::empty(),
            states[0].encode_buffer,
            none,
            states[0].encode_buffer,
        ));
        assert(are_times(times));
        assert(joined(messages) =~= numbered_messages(
            states[0].chunk_id as int,
            sample_rate,
            format.channels is Stereo,
            none,
            times,
        ));
    } else {
        let earlier = states.drop_last();
        assert forall|i: int| 0 <= i < n - 1 implies captures(
            can,
            format,
            sample_rate,
            earlier[i],
            #[trigger] inputs.drop_last()[i],
            messages.drop_last()[i],
            earlier[i + 1],
        ) by {
            assert(captures(
                can,
                format,
                sample_rate,
                states[i],
                inputs[i],
                messages[i],
                states[i + 1],
            ));
        }
        lemma_all_captured(
            can,
            format,
            sample_rate,
            earlier,
            inputs.drop_last(),
            messages.drop_last(),
        );
        assert(captures(
            can,
            format,
            sample_rate,
            states[n - 1],
            inputs[n - 1],
            messages[n - 1],
            states[n - 1 + 1],
        ));
        lemma_captures_join(
            can,
            format,
            sample_rate,
            (states[0], states[n - 1], states[n]),
            (joined(inputs.drop_last()), inputs.last()),
            (joined(messages.drop_last()), messages.last()),
        );
    }
}

} // verus!
