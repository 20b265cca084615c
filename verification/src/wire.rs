//! The byte layout of the messages that travel over the network, and the calls into `wincode`
//! that produce and read it.
//!
//! `wincode` writes the fields of a message one after the other: integers as fixed-width
//! little-endian bytes, a `bool` as one byte, and a byte slice as its length in eight bytes
//! followed by the bytes.
use vstd::arithmetic::div_mod::lemma_div_denominator;
use vstd::arithmetic::power::{lemma_pow0, lemma_pow_positive, pow};
use vstd::prelude::*;

verus! {

/// The error that `wincode` reports when bytes cannot be read.
#[verifier::external_type_specification]
#[verifier::external_body]
pub struct ExReadError(wincode::ReadError);

/// `value` as `width` little-endian bytes.
pub open spec fn le_bytes(value: nat, width: nat) -> Seq<u8>
    decreases width,
{
    if width == 0 {
        Seq::empty()
    } else {
        seq![(value % 256) as u8] + le_bytes(value / 256, (width - 1) as nat)
    }
}

/// The number whose little-endian bytes are `bytes`.
pub open spec fn le_value(bytes: Seq<u8>) -> nat
    decreases bytes.len(),
{
    if bytes.len() == 0 {
        0
    } else {
        bytes[0] as nat + 256 * le_value(bytes.skip(1))
    }
}

/// One more than the largest number that fits in `width` bytes.
pub open spec fn le_limit(width: nat) -> nat
    decreases width,
{
    if width == 0 {
        1
    } else {
        256 * le_limit((width - 1) as nat)
    }
}

/// The two's complement reading of a signed 64-bit number.
pub open spec fn unsigned(x: i64) -> nat {
    if x < 0 {
        (x + 0x1_0000_0000_0000_0000) as nat
    } else {
        x as nat
    }
}

/// The byte that stands for a `bool`.
pub open spec fn bool_byte(b: bool) -> u8 {
    if b {
        1
    } else {
        0
    }
}

/// Little-endian bytes have the requested width.
pub proof fn lemma_le_length(value: nat, width: nat)
    ensures
        le_bytes(value, width).len() == width,
    decreases width,
{
    if width > 0 {
        lemma_le_length(value / 256, (width - 1) as nat);
    }
}

/// Little-endian bytes have the requested width, and reading them gives the number back.
pub proof fn lemma_le_round_trip(value: nat, width: nat)
    requires
        value < le_limit(width),
    ensures
        le_bytes(value, width).len() == width,
        le_value(le_bytes(value, width)) == value,
    decreases width,
{
    if width > 0 {
        let bytes = le_bytes(value, width);
        lemma_le_round_trip(value / 256, (width - 1) as nat);
        assert(bytes.skip(1) =~= le_bytes(value / 256, (width - 1) as nat));
    }
}

/// Little-endian bytes stand in the order of their weights: byte `i` counts the 256^i, and all of
/// them together count the number, up to a multiple of what does not fit.
pub proof fn law_little_endian(value: nat, width: nat, i: int)
    ensures
        le_bytes(value, width).len() == width,
        0 <= i < width ==> le_bytes(value, width)[i] as int == value as int / pow(256, i as nat)
            % 256,
    decreases width,
{
    lemma_le_length(value, width);
    if 0 < i < width {
        law_little_endian(value / 256, (width - 1) as nat, i - 1);
        let p = pow(256, (i - 1) as nat);
        lemma_pow_positive(256, (i - 1) as nat);
        reveal(pow);
        assert(pow(256, i as nat) == 256 * p);
        lemma_div_denominator(value as int, 256, p);
        assert(le_bytes(value, width)[i] == le_bytes(value / 256, (width - 1) as nat)[i - 1]);
    } else if i == 0 && width > 0 {
        lemma_pow0(256);
    }
}

/// The number that bytes stand for grows by the weight of each byte: one more byte at the end
/// counts the 256^n, where `n` is the number of bytes before it.
pub proof fn law_little_endian_value(bytes: Seq<u8>, last: u8)
    ensures
        le_value(Seq::<u8>::empty()) == 0,
        le_value(bytes.push(last)) == le_value(bytes) + last * pow(256, bytes.len()),
    decreases bytes.len(),
{
    let all = bytes.push(last);
    reveal(pow);
    if bytes.len() == 0 {
        assert(all.skip(1) =~= Seq::<u8>::empty());
        lemma_pow0(256);
    } else {
        law_little_endian_value(bytes.skip(1), last);
        assert(all.skip(1) =~= bytes.skip(1).push(last));
        let p = pow(256, (bytes.len() - 1) as nat);
        assert(pow(256, bytes.len()) == 256 * p);
        assert(256 * (last * p) == last * (256 * p)) by (nonlinear_arith);
    }
}

/// A signed number is counted up by 2^64 if it is negative.
pub proof fn law_unsigned(x: i64)
    ensures
        unsigned(x) < 0x1_0000_0000_0000_0000,
        unsigned(x) == x || unsigned(x) == x + 0x1_0000_0000_0000_0000,
{
}

/// Reading bytes and writing the number again gives the same bytes.
pub proof fn lemma_le_canonical(bytes: Seq<u8>)
    ensures
        le_value(bytes) < le_limit(bytes.len()),
        le_bytes(le_value(bytes), bytes.len()) == bytes,
    decreases bytes.len(),
{
    if bytes.len() > 0 {
        let rest = bytes.skip(1);
        lemma_le_canonical(rest);
        assert(bytes =~= seq![bytes[0]] + rest);
    }
}

/// The widths that the messages use.
pub proof fn lemma_le_limits()
    ensures
        le_limit(2) == 0x1_0000,
        le_limit(4) == 0x1_0000_0000,
        le_limit(8) == 0x1_0000_0000_0000_0000,
{
    reveal_with_fuel(le_limit, 9);
}

/// Different signed numbers have different two's complement readings.
pub proof fn lemma_unsigned_injective(x: i64, y: i64)
    requires
        unsigned(x) == unsigned(y),
    ensures
        x == y,
{
}

/// The fields of a datagram header, laid out by `wincode`.
pub open spec fn header_layout(
    timestamp: i64,
    packet_id: u32,
    message_id: u16,
    last_message_in_packet: u16,
) -> Seq<u8> {
    le_bytes(unsigned(timestamp), 8) + le_bytes(packet_id as nat, 4) + le_bytes(
        message_id as nat,
        2,
    ) + le_bytes(last_message_in_packet as nat, 2)
}

/// The fields of a video unit, laid out by `wincode`.
pub open spec fn video_layout(
    width: u32,
    height: u32,
    bytes: Seq<u8>,
    is_keyframe_start: bool,
    timestamp: i64,
) -> Seq<u8> {
    le_bytes(width as nat, 4) + le_bytes(height as nat, 4) + le_bytes(bytes.len(), 8) + bytes
        + seq![bool_byte(is_keyframe_start)] + le_bytes(unsigned(timestamp), 8)
}

/// Whether `src` starts with a complete video unit: sixteen bytes up to the payload length, the
/// payload, a byte that stands for a `bool`, and eight bytes of time stamp.
pub open spec fn video_readable(src: Seq<u8>) -> bool {
    &&& src.len() >= 16
    &&& src.len() >= 25 + le_value(src.subrange(8, 16))
    &&& src[16 + le_value(src.subrange(8, 16)) as int] <= 1
}

/// The fields of an audio chunk, laid out by `wincode`.
pub open spec fn audio_layout(
    chunk_id: u64,
    sample_rate: u32,
    is_stereo: bool,
    bytes: Seq<u8>,
    timestamp: i64,
) -> Seq<u8> {
    le_bytes(chunk_id as nat, 8) + le_bytes(sample_rate as nat, 4) + seq![bool_byte(is_stereo)]
        + le_bytes(bytes.len(), 8) + bytes + le_bytes(unsigned(timestamp), 8)
}

/// Whether `src` starts with a complete audio chunk: twelve bytes of numbers, a byte that stands
/// for a `bool`, eight bytes of payload length, the payload, and eight bytes of time stamp.
pub open spec fn audio_readable(src: Seq<u8>) -> bool {
    &&& src.len() >= 21
    &&& src[12] <= 1
    &&& src.len() >= 29 + le_value(src.subrange(13, 21))
}

/// `wincode::serialize` on the four numbers of a datagram header. `wincode` writes every number
/// as fixed-width little-endian bytes, in order, and cannot fail on numbers.
#[verifier::external_body]
pub(crate) fn serialize_header(
    timestamp: i64,
    packet_id: u32,
    message_id: u16,
    last_message_in_packet: u16,
) -> (bytes: Vec<u8>)
    ensures
        bytes@ == header_layout(timestamp, packet_id, message_id, last_message_in_packet),
{
    wincode::serialize(&(timestamp, packet_id, message_id, last_message_in_packet)).unwrap()
}

/// `wincode::deserialize` to the four numbers of a datagram header. It succeeds exactly when the
/// sixteen bytes of the numbers are there, and ignores what follows them.
#[verifier::external_body]
pub(crate) fn deserialize_header(src: &[u8]) -> (r: Result<(i64, u32, u16, u16), wincode::ReadError>)
    ensures
        r is Ok <==> src@.len() >= 16,
        r matches Ok(h) ==> {
            &&& unsigned(h.0) == le_value(src@.subrange(0, 8))
            &&& h.1 as nat == le_value(src@.subrange(8, 12))
            &&& h.2 as nat == le_value(src@.subrange(12, 14))
            &&& h.3 as nat == le_value(src@.subrange(14, 16))
        },
{
    wincode::deserialize(src)
}

/// `wincode::serialize` on the fields of a video unit. The bound leaves out a buffer that is
/// larger than an allocation may be.
#[verifier::external_body]
pub(crate) fn serialize_video(
    width: u32,
    height: u32,
    bytes: &[u8],
    is_keyframe_start: bool,
    timestamp: i64,
) -> (r: Vec<u8>)
    requires
        bytes@.len() + 25 <= isize::MAX,
    ensures
        r@ == video_layout(width, height, bytes@, is_keyframe_start, timestamp),
{
    wincode::serialize(&(width, height, bytes, is_keyframe_start, timestamp)).unwrap()
}

/// `wincode::deserialize` to the fields of a video unit. It succeeds exactly when the bytes start
/// with a complete unit, ignores what follows it, and borrows the payload from the input.
#[verifier::external_body]
pub(crate) fn deserialize_video<'a>(src: &'a [u8]) -> (r: Result<
    (u32, u32, &'a [u8], bool, i64),
    wincode::ReadError,
>)
    ensures
        r is Ok <==> video_readable(src@),
        r matches Ok(v) ==> {
            &&& v.0 as nat == le_value(src@.subrange(0, 4))
            &&& v.1 as nat == le_value(src@.subrange(4, 8))
            &&& v.2@.len() == le_value(src@.subrange(8, 16))
            &&& v.2@ == src@.subrange(16, 16 + v.2@.len() as int)
            &&& bool_byte(v.3) == src@[16 + v.2@.len() as int]
            &&& unsigned(v.4) == le_value(src@.subrange(17 + v.2@.len() as int, 25 + v.2@.len() as int))
        },
{
    wincode::deserialize(src)
}

/// `wincode::serialize` on the fields of an audio chunk. The bound leaves out a buffer that is
/// larger than an allocation may be.
#[verifier::external_body]
pub(crate) fn serialize_audio(
    chunk_id: u64,
    sample_rate: u32,
    is_stereo: bool,
    bytes: &[u8],
    timestamp: i64,
) -> (r: Vec<u8>)
    requires
        bytes@.len() + 29 <= isize::MAX,
    ensures
        r@ == audio_layout(chunk_id, sample_rate, is_stereo, bytes@, timestamp),
{
    wincode::serialize(&(chunk_id, sample_rate, is_stereo, bytes, timestamp)).unwrap()
}

/// `wincode::deserialize` to the fields of an audio chunk. It succeeds exactly when the bytes
/// start with a complete chunk, ignores what follows it, and borrows the payload from the input.
#[verifier::external_body]
pub(crate) fn deserialize_audio<'a>(src: &'a [u8]) -> (r: Result<
    (u64, u32, bool, &'a [u8], i64),
    wincode::ReadError,
>)
    ensures
        r is Ok <==> audio_readable(src@),
        r matches Ok(v) ==> {
            &&& v.0 as nat == le_value(src@.subrange(0, 8))
            &&& v.1 as nat == le_value(src@.subrange(8, 12))
            &&& bool_byte(v.2) == src@[12]
            &&& v.3@.len() == le_value(src@.subrange(13, 21))
            &&& v.3@ == src@.subrange(21, 21 + v.3@.len() as int)
            &&& unsigned(v.4) == le_value(src@.subrange(21 + v.3@.len() as int, 29 + v.3@.len() as int))
        },
{
    wincode::deserialize(src)
}

} // verus!
