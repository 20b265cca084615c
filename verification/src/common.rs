//! What both sides of a session share: the port, the input that is passed on, and the messages
//! that carry video and audio.
use vstd::prelude::*;

use crate::key::KeySet;
use crate::wire::{
    audio_layout, audio_readable, bool_byte, deserialize_audio, deserialize_video, le_bytes,
    le_value, lemma_le_canonical, lemma_le_length, lemma_le_limits, lemma_le_round_trip,
    lemma_unsigned_injective, serialize_audio, serialize_video, unsigned, video_layout, video_readable,
};

verus! {

/// The port that a host listens on.
pub const HOST_PORT: u16 = 8084;

/// Whether a key goes down or up.
#[derive(Debug, Clone, Copy, PartialEq, Eq, Structural)]
pub enum Action {
    Press,
    Release,
}

/// A character that is typed.
#[derive(Debug, Clone, Copy, PartialEq, Eq, Structural)]
pub struct Key {
    pub char: char,
    pub action: Action,
}

/// The keys and mouse buttons that are held down.
#[derive(Debug)]
pub struct Input {
    pub keys_pressed: KeySet,
    pub left_mouse_pressed: bool,
    pub middle_mouse_pressed: bool,
    pub right_mouse_pressed: bool,
}

impl Default for Input {
    /// Nothing is held down.
    fn default() -> (input: Input)
        ensures
            input.keys_pressed@ == Set::<crate::key::Key>::empty(),
            !input.left_mouse_pressed,
            !input.middle_mouse_pressed,
            !input.right_mouse_pressed,
    {
        Input {
            keys_pressed: KeySet::new(),
            left_mouse_pressed: false,
            middle_mouse_pressed: false,
            right_mouse_pressed: false,
        }
    }
}

/// H.264 video NAL unit (part of frame)
pub struct H264<'a> {
    pub width: u32,
    pub height: u32,
    pub bytes: &'a [u8],
    /// True if this NAL unit is the first unit of a keyframe
    pub is_keyframe_start: bool,
    /// Microseconds since UNIX epoch
    pub timestamp: i64,
}

/// Opus audio chunk
pub struct Opus<'a> {
    pub chunk_id: u64,
    pub sample_rate: u32,
    /// True if stereo, false if mono
    pub is_stereo: bool,
    pub bytes: &'a [u8],
    /// Microseconds since UNIX epoch
    pub timestamp: i64,
}

impl<'a> H264<'a> {
    /// The message as it travels over the network.
    pub open spec fn layout(self) -> Seq<u8> {
        video_layout(
            self.width,
            self.height,
            self.bytes@,
            self.is_keyframe_start,
            self.timestamp,
        )
    }

    /// The bytes of the message.
    pub fn to_bytes(&self) -> (message: Vec<u8>)
        requires
            self.bytes@.len() + 25 <= isize::MAX,
        ensures
            message@ == self.layout(),
    {
        serialize_video(self.width, self.height, self.bytes, self.is_keyframe_start, self.timestamp)
    }

    /// Reads a message, and ignores what follows it.
    pub fn from_bytes(message: &'a [u8]) -> (r: Result<H264<'a>, wincode::ReadError>)
        ensures
            r is Ok <==> video_readable(message@),
            r matches Ok(unit) ==> unit.layout().is_prefix_of(message@),
    {
        match deserialize_video(message) {
            Ok((width, height, bytes, is_keyframe_start, timestamp)) => {
                let unit = H264 { width, height, bytes, is_keyframe_start, timestamp };
                proof {
                    let s = message@;
                    let n = bytes@.len() as int;
                    lemma_le_canonical(s.subrange(0, 4));
                    lemma_le_canonical(s.subrange(4, 8));
                    lemma_le_canonical(s.subrange(8, 16));
                    lemma_le_canonical(s.subrange(17 + n, 25 + n));
                    assert(unit.layout() =~= s.subrange(0, 4) + s.subrange(4, 8) + s.subrange(8, 16)
                        + s.subrange(16, 16 + n) + seq![s[16 + n]] + s.subrange(17 + n, 25 + n));
                    assert(unit.layout() =~= s.take(25 + n));
                }
                Ok(unit)
            },
            Err(err) => Err(err),
        }
    }
}

impl<'a> Opus<'a> {
    /// The message as it travels over the network.
    pub open spec fn layout(self) -> Seq<u8> {
        audio_layout(
            self.chunk_id,
            self.sample_rate,
            self.is_stereo,
            self.bytes@,
            self.timestamp,
        )
    }

    /// The bytes of the message.
    pub fn to_bytes(&self) -> (message: Vec<u8>)
        requires
            self.bytes@.len() + 29 <= isize::MAX,
        ensures
            message@ == self.layout(),
    {
        serialize_audio(self.chunk_id, self.sample_rate, self.is_stereo, self.bytes, self.timestamp)
    }

    /// Reads a message, and ignores what follows it.
    pub fn from_bytes(message: &'a [u8]) -> (r: Result<Opus<'a>, wincode::ReadError>)
        ensures
            r is Ok <==> audio_readable(message@),
            r matches Ok(chunk) ==> chunk.layout().is_prefix_of(message@),
    {
        match deserialize_audio(message) {
            Ok((chunk_id, sample_rate, is_stereo, bytes, timestamp)) => {
                let chunk = Opus { chunk_id, sample_rate, is_stereo, bytes, timestamp };
                proof {
                    let s = message@;
                    let n = bytes@.len() as int;
                    lemma_le_canonical(s.subrange(0, 8));
                    lemma_le_canonical(s.subrange(8, 12));
                    lemma_le_canonical(s.subrange(13, 21));
                    lemma_le_canonical(s.subrange(21 + n, 29 + n));
                    assert(chunk.layout() =~= s.subrange(0, 8) + s.subrange(8, 12) + seq![s[12]]
                        + s.subrange(13, 21) + s.subrange(21, 21 + n) + s.subrange(21 + n, 29 + n));
                    assert(chunk.layout() =~= s.take(29 + n));
                }
                Ok(chunk)
            },
            Err(err) => Err(err),
        }
    }
}

/// What stands at the places of a video unit.
pub proof fn lemma_video_fields(
    width: u32,
    height: u32,
    bytes: Seq<u8>,
    is_keyframe_start: bool,
    timestamp: i64,
    rest: Seq<u8>,
)
    requires
        bytes.len() <= u64::MAX,
    ensures
        ({
            let s = video_layout(width, height, bytes, is_keyframe_start, timestamp) + rest;
            let n = bytes.len() as int;
            &&& s.len() == 25 + n + rest.len()
            &&& le_value(s.subrange(0, 4)) == width
            &&& le_value(s.subrange(4, 8)) == height
            &&& le_value(s.subrange(8, 16)) == n
            &&& s.subrange(16, 16 + n) == bytes
            &&& s[16 + n] == bool_byte(is_keyframe_start)
            &&& le_value(s.subrange(17 + n, 25 + n)) == unsigned(timestamp)
        }),
{
    let s = video_layout(width, height, bytes, is_keyframe_start, timestamp) + rest;
    let n = bytes.len() as int;
    lemma_le_limits();
    lemma_le_round_trip(width as nat, 4);
    lemma_le_round_trip(height as nat, 4);
    lemma_le_round_trip(bytes.len(), 8);
    lemma_le_round_trip(unsigned(timestamp), 8);
    assert(s.subrange(0, 4) =~= le_bytes(width as nat, 4));
    assert(s.subrange(4, 8) =~= le_bytes(height as nat, 4));
    assert(s.subrange(8, 16) =~= le_bytes(bytes.len(), 8));
    assert(s.subrange(16, 16 + n) =~= bytes);
    assert(s.subrange(17 + n, 25 + n) =~= le_bytes(unsigned(timestamp), 8));
}

/// A video unit survives the network: its bytes, whatever follows them, can be read, and every
/// unit whose bytes stand at the front of them has the fields that were sent.
pub proof fn law_video_round_trip(
    width: u32,
    height: u32,
    bytes: Seq<u8>,
    is_keyframe_start: bool,
    timestamp: i64,
    rest: Seq<u8>,
    read: H264,
)
    requires
        25 + bytes.len() + rest.len() <= u64::MAX,
    ensures
        ({
            let message = video_layout(width, height, bytes, is_keyframe_start, timestamp) + rest;
            &&& video_readable(message)
            &&& read.layout().is_prefix_of(message) ==> {
                &&& read.width == width
                &&& read.height == height
                &&& read.bytes@ == bytes
                &&& read.is_keyframe_start == is_keyframe_start
                &&& read.timestamp == timestamp
            }
        }),
{
    let s = video_layout(width, height, bytes, is_keyframe_start, timestamp) + rest;
    lemma_video_fields(width, height, bytes, is_keyframe_start, timestamp, rest);
    if read.layout().is_prefix_of(s) {
        let tail = s.skip(read.layout().len() as int);
        assert(s =~= read.layout() + tail);
        lemma_le_length(read.width as nat, 4);
        lemma_le_length(read.height as nat, 4);
        lemma_le_length(read.bytes@.len(), 8);
        lemma_le_length(unsigned(read.timestamp), 8);
        lemma_video_fields(
            read.width,
            read.height,
            read.bytes@,
            read.is_keyframe_start,
            read.timestamp,
            tail,
        );
        lemma_unsigned_injective(timestamp, read.timestamp);
    }
}

/// What stands at the places of an audio chunk.
pub proof fn lemma_audio_fields(
    chunk_id: u64,
    sample_rate: u32,
    is_stereo: bool,
    bytes: Seq<u8>,
    timestamp: i64,
    rest: Seq<u8>,
)
    requires
        bytes.len() <= u64::MAX,
    ensures
        ({
            let s = audio_layout(chunk_id, sample_rate, is_stereo, bytes, timestamp) + rest;
            let n = bytes.len() as int;
            &&& s.len() == 29 + n + rest.len()
            &&& le_value(s.subrange(0, 8)) == chunk_id
            &&& le_value(s.subrange(8, 12)) == sample_rate
            &&& s[12] == bool_byte(is_stereo)
            &&& le_value(s.subrange(13, 21)) == n
            &&& s.subrange(21, 21 + n) == bytes
            &&& le_value(s.subrange(21 + n, 29 + n)) == unsigned(timestamp)
        }),
{
    let s = audio_layout(chunk_id, sample_rate, is_stereo, bytes, timestamp) + rest;
    let n = bytes.len() as int;
    lemma_le_limits();
    lemma_le_round_trip(chunk_id as nat, 8);
    lemma_le_round_trip(sample_rate as nat, 4);
    lemma_le_round_trip(bytes.len(), 8);
    lemma_le_round_trip(unsigned(timestamp), 8);
    assert(s.subrange(0, 8) =~= le_bytes(chunk_id as nat, 8));
    assert(s.subrange(8, 12) =~= le_bytes(sample_rate as nat, 4));
    assert(s.subrange(13, 21) =~= le_bytes(bytes.len(), 8));
    assert(s.subrange(21, 21 + n) =~= bytes);
    assert(s.subrange(21 + n, 29 + n) =~= le_bytes(unsigned(timestamp), 8));
}

/// An audio chunk survives the network: its bytes, whatever follows them, can be read, and every
/// chunk whose bytes stand at the front of them has the fields that were sent.
pub proof fn law_audio_round_trip(
    chunk_id: u64,
    sample_rate: u32,
    is_stereo: bool,
    bytes: Seq<u8>,
    timestamp: i64,
    rest: Seq<u8>,
    read: Opus,
)
    requires
        29 + bytes.len() + rest.len() <= u64::MAX,
    ensures
        ({
            let message = audio_layout(chunk_id, sample_rate, is_stereo, bytes, timestamp) + rest;
            &&& audio_readable(message)
            &&& read.layout().is_prefix_of(message) ==> {
                &&& read.chunk_id == chunk_id
                &&& read.sample_rate == sample_rate
                &&& read.is_stereo == is_stereo
                &&& read.bytes@ == bytes
                &&& read.timestamp == timestamp
            }
        }),
{
    let s = audio_layout(chunk_id, sample_rate, is_stereo, bytes, timestamp) + rest;
    lemma_audio_fields(chunk_id, sample_rate, is_stereo, bytes, timestamp, rest);
    if read.layout().is_prefix_of(s) {
        let tail = s.skip(read.layout().len() as int);
        assert(s =~= read.layout() + tail);
        lemma_le_length(read.chunk_id as nat, 8);
        lemma_le_length(read.sample_rate as nat, 4);
        lemma_le_length(read.bytes@.len(), 8);
        lemma_le_length(unsigned(read.timestamp), 8);
        lemma_audio_fields(
            read.chunk_id,
            read.sample_rate,
            read.is_stereo,
            read.bytes@,
            read.timestamp,
            tail,
        );
        lemma_unsigned_injective(timestamp, read.timestamp);
    }
}

} // verus!
