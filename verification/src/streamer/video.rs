//! How encoded video is cut into messages.
use vstd::prelude::*;

use crate::common::{law_video_round_trip, H264};
use crate::nal::{contents, is_start_code, law_start_code, lemma_flatten_cons, start_code_at};
use crate::timestamp::{micros_of, TimeStamp};
use crate::wire::{lemma_le_length, unsigned, video_layout, video_readable};

verus! {

/// The number of frames that are captured in a second.
pub const FRAME_RATE: u32 = 60;

/// The space that is set aside in a message besides the video: the width and the height, and the
/// slice.
pub const FRAGMENT_OVERHEAD: usize = 20;

/// The first position from `i` on at which a NAL unit starts, or the end of the bytes.
pub open spec fn next_unit(bytes: Seq<u8>, i: int) -> int
    decreases bytes.len() - i,
{
    if i + 4 > bytes.len() {
        bytes.len() as int
    } else if start_code_at(bytes, i) {
        i
    } else {
        next_unit(bytes, i + 1)
    }
}

/// The pieces that encoded video is cut into: as long as it is larger than a fragment, the NAL
/// unit at its front is cut off; what is left, if anything, stays whole.
pub open spec fn nal_units(bytes: Seq<u8>, fragment_size: int) -> Seq<Seq<u8>>
    decreases bytes.len(),
{
    let cut = next_unit(bytes, 4);
    if bytes.len() == 0 {
        Seq::empty()
    } else if bytes.len() <= fragment_size || cut >= bytes.len() || cut < 4 {
        seq![bytes]
    } else {
        seq![bytes.take(cut)] + nal_units(bytes.skip(cut), fragment_size)
    }
}

/// The messages that carry the pieces: only the first is marked as the start of a keyframe.
pub open spec fn unit_messages(
    units: Seq<Seq<u8>>,
    is_keyframe: bool,
    width: u32,
    height: u32,
    timestamp: i64,
) -> Seq<Seq<u8>> {
    Seq::new(
        units.len(),
        |k: int| video_layout(width, height, units[k], is_keyframe && k == 0, timestamp),
    )
}

/// The contents of buffers.
pub open spec fn buffers(messages: Seq<Vec<u8>>) -> Seq<Seq<u8>> {
    messages.map_values(|message: Vec<u8>| message@)
}

/// The contents of buffers stand in the order of the buffers.
pub proof fn law_buffers(messages: Seq<Vec<u8>>, i: int)
    ensures
        buffers(messages).len() == messages.len(),
        0 <= i < messages.len() ==> buffers(messages)[i] == messages[i]@,
{
}

/// Where the next NAL unit lies.
proof fn lemma_next_unit(bytes: Seq<u8>, i: int)
    ensures
        i <= bytes.len() ==> i <= next_unit(bytes, i) <= bytes.len(),
        next_unit(bytes, i) < bytes.len() ==> start_code_at(bytes, next_unit(bytes, i)),
        forall|j: int| i <= j < next_unit(bytes, i) ==> !start_code_at(bytes, j),
    decreases bytes.len() - i,
{
    if i + 4 <= bytes.len() && !start_code_at(bytes, i) {
        lemma_next_unit(bytes, i + 1);
    }
}

/// Cuts encoded video into pieces.
fn split_nal_units<'a>(data: &'a [u8], fragment_size: usize) -> (units: Vec<&'a [u8]>)
    ensures
        contents(units@) == nal_units(data@, fragment_size as int),
{
    let mut bytes: &'a [u8] = data;
    let mut units: Vec<&'a [u8]> = Vec::new();
    let mut i: usize = 4;
    assert(contents(units@) + nal_units(bytes@, fragment_size as int) =~= nal_units(
        data@,
        fragment_size as int,
    ));
    while bytes.len() > fragment_size && bytes.len() >= 4 && i <= bytes.len() - 4
        invariant
            4 <= i,
            i <= bytes@.len() || i == 4,
            contents(units@) + nal_units(bytes@, fragment_size as int) == nal_units(
                data@,
                fragment_size as int,
            ),
            next_unit(bytes@, 4) == next_unit(bytes@, i as int),
        decreases bytes@.len(), bytes@.len() - i,
    {
        if is_start_code(bytes, i) {
            // NAL unit start found
            let unit: &'a [u8] = &bytes[0..i];
            let rest: &'a [u8] = &bytes[i..bytes.len()];
            let ghost done = contents(units@);
            units.push(unit);
            proof {
                assert(unit@ =~= bytes@.take(i as int));
                assert(rest@ =~= bytes@.skip(i as int));
                assert(contents(units@) =~= done.push(unit@));
                assert(done + (seq![unit@] + nal_units(rest@, fragment_size as int)) =~= contents(
                    units@,
                ) + nal_units(rest@, fragment_size as int));
            }
            bytes = rest;
            i = 4;
        } else {
            i = i + 1;
        }
    }
    if bytes.len() > 0 {
        let ghost done = contents(units@);
        units.push(bytes);
        proof {
            lemma_next_unit(bytes@, 4);
            assert(nal_units(bytes@, fragment_size as int) =~= seq![bytes@]);
            assert(contents(units@) =~= done + seq![bytes@]);
        }
    } else {
        assert(nal_units(bytes@, fragment_size as int) =~= Seq::<Seq<u8>>::empty());
    }
    units
}

/// The messages that carry encoded video, in the order in which they are sent.
/// `max_fragment_size` is the largest message that the connection sends in one piece.
pub fn send_nal_units(
    max_fragment_size: usize,
    bytes: &[u8],
    is_keyframe: bool,
    width: u32,
    height: u32,
    timestamp: TimeStamp,
) -> (messages: Vec<Vec<u8>>)
    requires
        max_fragment_size >= FRAGMENT_OVERHEAD,
        bytes@.len() + 25 <= isize::MAX,
    ensures
        buffers(messages@) == unit_messages(
            nal_units(bytes@, max_fragment_size - FRAGMENT_OVERHEAD),
            is_keyframe,
            width,
            height,
            micros_of(timestamp@) as i64,
        ),
        bytes@.len() == 0 <==> messages@.len() == 0,
        0 < bytes@.len() <= max_fragment_size - 20 ==> messages@.len() == 1,
        messages@.len() == 1 && bytes@.len() > max_fragment_size - 20 ==> forall|j: int|
            4 <= j <= bytes@.len() - 4 ==> #[trigger] bytes@.subrange(j, j + 4) != seq![
                0u8,
                0,
                0,
                1,
            ],
        forall|k: int|
            0 <= k < messages@.len() ==> (#[trigger] messages@[k])@.len() <= 25 + bytes@.len(),
{
    // max size - (sizeof(width) + sizeof(height) + sizeof(slice))
    let fragment_size: usize = max_fragment_size - FRAGMENT_OVERHEAD;
    let raw: i64 = timestamp.raw();
    let units = split_nal_units(bytes, fragment_size);
    let ghost pieces = nal_units(bytes@, fragment_size as int);
    let mut messages: Vec<Vec<u8>> = Vec::new();
    let mut k: usize = 0;
    while k < units.len()
        invariant
            k <= units@.len(),
            contents(units@) == pieces,
            pieces == nal_units(bytes@, fragment_size as int),
            bytes@.len() + 25 <= isize::MAX,
            buffers(messages@) =~= unit_messages(pieces, is_keyframe, width, height, raw).take(
                k as int,
            ),
        decreases units@.len() - k,
    {
        proof {
            assert(pieces[k as int] == units@[k as int]@);
            lemma_unit_fits(bytes@, fragment_size as int, k as int);
        }
        let unit = H264 {
            width,
            height,
            bytes: units[k],
            is_keyframe_start: is_keyframe && k == 0,
            timestamp: raw,
        };
        let message = unit.to_bytes();
        let ghost done = buffers(messages@);
        messages.push(message);
        k = k + 1;
        proof {
            let all = unit_messages(pieces, is_keyframe, width, height, raw);
            assert(message@ == all[k - 1]);
            assert(buffers(messages@) =~= done.push(message@));
            assert(all.take(k as int) =~= all.take(k - 1).push(all[k - 1]));
        }
    }
    assert(unit_messages(pieces, is_keyframe, width, height, raw).take(k as int)
        =~= unit_messages(pieces, is_keyframe, width, height, raw));
    proof {
        assert forall|k: int| 0 <= k < messages@.len() implies (#[trigger] messages@[k])@.len()
            <= 25 + bytes@.len() by {
            assert(messages@[k]@ == buffers(messages@)[k]);
            law_message_size(pieces, is_keyframe, width, height, raw, k);
            lemma_unit_fits(bytes@, fragment_size as int, k);
        }
        assert(buffers(messages@).len() == messages@.len());
        if messages@.len() == 1 && bytes@.len() > fragment_size {
            law_cut_between_units(bytes@, fragment_size as int, 0);
            law_units_join_to_video(bytes@, fragment_size as int);
            lemma_flatten_cons(pieces[0], Seq::empty());
            assert(pieces =~= seq![pieces[0]] + Seq::<Seq<u8>>::empty());
            assert(Seq::<Seq<u8>>::empty().flatten() =~= Seq::<u8>::empty());
            assert(pieces[0] =~= bytes@);
            assert forall|j: int| 4 <= j <= bytes@.len() - 4 implies #[trigger] bytes@.subrange(
                j,
                j + 4,
            ) != seq![0u8, 0, 0, 1] by {
                law_start_code(bytes@, j);
                assert(!start_code_at(pieces[0], j));
            }
        }
    }
    messages
}

/// No piece is larger than the video.
proof fn lemma_unit_fits(bytes: Seq<u8>, fragment_size: int, k: int)
    requires
        0 <= k < nal_units(bytes, fragment_size).len(),
    ensures
        nal_units(bytes, fragment_size)[k].len() <= bytes.len(),
    decreases bytes.len(),
{
    let cut = next_unit(bytes, 4);
    if !(bytes.len() == 0 || bytes.len() <= fragment_size || cut >= bytes.len() || cut < 4) && k > 0 {
        lemma_unit_fits(bytes.skip(cut), fragment_size, k - 1);
    }
}

/// Nothing is lost: the pieces, one after the other, are the video.
pub proof fn law_units_join_to_video(bytes: Seq<u8>, fragment_size: int)
    ensures
        nal_units(bytes, fragment_size).flatten() == bytes,
    decreases bytes.len(),
{
    let cut = next_unit(bytes, 4);
    if bytes.len() == 0 {
        assert(nal_units(bytes, fragment_size).flatten() =~= bytes);
    } else if bytes.len() <= fragment_size || cut >= bytes.len() || cut < 4 {
        let units = nal_units(bytes, fragment_size);
        lemma_flatten_cons(bytes, Seq::empty());
        assert(seq![bytes] + Seq::<Seq<u8>>::empty() =~= units);
        assert(Seq::<Seq<u8>>::empty().flatten() =~= Seq::<u8>::empty());
        assert(units.flatten() =~= bytes);
    } else {
        let rest = bytes.skip(cut);
        law_units_join_to_video(rest, fragment_size);
        lemma_flatten_cons(bytes.take(cut), nal_units(rest, fragment_size));
        assert(bytes.take(cut) + rest =~= bytes);
    }
}

/// Video is cut only while it is larger than a fragment: what is left from each piece on, but for the
/// last, does not fit in one.
pub proof fn law_cut_while_too_large(bytes: Seq<u8>, fragment_size: int, k: int)
    requires
        0 <= k < nal_units(bytes, fragment_size).len() - 1,
    ensures
        nal_units(bytes, fragment_size).skip(k).flatten().len() > fragment_size,
    decreases bytes.len(),
{
    let units = nal_units(bytes, fragment_size);
    let cut = next_unit(bytes, 4);
    if k == 0 {
        assert(units.skip(0) =~= units);
        law_units_join_to_video(bytes, fragment_size);
    } else {
        let rest = bytes.skip(cut);
        law_cut_while_too_large(rest, fragment_size, k - 1);
        assert(units.skip(k) =~= nal_units(rest, fragment_size).skip(k - 1));
    }
}

/// Video is only cut between NAL units: no piece is empty, every piece but the first starts with a
/// start code, and every piece but the last holds no start code past its own. Nor does the last
/// one, if it is larger than a fragment.
pub proof fn law_cut_between_units(bytes: Seq<u8>, fragment_size: int, k: int)
    requires
        0 <= k < nal_units(bytes, fragment_size).len(),
    ensures
        ({
            let unit = nal_units(bytes, fragment_size)[k];
            &&& unit.len() > 0
            &&& k > 0 ==> start_code_at(unit, 0)
            &&& k < nal_units(bytes, fragment_size).len() - 1 || unit.len() > fragment_size
                ==> forall|j: int| 4 <= j ==> !start_code_at(unit, j)
        }),
    decreases bytes.len(),
{
    let cut = next_unit(bytes, 4);
    let unit = nal_units(bytes, fragment_size)[k];
    lemma_next_unit(bytes, 4);
    if bytes.len() > 0 && bytes.len() > fragment_size && cut < bytes.len() && cut >= 4 {
        let rest = bytes.skip(cut);
        let units = nal_units(rest, fragment_size);
        if k == 0 {
            assert forall|j: int| 4 <= j implies !start_code_at(unit, j) by {
                if start_code_at(unit, j) {
                    assert(start_code_at(bytes, j));
                }
            }
        } else {
            law_cut_between_units(rest, fragment_size, k - 1);
            assert(unit == units[k - 1]);
            if k == 1 {
                assert(start_code_at(rest, 0));
                lemma_first_unit(rest, fragment_size);
            }
        }
    } else if bytes.len() > fragment_size {
        assert forall|j: int| 4 <= j implies !start_code_at(unit, j) by {
            if start_code_at(unit, j) {
                assert(j < next_unit(bytes, 4));
            }
        }
    }
}

/// The first piece starts as the video does.
proof fn lemma_first_unit(bytes: Seq<u8>, fragment_size: int)
    requires
        start_code_at(bytes, 0),
    ensures
        nal_units(bytes, fragment_size).len() > 0,
        start_code_at(nal_units(bytes, fragment_size)[0], 0),
{
}

/// A receiver gets back what was cut: whatever unit is read from message `k` carries piece `k`,
/// and is marked as the start of a keyframe only if it is the first of a keyframe.
pub proof fn law_units_are_read_back(
    units: Seq<Seq<u8>>,
    is_keyframe: bool,
    width: u32,
    height: u32,
    timestamp: i64,
    k: int,
    read: H264,
)
    requires
        0 <= k < units.len(),
        25 + units[k].len() <= u64::MAX,
    ensures
        ({
            let message = unit_messages(units, is_keyframe, width, height, timestamp)[k];
            &&& video_readable(message)
            &&& read.layout().is_prefix_of(message) ==> {
                &&& read.bytes@ == units[k]
                &&& read.is_keyframe_start == (is_keyframe && k == 0)
                &&& read.width == width
                &&& read.height == height
                &&& read.timestamp == timestamp
            }
        }),
{
    let message = unit_messages(units, is_keyframe, width, height, timestamp)[k];
    law_video_round_trip(
        width,
        height,
        units[k],
        is_keyframe && k == 0,
        timestamp,
        Seq::empty(),
        read,
    );
    assert(message + Seq::<u8>::empty() =~= message);
}

/// A message is 25 bytes larger than the piece that it carries.
pub proof fn law_message_size(
    units: Seq<Seq<u8>>,
    is_keyframe: bool,
    width: u32,
    height: u32,
    timestamp: i64,
    k: int,
)
    requires
        0 <= k < units.len(),
    ensures
        unit_messages(units, is_keyframe, width, height, timestamp)[k].len() == 25 + units[k].len(),
        unit_messages(units, is_keyframe, width, height, timestamp).len() == units.len(),
{
    lemma_le_length(width as nat, 4);
    lemma_le_length(height as nat, 4);
    lemma_le_length(units[k].len(), 8);
    lemma_le_length(unsigned(timestamp), 8);
}

} // verus!
