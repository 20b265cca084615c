//! How a frame of encoded video is cut into datagrams.
use vstd::prelude::*;

use crate::nal::{contents, is_start_code, law_start_code, lemma_flatten_cons, start_code_at};

verus! {

/// The number of frames that are captured in a second.
pub const FRAME_RATE: u32 = 60;

/// The space that a datagram needs besides the video: the width and the height, the index of the
/// frame, the index and the number of the fragments, the length of the video, and what kind of
/// packet it is.
pub const DATAGRAM_OVERHEAD: usize = 36;

/// How often the other side is told that this side is there.
pub const NUM_GREETINGS: usize = 100;

/// A part of a frame.
pub struct Fragment<'a> {
    pub frame_index: u64,
    /// The position of the part in its frame.
    pub fragment_index: u32,
    /// The number of parts of the frame.
    pub total_fragments: u32,
    pub width: u32,
    pub height: u32,
    pub bytes: &'a [u8],
}

/// The first position from `i` on at which a chunk ends: where a NAL unit starts, or where the
/// chunk has its full size.
pub open spec fn chunk_end(data: Seq<u8>, i: int, max_chunk_size: int) -> int
    decreases max_chunk_size - i,
{
    if i >= max_chunk_size || start_code_at(data, i) {
        i
    } else {
        chunk_end(data, i + 1, max_chunk_size)
    }
}

/// The chunks that a frame is cut into: as long as the rest is larger than a chunk may be, a chunk
/// is cut off at its front.
pub open spec fn chunks_of(data: Seq<u8>, max_chunk_size: int) -> Seq<Seq<u8>>
    decreases data.len(),
{
    let end = chunk_end(data, 4, max_chunk_size);
    if data.len() <= max_chunk_size || end < 4 || end > data.len() {
        seq![data]
    } else {
        seq![data.take(end)] + chunks_of(data.skip(end), max_chunk_size)
    }
}

/// Whether a frame of `len` bytes can be cut: a chunk has at least four bytes but for the last,
/// so a smaller limit must be met by what the whole frame leaves over.
pub open spec fn can_cut(len: nat, max_chunk_size: int) -> bool {
    max_chunk_size >= 4 || (max_chunk_size >= 1 && len % 4 <= max_chunk_size)
}

/// A chunk ends within its bounds.
proof fn lemma_chunk_end(data: Seq<u8>, i: int, max_chunk_size: int)
    ensures
        i <= chunk_end(data, i, max_chunk_size),
        chunk_end(data, i, max_chunk_size) <= if i < max_chunk_size {
            max_chunk_size
        } else {
            i
        },
        chunk_end(data, i, max_chunk_size) < max_chunk_size ==> start_code_at(
            data,
            chunk_end(data, i, max_chunk_size),
        ),
        forall|j: int| i <= j < chunk_end(data, i, max_chunk_size) ==> !start_code_at(data, j),
    decreases max_chunk_size - i,
{
    if i < max_chunk_size && !start_code_at(data, i) {
        lemma_chunk_end(data, i + 1, max_chunk_size);
    }
}

/// Cuts a frame into chunks.
fn split_chunks<'a>(frame: &'a [u8], max_chunk_size: usize) -> (chunks: Vec<&'a [u8]>)
    requires
        can_cut(frame@.len(), max_chunk_size as int),
    ensures
        contents(chunks@) == chunks_of(frame@, max_chunk_size as int),
        chunks@.len() > 0,
{
    let ghost max = max_chunk_size as int;
    let mut data: &'a [u8] = frame;
    let mut chunks: Vec<&'a [u8]> = Vec::new();
    let mut i: usize = 4;
    assert(contents(chunks@) + chunks_of(data@, max) =~= chunks_of(frame@, max));
    while data.len() > max_chunk_size
        invariant
            max == max_chunk_size,
            4 <= i,
            i <= max_chunk_size || i == 4,
            can_cut(data@.len(), max),
            contents(chunks@) + chunks_of(data@, max) == chunks_of(frame@, max),
            chunk_end(data@, 4, max) == chunk_end(data@, i as int, max),
        decreases data@.len(), max_chunk_size - i,
    {
        if i >= max_chunk_size || is_start_code(data, i) {
            // NAL unit start found
            let chunk: &'a [u8] = &data[0..i];
            let rest: &'a [u8] = &data[i..data.len()];
            let ghost done = contents(chunks@);
            chunks.push(chunk);
            proof {
                assert(chunk@ =~= data@.take(i as int));
                assert(rest@ =~= data@.skip(i as int));
                assert(contents(chunks@) =~= done.push(chunk@));
                assert(done + (seq![chunk@] + chunks_of(rest@, max)) =~= contents(chunks@)
                    + chunks_of(rest@, max));
            }
            data = rest;
            i = 4;
        } else {
            i = i + 1;
        }
    }
    let ghost done = contents(chunks@);
    chunks.push(data);
    assert(contents(chunks@) =~= done + seq![data@]);
    chunks
}

/// What the fragments of a frame are.
pub open spec fn fragments_of(
    fragments: Seq<Fragment>,
    chunks: Seq<Seq<u8>>,
    frame_index: u64,
    width: u32,
    height: u32,
) -> bool {
    &&& fragments.len() == chunks.len()
    &&& forall|k: int|
        0 <= k < chunks.len() ==> {
            let fragment = #[trigger] fragments[k];
            &&& fragment.frame_index == frame_index
            &&& fragment.fragment_index == k % 0x1_0000_0000
            &&& fragment.total_fragments == chunks.len() as int % 0x1_0000_0000
            &&& fragment.width == width
            &&& fragment.height == height
            &&& fragment.bytes@ == chunks[k]
        }
}

/// The number that is left when a size is written into 32 bits.
fn low_bits(n: usize) -> (r: u32)
    ensures
        r == n as int % 0x1_0000_0000,
{
    let r: u32 = #[verifier::truncate] (n as u32);
    assert(n as u32 == n as u64 % 0x1_0000_0000) by (bit_vector);
    r
}

/// The fragments of a frame, in the order in which they are sent. `max_datagram_size` is the
/// largest datagram that the connection sends.
pub fn send_chunks<'a>(
    max_datagram_size: usize,
    data: &'a [u8],
    frame_index: u64,
    width: u32,
    height: u32,
) -> (fragments: Vec<Fragment<'a>>)
    requires
        can_cut(data@.len(), max_datagram_size - DATAGRAM_OVERHEAD),
    ensures
        fragments_of(
            fragments@,
            chunks_of(data@, max_datagram_size - DATAGRAM_OVERHEAD),
            frame_index,
            width,
            height,
        ),
        fragments@.map_values(|fragment: Fragment<'a>| fragment.bytes@).flatten() == data@,
        data@.len() <= max_datagram_size - 36 ==> fragments@.len() == 1,
        forall|k: int|
            0 <= k < fragments@.len() ==> {
                let fragment = #[trigger] fragments@[k];
                &&& fragment.frame_index == frame_index
                &&& fragment.width == width
                &&& fragment.height == height
                &&& fragments@.len() <= u32::MAX ==> fragment.fragment_index == k
                &&& fragments@.len() <= u32::MAX ==> fragment.total_fragments == fragments@.len()
                &&& max_datagram_size >= 40 ==> fragment.bytes@.len() + 36 <= max_datagram_size
            },
        forall|k: int|
            0 <= k < fragments@.len() - 1 && max_datagram_size >= 40 ==> {
                let bytes = (#[trigger] fragments@[k]).bytes@;
                let next = fragments@[k + 1].bytes@;
                &&& bytes.len() + 36 == max_datagram_size || next.take(4) == seq![0u8, 0, 0, 1]
                &&& forall|j: int|
                    4 <= j <= bytes.len() - 4 ==> #[trigger] bytes.subrange(j, j + 4) != seq![
                        0u8,
                        0,
                        0,
                        1,
                    ]
            },
{
    let max_chunk_size: usize = max_datagram_size - DATAGRAM_OVERHEAD;
    let chunks = split_chunks(data, max_chunk_size);
    let ghost pieces = chunks_of(data@, max_chunk_size as int);
    assert(pieces.len() == chunks@.len());
    let total_fragments: u32 = low_bits(chunks.len());
    let mut fragments: Vec<Fragment<'a>> = Vec::new();
    let mut k: usize = 0;
    while k < chunks.len()
        invariant
            k <= chunks@.len(),
            contents(chunks@) == pieces,
            pieces.len() == chunks@.len(),
            total_fragments == chunks@.len() as int % 0x1_0000_0000,
            fragments@.len() == k,
            forall|j: int|
                0 <= j < k ==> {
                    let fragment = #[trigger] fragments@[j];
                    &&& fragment.frame_index == frame_index
                    &&& fragment.fragment_index == j % 0x1_0000_0000
                    &&& fragment.total_fragments == total_fragments
                    &&& fragment.width == width
                    &&& fragment.height == height
                    &&& fragment.bytes@ == pieces[j]
                },
        decreases chunks@.len() - k,
    {
        assert(pieces[k as int] == chunks@[k as int]@);
        let fragment_index: u32 = low_bits(k);
        fragments.push(
            Fragment { frame_index, fragment_index, total_fragments, width, height, bytes: chunks[k] },
        );
        k = k + 1;
    }
    proof {
        let max = max_chunk_size as int;
        let parts = fragments@.map_values(|fragment: Fragment<'a>| fragment.bytes@);
        assert(parts =~= pieces);
        law_chunks_join_to_frame(data@, max);
        assert forall|k: int| 0 <= k < fragments@.len() && max_datagram_size >= 40 implies (
        #[trigger] fragments@[k]).bytes@.len() + 36 <= max_datagram_size by {
            law_chunks_fit(data@, max, k);
        }
        assert forall|k: int|
            0 <= k < fragments@.len() - 1 && max_datagram_size >= 40 implies {
            let bytes = (#[trigger] fragments@[k]).bytes@;
            let next = fragments@[k + 1].bytes@;
            &&& bytes.len() + 36 == max_datagram_size || next.take(4) == seq![0u8, 0, 0, 1]
            &&& forall|j: int|
                4 <= j <= bytes.len() - 4 ==> #[trigger] bytes.subrange(j, j + 4) != seq![
                    0u8,
                    0,
                    0,
                    1,
                ]
        } by {
            let bytes = fragments@[k].bytes@;
            let next = fragments@[k + 1].bytes@;
            law_chunks_end_at_units(data@, max, k);
            law_start_code(next, 0);
            assert(next.take(4) =~= next.subrange(0, 4));
            assert forall|j: int| 4 <= j <= bytes.len() - 4 implies #[trigger] bytes.subrange(
                j,
                j + 4,
            ) != seq![0u8, 0, 0, 1] by {
                law_start_code(bytes, j);
                assert(!start_code_at(bytes, j));
            }
        }
    }
    fragments
}

/// Numbers the frames that are sent.
pub struct FrameSender {
    has_encoder: bool,
    frame_index: u64,
}

impl View for FrameSender {
    type V = (bool, u64);

    /// Whether there is an encoder, and the index of the next frame.
    closed spec fn view(&self) -> (bool, u64) {
        (self.has_encoder, self.frame_index)
    }
}

impl FrameSender {
    /// No frame has been captured.
    pub fn new() -> (sender: Self)
        ensures
            sender@ == (false, 0u64),
    {
        FrameSender { has_encoder: false, frame_index: 0 }
    }

    /// Whether an encoder has to be made before a captured frame can be encoded: it is made for
    /// the first one.
    pub fn on_frame(&mut self) -> (create_encoder: bool)
        ensures
            final(self)@ == (true, old(self)@.1),
            create_encoder == !old(self)@.0,
    {
        let create_encoder = !self.has_encoder;
        self.has_encoder = true;
        create_encoder
    }

    /// Whether another frame can be numbered and cut.
    pub fn can_send(&self, max_datagram_size: usize, len: usize) -> (r: bool)
        ensures
            r == (self@.1 < u64::MAX && can_cut(len as nat, max_datagram_size - DATAGRAM_OVERHEAD)),
            self@.1 < u64::MAX && max_datagram_size >= 40 ==> r,
    {
        self.frame_index < u64::MAX && max_datagram_size > DATAGRAM_OVERHEAD && (max_datagram_size
            >= DATAGRAM_OVERHEAD + 4 || len % 4 <= max_datagram_size - DATAGRAM_OVERHEAD)
    }

    /// The fragments of the next frame, in the order in which they are sent.
    pub fn on_encoded<'a>(
        &mut self,
        max_datagram_size: usize,
        data: &'a [u8],
        width: u32,
        height: u32,
    ) -> (fragments: Vec<Fragment<'a>>)
        requires
            old(self)@.1 < u64::MAX,
            can_cut(data@.len(), max_datagram_size - DATAGRAM_OVERHEAD),
        ensures
            final(self)@ == (old(self)@.0, (old(self)@.1 + 1) as u64),
            fragments_of(
                fragments@,
                chunks_of(data@, max_datagram_size - DATAGRAM_OVERHEAD),
                old(self)@.1,
                width,
                height,
            ),
            fragments@.map_values(|fragment: Fragment<'a>| fragment.bytes@).flatten() == data@,
            data@.len() <= max_datagram_size - 36 ==> fragments@.len() == 1,
            forall|k: int|
                0 <= k < fragments@.len() ==> {
                    let fragment = #[trigger] fragments@[k];
                    &&& fragment.frame_index == old(self)@.1
                    &&& fragment.width == width
                    &&& fragment.height == height
                    &&& fragments@.len() <= u32::MAX ==> fragment.fragment_index == k
                    &&& fragments@.len() <= u32::MAX ==> fragment.total_fragments == fragments@.len()
                    &&& max_datagram_size >= 40 ==> fragment.bytes@.len() + 36 <= max_datagram_size
                },
            forall|k: int|
                0 <= k < fragments@.len() - 1 && max_datagram_size >= 40 ==> {
                    let bytes = (#[trigger] fragments@[k]).bytes@;
                    let next = fragments@[k + 1].bytes@;
                    &&& bytes.len() + 36 == max_datagram_size || next.take(4) == seq![0u8, 0, 0, 1]
                    &&& forall|j: int|
                        4 <= j <= bytes.len() - 4 ==> #[trigger] bytes.subrange(j, j + 4) != seq![
                            0u8,
                            0,
                            0,
                            1,
                        ]
                },
    {
        let fragments = send_chunks(max_datagram_size, data, self.frame_index, width, height);
        self.frame_index = self.frame_index + 1;
        fragments
    }
}

/// Nothing is lost: the chunks, one after the other, are the frame.
pub proof fn law_chunks_join_to_frame(data: Seq<u8>, max_chunk_size: int)
    ensures
        chunks_of(data, max_chunk_size).flatten() == data,
    decreases data.len(),
{
    let end = chunk_end(data, 4, max_chunk_size);
    if data.len() <= max_chunk_size || end < 4 || end > data.len() {
        lemma_flatten_cons(data, Seq::empty());
        assert(seq![data] + Seq::<Seq<u8>>::empty() =~= chunks_of(data, max_chunk_size));
        assert(Seq::<Seq<u8>>::empty().flatten() =~= Seq::<u8>::empty());
        assert(chunks_of(data, max_chunk_size).flatten() =~= data);
    } else {
        let rest = data.skip(end);
        law_chunks_join_to_frame(rest, max_chunk_size);
        lemma_flatten_cons(data.take(end), chunks_of(rest, max_chunk_size));
        assert(data.take(end) + rest =~= data);
    }
}

/// Every chunk fits in a datagram, if a chunk may have at least four bytes, and only an empty frame
/// has an empty chunk, which is its only one.
pub proof fn law_chunks_fit(data: Seq<u8>, max_chunk_size: int, k: int)
    requires
        max_chunk_size >= 4,
        0 <= k < chunks_of(data, max_chunk_size).len(),
    ensures
        chunks_of(data, max_chunk_size)[k].len() <= max_chunk_size,
        data.len() > 0 ==> chunks_of(data, max_chunk_size)[k].len() > 0,
        data.len() == 0 ==> chunks_of(data, max_chunk_size) == seq![data],
    decreases data.len(),
{
    let end = chunk_end(data, 4, max_chunk_size);
    lemma_chunk_end(data, 4, max_chunk_size);
    if data.len() > max_chunk_size && k > 0 {
        law_chunks_fit(data.skip(end), max_chunk_size, k - 1);
    }
}

/// Any frame can be cut if a chunk may have at least four bytes. A smaller limit has to have room for
/// what is left when chunks of four bytes have been cut off.
pub proof fn law_frames_can_be_cut(len: nat, max_chunk_size: int)
    ensures
        max_chunk_size >= 4 ==> can_cut(len, max_chunk_size),
        max_chunk_size <= 0 ==> !can_cut(len, max_chunk_size),
        1 <= max_chunk_size && len < 4 ==> (can_cut(len, max_chunk_size) <==> len <= max_chunk_size
            || max_chunk_size >= 4),
        can_cut(len + 4, max_chunk_size) == can_cut(len, max_chunk_size),
{
}

/// If a chunk may have fewer than four bytes, every chunk but the last has four nevertheless, and the
/// last one keeps the limit.
pub proof fn law_small_chunks(data: Seq<u8>, max_chunk_size: int, k: int)
    requires
        1 <= max_chunk_size < 4,
        can_cut(data.len(), max_chunk_size),
        0 <= k < chunks_of(data, max_chunk_size).len(),
    ensures
        ({
            let chunks = chunks_of(data, max_chunk_size);
            &&& k < chunks.len() - 1 ==> chunks[k].len() == 4
            &&& k == chunks.len() - 1 ==> chunks[k].len() <= max_chunk_size
        }),
    decreases data.len(),
{
    if data.len() > max_chunk_size {
        let rest = data.skip(4);
        assert(chunk_end(data, 4, max_chunk_size) == 4);
        assert(data.len() >= 4);
        assert(chunks_of(data, max_chunk_size) == seq![data.take(4)] + chunks_of(
            rest,
            max_chunk_size,
        ));
        assert(chunks_of(rest, max_chunk_size).len() > 0);
        if k > 0 {
            law_small_chunks(rest, max_chunk_size, k - 1);
        }
    }
}

/// A frame is cut only while it is too large: what is left from each chunk on, but for the last,
/// does not fit in a datagram.
pub proof fn law_cut_while_too_large(data: Seq<u8>, max_chunk_size: int, k: int)
    requires
        max_chunk_size >= 4,
        0 <= k < chunks_of(data, max_chunk_size).len() - 1,
    ensures
        chunks_of(data, max_chunk_size).skip(k).flatten().len() > max_chunk_size,
    decreases data.len(),
{
    let chunks = chunks_of(data, max_chunk_size);
    let end = chunk_end(data, 4, max_chunk_size);
    lemma_chunk_end(data, 4, max_chunk_size);
    if k == 0 {
        assert(chunks.skip(0) =~= chunks);
        law_chunks_join_to_frame(data, max_chunk_size);
    } else {
        let rest = data.skip(end);
        law_cut_while_too_large(rest, max_chunk_size, k - 1);
        assert(chunks.skip(k) =~= chunks_of(rest, max_chunk_size).skip(k - 1));
    }
}

/// A frame is cut only between NAL units, or where a chunk has its full size: every chunk but the
/// last is either full or followed by a chunk that starts with a start code, and holds no start
/// code past its own.
pub proof fn law_chunks_end_at_units(data: Seq<u8>, max_chunk_size: int, k: int)
    requires
        max_chunk_size >= 4,
        0 <= k < chunks_of(data, max_chunk_size).len() - 1,
    ensures
        ({
            let chunk = chunks_of(data, max_chunk_size)[k];
            let next = chunks_of(data, max_chunk_size)[k + 1];
            &&& chunk.len() == max_chunk_size || start_code_at(next, 0)
            &&& forall|j: int| 4 <= j ==> !start_code_at(chunk, j)
        }),
    decreases data.len(),
{
    let end = chunk_end(data, 4, max_chunk_size);
    lemma_chunk_end(data, 4, max_chunk_size);
    let rest = data.skip(end);
    let chunk = chunks_of(data, max_chunk_size)[k];
    if k == 0 {
        assert forall|j: int| 4 <= j implies !start_code_at(chunk, j) by {
            if start_code_at(chunk, j) {
                assert(start_code_at(data, j));
            }
        }
        if end < max_chunk_size {
            assert(start_code_at(rest, 0));
            assert(chunks_of(data, max_chunk_size)[1] == chunks_of(rest, max_chunk_size)[0]);
            lemma_chunk_end(rest, 4, max_chunk_size);
        }
    } else {
        law_chunks_end_at_units(rest, max_chunk_size, k - 1);
    }
}

} // verus!
