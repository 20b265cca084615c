//! How a captured frame is prepared for the encoder, and how the encoded frame is cut into
//! packets.
use vstd::prelude::*;
use yuv::{
    YuvBiPlanarImageMut, YuvChromaSubsampling, YuvConversionMode, YuvRange, YuvStandardMatrix,
};

use crate::gpu::FrameFormat;
use crate::nal::{contents, lemma_flatten_cons};

verus! {

/// The number of frames that are captured in a second.
pub const FRAME_RATE: u64 = 75;

/// The space that a packet needs besides the video: the time stamp of the frame, its width and
/// height, and the slice.
pub const PACKET_OVERHEAD: usize = 28;

/// The bytes of brightness in a frame: one for every pixel.
pub open spec fn luma_len(width: u32, height: u32) -> int {
    width * height
}

/// The bytes of colour in a frame: two for every block of two by two pixels, also where the block
/// sticks out of the frame.
pub open spec fn chroma_len(width: u32, height: u32) -> int {
    2 * ((width + 1) / 2) * ((height + 1) / 2)
}

/// Whether the bytes hold a frame of four bytes per pixel, in rows that start `stride` bytes apart.
/// The rows are converted in pairs, so where one row is left over, what follows the last pair that
/// the bytes hold has to have room for it.
pub open spec fn holds_frame(len: nat, width: u32, height: u32, stride: u32) -> bool {
    &&& width > 0
    &&& height > 0
    &&& stride >= 4 * width
    &&& 2 * stride <= usize::MAX
    &&& len >= stride * (height - 1) + 4 * width
    &&& height % 2 == 1 ==> len as int % (2 * stride) >= 4 * width
}

/// The values that brightness and colour take.
#[derive(Debug, Clone, Copy, PartialEq, Eq, Structural)]
pub enum ColorRange {
    Limited,
    Full,
}

/// How brightness and colour are computed from red, green and blue.
#[derive(Debug, Clone, Copy, PartialEq, Eq, Structural)]
pub enum ColorMatrix {
    Bt601,
    Bt709,
}

/// The range that frames are converted to.
pub const COLOR_RANGE: ColorRange = ColorRange::Full;

/// The matrix that frames are converted with.
pub const COLOR_MATRIX: ColorMatrix = ColorMatrix::Bt709;

/// `yuv::bgra_to_yuv_nv12` into an image that `YuvBiPlanarImageMut::alloc` made with the
/// subsampling of NV12, in the balanced mode, the only one that `yuv` is built with: the planes of
/// brightness and of colour, in this order. The planes have the sizes of the allocated image. The
/// brightness of a pixel, in full range by BT.709, lies within three steps of the weighted sum of
/// its red, green and blue, if the pixel is in a pair of rows that the bytes hold whole. Nothing
/// more is stated of the bytes: the conversion runs on whatever vector instructions the machine
/// has, and its rounding may differ with them.
#[verifier::external_body]
fn convert_to_nv12(
    bgra: &[u8],
    width: u32,
    height: u32,
    stride: u32,
    range: ColorRange,
    matrix: ColorMatrix,
) -> (planes: (Vec<u8>, Vec<u8>))
    requires
        holds_frame(bgra@.len(), width, height, stride),
    ensures
        planes.0@.len() == luma_len(width, height),
        planes.1@.len() == chroma_len(width, height),
        forall|k: int|
            0 <= k < planes.0@.len() ==> {
                let row = k / width as int;
                let at = stride * row + 4 * (k % width as int);
                let pair_end = 2 * (row / 2 + 1);
                let weighted = 2126 * bgra@[at + 2] + 7152 * bgra@[at + 1] + 722 * bgra@[at];
                range is Full && matrix is Bt709 && pair_end <= height && stride * pair_end <= bgra@.len() ==> -30000
                    <= 10000 * (#[trigger] planes.0@[k]) - weighted <= 30000
            },
{
    let range = match range {
        ColorRange::Limited => YuvRange::Limited,
        ColorRange::Full => YuvRange::Full,
    };
    let matrix = match matrix {
        ColorMatrix::Bt601 => YuvStandardMatrix::Bt601,
        ColorMatrix::Bt709 => YuvStandardMatrix::Bt709,
    };
    let mode = YuvConversionMode::Balanced;
    let mut image = YuvBiPlanarImageMut::alloc(width, height, YuvChromaSubsampling::Yuv420);
    yuv::bgra_to_yuv_nv12(&mut image, bgra, stride, range, matrix, mode).unwrap();
    (image.y_plane.borrow().to_vec(), image.uv_plane.borrow().to_vec())
}

/// Whether the conversion of a captured frame can give these planes, the first of brightness and
/// the second of colour.
pub closed spec fn converts_to(
    bgra: &[u8],
    width: u32,
    height: u32,
    stride: u32,
    planes: (Vec<u8>, Vec<u8>),
) -> bool {
    call_ensures(
        convert_to_nv12,
        (bgra, width, height, stride, COLOR_RANGE, COLOR_MATRIX),
        planes,
    )
}

/// A captured frame is converted as it is: the planes are those that the conversion gives for just
/// these bytes, in their order, with this size and distance of the rows, in full range by BT.709.
proof fn law_frames_are_converted_as_captured(
    bgra: &[u8],
    width: u32,
    height: u32,
    stride: u32,
    planes: (Vec<u8>, Vec<u8>),
)
    ensures
        converts_to(bgra, width, height, stride, planes) <==> call_ensures(
            convert_to_nv12,
            (bgra, width, height, stride, ColorRange::Full, ColorMatrix::Bt709),
            planes,
        ),
{
}

/// The sizes of the planes: one byte of brightness for every pixel, and half as many bytes of colour
/// if the frame consists of whole blocks; else as many as for the frame that does and covers it.
pub proof fn law_plane_sizes(width: u32, height: u32)
    ensures
        luma_len(width, height) == width * height,
        width % 2 == 0 && height % 2 == 0 ==> 2 * chroma_len(width, height) == width * height,
        width < u32::MAX && width % 2 == 1 ==> chroma_len(width, height) == chroma_len(
            (width + 1) as u32,
            height,
        ),
        height < u32::MAX && height % 2 == 1 ==> chroma_len(width, height) == chroma_len(
            width,
            (height + 1) as u32,
        ),
{
    if width % 2 == 0 && height % 2 == 0 {
        let w = width as int / 2;
        let h = height as int / 2;
        assert((width + 1) as int / 2 == w && (height + 1) as int / 2 == h);
        assert(2 * (2 * w * h) == (2 * w) * (2 * h)) by (nonlinear_arith);
    }
    if width < u32::MAX && width % 2 == 1 {
        assert((width + 2) as int / 2 == (width + 1) as int / 2);
    }
    if height < u32::MAX && height % 2 == 1 {
        assert((height + 2) as int / 2 == (height + 1) as int / 2);
    }
}

/// What is taken for a frame holds all of its pixels, and whatever holds whole rows of them, if rows
/// are not too long for the machine, is taken for a frame.
pub proof fn law_frames_hold_their_pixels(
    len: nat,
    width: u32,
    height: u32,
    stride: u32,
    row: int,
    x: int,
)
    ensures
        holds_frame(len, width, height, stride) && 0 <= row < height && 0 <= x < width ==> stride
            * row + 4 * x + 4 <= len,
        0 < 4 * width <= stride && 0 < height && 2 * stride <= usize::MAX && len == stride * height
            ==> holds_frame(len, width, height, stride),
{
    if holds_frame(len, width, height, stride) && 0 <= row < height && 0 <= x < width {
        assert(stride * row <= stride * (height - 1)) by (nonlinear_arith)
            requires
                0 <= stride,
                row <= height - 1,
        ;
    }
    if 0 < 4 * width <= stride && 0 < height && 2 * stride <= usize::MAX && len == stride * height {
        assert(stride * (height - 1) + stride == stride * height) by (nonlinear_arith);
        if height % 2 == 1 {
            let n = (height - 1) / 2;
            assert(stride * height == (2 * stride) * n + stride) by (nonlinear_arith)
                requires
                    height == 2 * n + 1,
            ;
            vstd::arithmetic::div_mod::lemma_fundamental_div_mod_converse(
                len as int,
                2 * stride,
                n,
                stride as int,
            );
        }
    }
}

/// A frame as the encoder takes it: the brightness of all pixels, then their colour.
pub fn join_planes(y_plane: Vec<u8>, uv_plane: Vec<u8>) -> (frame: Vec<u8>)
    ensures
        frame@ == y_plane@ + uv_plane@,
{
    let mut frame = y_plane;
    let mut rest = uv_plane;
    frame.append(&mut rest);
    frame
}

/// Converts a captured frame for the encoder: the plane of brightness, then the plane of colour.
/// What their bytes are exactly depends on the machine; the brightness of a pixel follows from its
/// red, green and blue up to three steps.
pub fn bgra_to_yuv(bgra: &[u8], width: u32, height: u32, stride: u32) -> (frame: Vec<u8>)
    requires
        holds_frame(bgra@.len(), width, height, stride),
    ensures
        exists|planes: (Vec<u8>, Vec<u8>)|
            {
                &&& #[trigger] converts_to(bgra, width, height, stride, planes)
                &&& planes.0@.len() == luma_len(width, height)
                &&& planes.1@.len() == chroma_len(width, height)
                &&& frame@ == planes.0@ + planes.1@
            },
        frame@.len() == luma_len(width, height) + chroma_len(width, height),
        forall|k: int|
            0 <= k < width * height ==> {
                let row = k / width as int;
                let at = stride * row + 4 * (k % width as int);
                let pair_end = 2 * (row / 2 + 1);
                let weighted = 2126 * bgra@[at + 2] + 7152 * bgra@[at + 1] + 722 * bgra@[at];
                pair_end <= height && stride * pair_end <= bgra@.len() ==> -30000
                    <= 10000 * (#[trigger] frame@[k]) - weighted <= 30000
            },
{
    let planes = convert_to_nv12(bgra, width, height, stride, COLOR_RANGE, COLOR_MATRIX);
    assert(converts_to(bgra, width, height, stride, planes));
    join_planes(planes.0, planes.1)
}

/// What is done with a captured frame.
pub struct FrameWork {
    /// Whether an encoder has to be made first.
    pub create_encoder: bool,
    /// The frame as the encoder takes it.
    pub yuv_frame: Vec<u8>,
}

/// Prepares captured frames for the encoder.
pub struct ScreenCast {
    has_encoder: bool,
}

impl View for ScreenCast {
    type V = bool;

    /// Whether there is an encoder.
    closed spec fn view(&self) -> bool {
        self.has_encoder
    }
}

impl ScreenCast {
    /// No frame has been captured.
    pub fn new() -> (cast: Self)
        ensures
            !cast@,
    {
        ScreenCast { has_encoder: false }
    }

    /// What to do with a captured frame: an encoder is made for the first one. Only frames in one
    /// format can be converted.
    pub fn on_frame(
        &mut self,
        format: FrameFormat,
        bytes: &[u8],
        width: u32,
        height: u32,
        stride: u32,
    ) -> (work: FrameWork)
        requires
            format is Bgra8,
            holds_frame(bytes@.len(), width, height, stride),
        ensures
            final(self)@,
            work.create_encoder == !old(self)@,
            exists|planes: (Vec<u8>, Vec<u8>)|
                {
                    &&& #[trigger] converts_to(bytes, width, height, stride, planes)
                    &&& planes.0@.len() == luma_len(width, height)
                    &&& planes.1@.len() == chroma_len(width, height)
                    &&& work.yuv_frame@ == planes.0@ + planes.1@
                },
            forall|k: int|
                0 <= k < width * height ==> {
                    let row = k / width as int;
                    let at = stride * row + 4 * (k % width as int);
                    let pair_end = 2 * (row / 2 + 1);
                    let weighted = 2126 * bytes@[at + 2] + 7152 * bytes@[at + 1] + 722 * bytes@[at];
                    pair_end <= height && stride * pair_end <= bytes@.len() ==> -30000
                        <= 10000 * (#[trigger] work.yuv_frame@[k]) - weighted <= 30000
                },
    {
        let create_encoder = !self.has_encoder;
        self.has_encoder = true;
        FrameWork { create_encoder, yuv_frame: bgra_to_yuv(bytes, width, height, stride) }
    }
}

/// Whether the bytes hold a frame.
pub fn is_frame(len: usize, width: u32, height: u32, stride: u32) -> (r: bool)
    ensures
        r == holds_frame(len as nat, width, height, stride),
{
    if width == 0 || height == 0 || (stride as u64) < 4 * width as u64 {
        return false;
    }
    if stride as u128 * 2 > usize::MAX as u128 {
        return false;
    }
    let rows: u128 = (height - 1) as u128;
    assert(stride as u128 * rows <= u32::MAX * u32::MAX) by (nonlinear_arith)
        requires
            stride <= u32::MAX,
            rows <= u32::MAX,
    ;
    if (len as u128) < stride as u128 * rows + 4 * width as u128 {
        return false;
    }
    height % 2 == 0 || len % (2 * stride as usize) >= 4 * width as usize
}

/// The pieces of `size` bytes that a frame is cut into; the last one may be smaller, and an empty
/// frame has none.
pub open spec fn pieces_of(data: Seq<u8>, size: int) -> Seq<Seq<u8>>
    decreases data.len(),
{
    if data.len() == 0 || size <= 0 {
        Seq::empty()
    } else if data.len() <= size {
        seq![data]
    } else {
        seq![data.take(size)] + pieces_of(data.skip(size), size)
    }
}

/// Cuts an encoded frame into the parts that the packets carry.
pub fn split_frame<'a>(data: &'a [u8], max_packet_size: usize) -> (pieces: Vec<&'a [u8]>)
    requires
        max_packet_size > PACKET_OVERHEAD,
    ensures
        contents(pieces@) == pieces_of(data@, max_packet_size - PACKET_OVERHEAD),
        forall|k: int|
            0 <= k < pieces@.len() ==> 0 < (#[trigger] pieces@[k])@.len() <= max_packet_size - 28,
        forall|k: int|
            0 <= k < pieces@.len() - 1 ==> (#[trigger] pieces@[k])@.len() == max_packet_size - 28,
{
    let size: usize = max_packet_size - PACKET_OVERHEAD;
    let mut rest: &'a [u8] = data;
    let mut pieces: Vec<&'a [u8]> = Vec::new();
    assert(contents(pieces@) + pieces_of(rest@, size as int) =~= pieces_of(data@, size as int));
    while rest.len() > 0
        invariant
            size > 0,
            contents(pieces@) + pieces_of(rest@, size as int) == pieces_of(data@, size as int),
        decreases rest@.len(),
    {
        let end: usize = if rest.len() <= size {
            rest.len()
        } else {
            size
        };
        let piece: &'a [u8] = &rest[0..end];
        let others: &'a [u8] = &rest[end..rest.len()];
        let ghost done = contents(pieces@);
        pieces.push(piece);
        proof {
            assert(others@ =~= rest@.skip(end as int));
            assert(piece@ =~= rest@.take(end as int));
            if rest@.len() <= size {
                assert(piece@ =~= rest@);
                assert(pieces_of(others@, size as int) =~= Seq::<Seq<u8>>::empty());
            }
            assert(pieces_of(rest@, size as int) =~= seq![piece@] + pieces_of(others@, size as int));
            assert(contents(pieces@) =~= done.push(piece@));
            assert(done + (seq![piece@] + pieces_of(others@, size as int)) =~= contents(pieces@)
                + pieces_of(others@, size as int));
        }
        rest = others;
    }
    assert(contents(pieces@) + Seq::<Seq<u8>>::empty() =~= contents(pieces@));
    proof {
        assert forall|k: int| 0 <= k < pieces@.len() implies 0 < (#[trigger] pieces@[k])@.len()
            <= size && (k < pieces@.len() - 1 ==> pieces@[k]@.len() == size) by {
            law_pieces_fit(data@, size as int, k);
            assert(contents(pieces@)[k] == pieces@[k]@);
        }
    }
    pieces
}

/// Nothing is lost: the pieces, one after the other, are the frame.
pub proof fn law_pieces_join_to_frame(data: Seq<u8>, size: int)
    requires
        size > 0,
    ensures
        pieces_of(data, size).flatten() == data,
    decreases data.len(),
{
    if data.len() == 0 {
        assert(pieces_of(data, size).flatten() =~= data);
    } else if data.len() <= size {
        lemma_flatten_cons(data, Seq::empty());
        assert(seq![data] + Seq::<Seq<u8>>::empty() =~= pieces_of(data, size));
        assert(Seq::<Seq<u8>>::empty().flatten() =~= Seq::<u8>::empty());
        assert(pieces_of(data, size).flatten() =~= data);
    } else {
        law_pieces_join_to_frame(data.skip(size), size);
        lemma_flatten_cons(data.take(size), pieces_of(data.skip(size), size));
        assert(data.take(size) + data.skip(size) =~= data);
    }
}

/// Every piece fits in a packet, none is empty, and every piece but the last is full.
pub proof fn law_pieces_fit(data: Seq<u8>, size: int, k: int)
    requires
        size > 0,
        0 <= k < pieces_of(data, size).len(),
    ensures
        0 < pieces_of(data, size)[k].len() <= size,
        k < pieces_of(data, size).len() - 1 ==> pieces_of(data, size)[k].len() == size,
    decreases data.len(),
{
    if data.len() > size && k > 0 {
        law_pieces_fit(data.skip(size), size, k - 1);
    }
}

} // verus!
