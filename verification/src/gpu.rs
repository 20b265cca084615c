//! What the decoder and the encoder are asked to do, and what their results mean.
use vstd::prelude::*;

verus! {

/// How the pixels of a captured frame are stored.
#[derive(Debug, Clone, Copy, PartialEq, Eq, Structural)]
pub enum FrameFormat {
    Bgra8,
    Rgba8,
    /// A format that cannot be encoded.
    Other,
}

/// The format of the texture that a frame is uploaded to.
#[derive(Debug, Clone, Copy, PartialEq, Eq, Structural)]
pub enum TextureFormat {
    Bgra8Unorm,
    Rgba8Unorm,
}

/// Why frames cannot be encoded.
#[derive(Debug, Clone, Copy, PartialEq, Eq, Structural)]
pub enum FrameError {
    /// A row has less room than its pixels need.
    Stride,
    /// The format cannot be encoded.
    Format,
    /// A frame has no pixels.
    Empty,
}

/// Why data could not be decoded: `H` is the error of the H.264 decoder, and `C` that of the
/// conversion to pixels.
#[derive(Debug, PartialEq, Eq)]
pub enum DecoderError<H, C> {
    H264(H),
    ConverterInit(C),
    /// The provided data was not enough to produce a new frame
    NoNewFrame,
}

/// What frames have to be like for the encoder, in the order in which it is looked at: the rows
/// have room for the pixels, the format is known, and there are pixels.
pub open spec fn frame_check(width: u32, height: u32, stride: u32, format: FrameFormat) -> Result<
    TextureFormat,
    FrameError,
> {
    if stride < 4 * width {
        Err(FrameError::Stride)
    } else if format is Other {
        Err(FrameError::Format)
    } else if width == 0 || height == 0 {
        Err(FrameError::Empty)
    } else if format is Bgra8 {
        Ok(TextureFormat::Bgra8Unorm)
    } else {
        Ok(TextureFormat::Rgba8Unorm)
    }
}

/// The texture format to upload frames with, or why they cannot be encoded.
pub fn encoder_format(width: u32, height: u32, stride: u32, format: FrameFormat) -> (r: Result<
    TextureFormat,
    FrameError,
>)
    ensures
        r == frame_check(width, height, stride, format),
{
    if (stride as u64) < width as u64 * 4 {
        return Err(FrameError::Stride);
    }
    let format = match format {
        // using BGRA8 as texture format maps the colors to the correct values
        FrameFormat::Bgra8 => TextureFormat::Bgra8Unorm,
        // RGBA8 can be used as-is
        FrameFormat::Rgba8 => TextureFormat::Rgba8Unorm,
        FrameFormat::Other => {
            return Err(FrameError::Format);
        },
    };
    if width == 0 || height == 0 {
        return Err(FrameError::Empty);
    }
    Ok(format)
}

/// The frame that the H.264 decoder produced. As the encoder splits each frame into one or more
/// packets, one packet never corresponds to more than one frame.
pub fn decoded_frame<F, H, C>(frames: Result<Vec<F>, H>) -> (r: Result<F, DecoderError<H, C>>)
    requires
        frames matches Ok(frames) ==> frames@.len() <= 1,
    ensures
        r == match frames {
            Ok(frames) => if frames@.len() == 0 {
                Err::<F, DecoderError<H, C>>(DecoderError::NoNewFrame)
            } else {
                Ok(frames@[0])
            },
            Err(err) => Err(DecoderError::H264(err)),
        },
{
    match frames {
        Ok(frames) => {
            let mut frames = frames;
            match frames.pop() {
                Some(frame) => Ok(frame),
                None => Err(DecoderError::NoNewFrame),
            }
        },
        Err(err) => Err(DecoderError::H264(err)),
    }
}

/// Frames that can be encoded hold all their pixels: a row of `stride` bytes has room for four
/// bytes per pixel, and there is at least one pixel.
pub proof fn law_encodable_frames(width: u32, height: u32, stride: u32, format: FrameFormat)
    ensures
        frame_check(width, height, stride, format) is Ok <==> {
            &&& 0 < 4 * width <= stride
            &&& 0 < height
            &&& format !is Other
        },
{
}

/// Frames are uploaded in the format in which they are captured, and of several reasons why frames
/// cannot be encoded, the room in a row comes first, then the format.
pub proof fn law_texture_format(width: u32, height: u32, stride: u32, format: FrameFormat)
    ensures
        ({
            let r = frame_check(width, height, stride, format);
            &&& r is Ok && format is Bgra8 ==> r->Ok_0 is Bgra8Unorm
            &&& r is Ok && format is Rgba8 ==> r->Ok_0 is Rgba8Unorm
            &&& (r is Err && r->Err_0 is Stride) <==> stride < 4 * width
            &&& (r is Err && r->Err_0 is Format) <==> stride >= 4 * width && format is Other
            &&& (r is Err && r->Err_0 is Empty) <==> stride >= 4 * width && format !is Other && (
            width == 0 || height == 0)
        }),
{
}

} // verus!
