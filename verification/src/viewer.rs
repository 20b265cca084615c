//! What is done with the packets of a stream of video, and what is sent when a key is typed.
use vstd::prelude::*;

use crate::common::{Action, Key};
use crate::gpu::DecoderError;

verus! {

/// A packet that has come in.
#[derive(Debug, Clone, Copy, PartialEq, Eq, Structural)]
pub enum Incoming {
    /// Input, which is sent to the other side only.
    Input,
    /// The other side is there.
    IAmCaster,
    /// Video of the given size.
    H264 { width: u32, height: u32 },
}

/// What is done with a packet.
#[derive(Debug, Clone, Copy, PartialEq, Eq, Structural)]
pub enum RenderStep {
    /// Nothing.
    Skip,
    /// Decode the video.
    Decode,
    /// Make a decoder for video of this size, and decode the video.
    CreateAndDecode { width: u32, height: u32 },
}

/// What came of decoding a packet.
#[derive(Debug, Clone, Copy, PartialEq, Eq, Structural)]
pub enum FrameEvent {
    /// There is a new frame.
    Rendered,
    /// More data is needed for a frame.
    NotEnoughData,
    /// The data could not be decoded, and is left out.
    Failed,
}

/// What is done with a packet, with or without a decoder.
pub open spec fn render_step(has_decoder: bool, packet: Incoming) -> RenderStep {
    match packet {
        Incoming::H264 { width, height } => if has_decoder {
            RenderStep::Decode
        } else {
            RenderStep::CreateAndDecode { width, height }
        },
        _ => RenderStep::Skip,
    }
}

/// Whether there is a decoder after the packets, when there was one before or not.
pub open spec fn decoder_after(has_decoder: bool, packets: Seq<Incoming>) -> bool
    decreases packets.len(),
{
    if packets.len() == 0 {
        has_decoder
    } else {
        decoder_after(has_decoder, packets.drop_last()) || packets.last() is H264
    }
}

/// Decides what is done with the packets of a stream of video.
pub struct Renderer {
    has_decoder: bool,
}

impl View for Renderer {
    type V = bool;

    /// Whether there is a decoder.
    closed spec fn view(&self) -> bool {
        self.has_decoder
    }
}

impl Renderer {
    /// No packet has come in.
    pub fn new() -> (renderer: Self)
        ensures
            !renderer@,
    {
        Renderer { has_decoder: false }
    }

    /// What to do with the next packet. Input does not come in on a stream of video.
    pub fn on_packet(&mut self, packet: Incoming) -> (step: RenderStep)
        requires
            packet !is Input,
        ensures
            step == render_step(old(self)@, packet),
            packet is H264 && old(self)@ ==> step is Decode,
            packet is H264 && !old(self)@ ==> step == (RenderStep::CreateAndDecode {
                width: packet->H264_width,
                height: packet->H264_height,
            }),
            packet !is H264 ==> step is Skip,
            final(self)@ == (old(self)@ || packet is H264),
    {
        match packet {
            Incoming::H264 { width, height } => {
                if self.has_decoder {
                    RenderStep::Decode
                } else {
                    self.has_decoder = true;
                    RenderStep::CreateAndDecode { width, height }
                }
            },
            _ => RenderStep::Skip,
        }
    }
}

/// What came of decoding a packet.
pub fn frame_event<H, C>(decoded: &Result<(), DecoderError<H, C>>) -> (event: FrameEvent)
    ensures
        event == match *decoded {
            Ok(_) => FrameEvent::Rendered,
            Err(DecoderError::NoNewFrame) => FrameEvent::NotEnoughData,
            Err(_) => FrameEvent::Failed,
        },
{
    match decoded {
        Ok(_) => FrameEvent::Rendered,
        Err(err) => match err {
            DecoderError::NoNewFrame => FrameEvent::NotEnoughData,
            _ => FrameEvent::Failed,
        },
    }
}

/// The word for a key that goes down.
pub open spec fn pressed_word() -> Seq<char> {
    seq!['p', 'r', 'e', 's', 's', 'e', 'd']
}

/// The word is "pressed".
pub proof fn law_pressed_word()
    ensures
        pressed_word() == "pressed"@,
{
    reveal_strlit("pressed");
    assert(pressed_word() =~= "pressed"@);
}

/// What is sent when a key is typed: its first character, if it has one, and whether the key goes
/// down, which any word but "pressed" denies.
pub fn typed_key(text: &str, action: &str) -> (key: Option<Key>)
    ensures
        key == if text@.len() == 0 {
            None::<Key>
        } else {
            Some(
                Key {
                    char: text@[0],
                    action: if action@ == pressed_word() {
                        Action::Press
                    } else {
                        Action::Release
                    },
                },
            )
        },
        key matches Some(key) ==> (key.action is Press <==> action@ == "pressed"@),
{
    proof {
        law_pressed_word();
    }
    if text.unicode_len() == 0 {
        return None;
    }
    let char = text.get_char(0);
    let pressed = "pressed".to_owned();
    proof {
        reveal_strlit("pressed");
        assert(pressed@ =~= pressed_word());
    }
    let action = if action.to_owned() == pressed {
        Action::Press
    } else {
        Action::Release
    };
    Some(Key { char, action })
}

/// What the user is told when the client could not be started: that the address is invalid, if it
/// is, or else the error.
pub fn start_error_text(is_invalid_input: bool, error: String) -> (text: String)
    ensures
        text@ == if is_invalid_input {
            "Invalid address"@
        } else {
            error@
        },
{
    if is_invalid_input {
        "Invalid address".to_owned()
    } else {
        error
    }
}

/// A decoder is made once, for the first packet with video: packets before it are skipped, and
/// every packet with video after it goes to the decoder that is there.
pub proof fn law_one_decoder(packets: Seq<Incoming>, first: int, packet: Incoming)
    requires
        0 <= first < packets.len(),
        packets[first] is H264,
        forall|i: int| 0 <= i < first ==> (#[trigger] packets[i]) !is H264,
    ensures
        !decoder_after(false, packets.take(first)),
        render_step(decoder_after(false, packets.take(first)), packets[first])
            == (RenderStep::CreateAndDecode {
            width: packets[first]->H264_width,
            height: packets[first]->H264_height,
        }),
        decoder_after(false, packets),
        render_step(decoder_after(false, packets), packet) !is CreateAndDecode,
        render_step(decoder_after(false, packets), packet) is Decode <==> packet is H264,
        packet !is H264 ==> render_step(false, packet) is Skip,
    decreases packets.len(),
{
    lemma_no_decoder(packets.take(first));
    if packets.len() == first + 1 {
        assert(packets.last() == packets[first]);
    } else {
        let earlier = packets.drop_last();
        assert forall|i: int| 0 <= i < first implies (#[trigger] earlier[i]) !is H264 by {
            assert(earlier[i] == packets[i]);
        }
        assert(earlier[first] == packets[first]);
        law_one_decoder(earlier, first, packet);
    }
}

/// Without video no decoder is made.
proof fn lemma_no_decoder(packets: Seq<Incoming>)
    requires
        forall|i: int| 0 <= i < packets.len() ==> (#[trigger] packets[i]) !is H264,
    ensures
        !decoder_after(false, packets),
    decreases packets.len(),
{
    if packets.len() > 0 {
        let earlier = packets.drop_last();
        assert forall|i: int| 0 <= i < earlier.len() implies (#[trigger] earlier[i]) !is H264 by {
            assert(earlier[i] == packets[i]);
        }
        assert(packets[packets.len() - 1] !is H264);
        lemma_no_decoder(earlier);
    }
}

} // verus!
