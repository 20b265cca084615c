use remin::caster::{send_chunks, FrameSender, Fragment, DATAGRAM_OVERHEAD, NUM_GREETINGS};
use remin::common::H264;
use remin::gpu::{
    decoded_frame, encoder_format, DecoderError, FrameError, FrameFormat, TextureFormat,
};
use remin::server::{bgra_to_yuv, is_frame, join_planes, split_frame, ScreenCast};
use remin::streamer::video::send_nal_units;
use remin::timestamp::TimeStamp;
use remin::viewer::{frame_event, FrameEvent, Incoming, RenderStep, Renderer};

/// Units with a start code each, and the given payloads.
fn stream(payloads: &[&[u8]]) -> Vec<u8> {
    let mut bytes = Vec::new();
    for payload in payloads {
        bytes.extend([0, 0, 0, 1]);
        bytes.extend(*payload);
    }
    bytes
}

fn units(max_fragment_size: usize, bytes: &[u8], is_keyframe: bool) -> Vec<(Vec<u8>, bool)> {
    send_nal_units(max_fragment_size, bytes, is_keyframe, 4, 5, TimeStamp::from_raw(77))
        .iter()
        .map(|message| {
            let unit = H264::from_bytes(message).unwrap();
            assert_eq!((unit.width, unit.height, unit.timestamp), (4, 5, 77));
            (unit.bytes.to_vec(), unit.is_keyframe_start)
        })
        .collect()
}

fn parts(fragments: &[Fragment]) -> Vec<Vec<u8>> {
    fragments.iter().map(|fragment| fragment.bytes.to_vec()).collect()
}

#[test]
fn video_is_cut_between_units_until_it_fits() {
    let bytes = stream(&[&[1, 2, 3], &[4], &[5, 6]]);
    // 18 bytes
    assert_eq!(units(20 + 18, &bytes, true), [(bytes.clone(), true)]);
    assert_eq!(
        units(20 + 17, &bytes, true),
        [(bytes[..7].to_vec(), true), (bytes[7..].to_vec(), false)]
    );
    assert_eq!(
        units(20 + 6, &bytes, false),
        [
            (bytes[..7].to_vec(), false),
            (bytes[7..12].to_vec(), false),
            (bytes[12..].to_vec(), false),
        ]
    );
    assert_eq!(units(20, &bytes, false).len(), 3);
}

#[test]
fn a_unit_that_is_too_large_stays_whole() {
    let bytes = stream(&[&[9; 100]]);
    assert_eq!(units(30, &bytes, true), [(bytes.clone(), true)]);
    assert_eq!(units(30, &[], true), []);
    assert_eq!(units(20, &[1], true), [(vec![1], true)]);
}

#[test]
fn frames_are_cut_at_units_or_where_they_are_full() {
    let frame = stream(&[&[1, 2], &[3; 20]]);
    // 6 + 24 bytes
    let fragments = send_chunks(36 + 10, &frame, 8, 640, 480);
    assert_eq!(
        parts(&fragments),
        [frame[..6].to_vec(), frame[6..16].to_vec(), frame[16..26].to_vec(), frame[26..].to_vec()]
    );
    for (i, fragment) in fragments.iter().enumerate() {
        assert_eq!(fragment.frame_index, 8);
        assert_eq!(fragment.fragment_index as usize, i);
        assert_eq!(fragment.total_fragments, 4);
        assert_eq!((fragment.width, fragment.height), (640, 480));
    }
    assert_eq!(parts(&send_chunks(36 + 30, &frame, 0, 1, 1)), [frame.clone()]);
    assert_eq!(parts(&send_chunks(36 + 30, &[], 0, 1, 1)), [vec![]]);
}

#[test]
fn small_chunks_have_four_bytes() {
    let data = [1, 2, 3, 4, 5, 6, 7, 8, 9];
    assert_eq!(
        parts(&send_chunks(36 + 1, &data, 0, 1, 1)),
        [vec![1, 2, 3, 4], vec![5, 6, 7, 8], vec![9]]
    );
    let sender = FrameSender::new();
    assert!(sender.can_send(DATAGRAM_OVERHEAD + 1, 9));
    assert!(!sender.can_send(DATAGRAM_OVERHEAD + 1, 10));
    assert!(sender.can_send(DATAGRAM_OVERHEAD + 2, 10));
    assert!(sender.can_send(DATAGRAM_OVERHEAD + 4, 11));
    assert!(!sender.can_send(DATAGRAM_OVERHEAD, 0));
    assert!(!sender.can_send(0, 0));
}

#[test]
fn frames_are_numbered() {
    let mut sender = FrameSender::new();
    assert!(sender.on_frame());
    assert!(!sender.on_frame());
    assert_eq!(sender.on_encoded(1000, &[1], 2, 3)[0].frame_index, 0);
    assert_eq!(sender.on_encoded(1000, &[1], 2, 3)[0].frame_index, 1);
    assert_eq!(NUM_GREETINGS, 100);
}

#[test]
fn packets_carry_pieces_of_one_size() {
    let data: Vec<u8> = (0..25).collect();
    let pieces = split_frame(&data, 28 + 10);
    assert_eq!(pieces, [&data[..10], &data[10..20], &data[20..]]);
    assert_eq!(split_frame(&data[..20], 28 + 10).len(), 2);
    assert!(split_frame(&[], 29).is_empty());
}

#[test]
fn frames_are_converted_to_planes() {
    // white, black and a row of three pixels with room behind them
    let mut bgra = vec![0u8; 16 * 3];
    for pixel in 0..3 {
        bgra[pixel * 4..pixel * 4 + 4].copy_from_slice(&[255; 4]);
    }
    assert!(is_frame(bgra.len(), 3, 3, 16));
    // a row that is left over has to follow the pairs of rows
    assert!(!is_frame(64, 3, 3, 16));
    assert!(!is_frame(8, 1, 1, 4));
    assert!(is_frame(8, 1, 2, 4));
    assert!(is_frame(16, 1, 2, 4));
    assert_eq!(bgra_to_yuv(&[255; 4], 1, 1, 4).len(), 3);
    assert!(is_frame(44, 3, 3, 16));
    assert!(!is_frame(43, 3, 3, 16));
    assert!(!is_frame(bgra.len(), 3, 3, 11));
    assert!(!is_frame(bgra.len(), 0, 3, 16));
    assert!(!is_frame(bgra.len(), 3, 0, 16));
    let frame = bgra_to_yuv(&bgra, 3, 3, 16);
    // nine pixels, and two bytes for each of four blocks
    assert_eq!(frame.len(), 9 + 8);
    assert!(frame[..3].iter().all(|y| *y >= 253));
    assert!(frame[3..9].iter().all(|y| *y <= 2));
    assert!(frame[9..].iter().all(|c| (126..=130).contains(c)));
    assert_eq!(join_planes(vec![1, 2], vec![3]), [1, 2, 3]);
}

#[test]
fn an_encoder_is_made_for_the_first_frame() {
    let mut cast = ScreenCast::new();
    let bgra = vec![0u8; 16];
    let work = cast.on_frame(FrameFormat::Bgra8, &bgra, 2, 2, 8);
    assert!(work.create_encoder);
    assert_eq!(work.yuv_frame.len(), 6);
    assert!(!cast.on_frame(FrameFormat::Bgra8, &bgra, 2, 2, 8).create_encoder);
}

#[test]
fn frames_need_room_a_format_and_pixels() {
    assert_eq!(encoder_format(2, 1, 8, FrameFormat::Bgra8), Ok(TextureFormat::Bgra8Unorm));
    assert_eq!(encoder_format(2, 1, 9, FrameFormat::Rgba8), Ok(TextureFormat::Rgba8Unorm));
    assert_eq!(encoder_format(2, 1, 7, FrameFormat::Bgra8), Err(FrameError::Stride));
    assert_eq!(encoder_format(u32::MAX, 1, u32::MAX, FrameFormat::Other), Err(FrameError::Stride));
    assert_eq!(encoder_format(2, 1, 8, FrameFormat::Other), Err(FrameError::Format));
    assert_eq!(encoder_format(0, 1, 8, FrameFormat::Bgra8), Err(FrameError::Empty));
    assert_eq!(encoder_format(2, 0, 8, FrameFormat::Bgra8), Err(FrameError::Empty));
}

#[test]
fn decoders_produce_one_frame_or_none() {
    assert_eq!(decoded_frame::<u8, &str, ()>(Ok(vec![7])), Ok(7));
    assert_eq!(decoded_frame::<u8, &str, ()>(Ok(vec![])), Err(DecoderError::NoNewFrame));
    assert_eq!(decoded_frame::<u8, &str, ()>(Err("bad")), Err(DecoderError::H264("bad")));
    assert_eq!(frame_event::<(), ()>(&Ok(())), FrameEvent::Rendered);
    assert_eq!(frame_event::<(), ()>(&Err(DecoderError::NoNewFrame)), FrameEvent::NotEnoughData);
    assert_eq!(frame_event::<(), ()>(&Err(DecoderError::H264(()))), FrameEvent::Failed);
    assert_eq!(frame_event::<(), ()>(&Err(DecoderError::ConverterInit(()))), FrameEvent::Failed);
}

#[test]
fn a_decoder_is_made_for_the_first_video() {
    let mut renderer = Renderer::new();
    let video = Incoming::H264 { width: 3, height: 4 };
    assert_eq!(renderer.on_packet(Incoming::IAmCaster), RenderStep::Skip);
    assert_eq!(
        renderer.on_packet(video),
        RenderStep::CreateAndDecode { width: 3, height: 4 }
    );
    assert_eq!(renderer.on_packet(Incoming::IAmCaster), RenderStep::Skip);
    assert_eq!(renderer.on_packet(video), RenderStep::Decode);
}
