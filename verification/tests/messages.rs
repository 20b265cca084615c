use remin::common::{H264, Opus, HOST_PORT};
use remin::tcp::{packet_size, poll_step, size_bytes, Attempt, PollStep};

#[test]
fn a_video_unit_is_laid_out_field_by_field() {
    let unit = H264 {
        width: 0x0102,
        height: 3,
        bytes: &[7, 8],
        is_keyframe_start: true,
        timestamp: -1,
    };
    let mut expected = vec![2, 1, 0, 0, 3, 0, 0, 0, 2, 0, 0, 0, 0, 0, 0, 0, 7, 8, 1];
    expected.extend([0xff; 8]);
    assert_eq!(unit.to_bytes(), expected);
}

#[test]
fn a_video_unit_survives_the_network() {
    let payload: Vec<u8> = (0..1000).map(|i| i as u8).collect();
    let mut message = H264 {
        width: 1920,
        height: 1080,
        bytes: &payload,
        is_keyframe_start: false,
        timestamp: 1_700_000_000_000_000,
    }
    .to_bytes();
    message.push(99);
    let unit = H264::from_bytes(&message).unwrap();
    assert_eq!((unit.width, unit.height), (1920, 1080));
    assert_eq!(unit.bytes, &payload[..]);
    assert!(!unit.is_keyframe_start);
    assert_eq!(unit.timestamp, 1_700_000_000_000_000);
}

#[test]
fn a_broken_video_unit_is_refused() {
    let mut message =
        H264 { width: 1, height: 1, bytes: &[5], is_keyframe_start: false, timestamp: 0 }.to_bytes();
    assert!(H264::from_bytes(&message[..25]).is_err());
    assert!(H264::from_bytes(&message[..3]).is_err());
    message[17] = 2;
    assert!(H264::from_bytes(&message).is_err());
    message[17] = 0;
    message[8] = 200;
    assert!(H264::from_bytes(&message).is_err());
}

#[test]
fn an_audio_chunk_is_laid_out_field_by_field() {
    let chunk =
        Opus { chunk_id: 5, sample_rate: 48_000, is_stereo: true, bytes: &[9], timestamp: 2 };
    let mut expected = vec![5, 0, 0, 0, 0, 0, 0, 0, 0x80, 0xbb, 0, 0, 1];
    expected.extend([1, 0, 0, 0, 0, 0, 0, 0, 9, 2, 0, 0, 0, 0, 0, 0, 0]);
    assert_eq!(chunk.to_bytes(), expected);
}

#[test]
fn an_audio_chunk_survives_the_network() {
    let message =
        Opus { chunk_id: u64::MAX, sample_rate: 7, is_stereo: false, bytes: &[], timestamp: i64::MIN }
            .to_bytes();
    let chunk = Opus::from_bytes(&message).unwrap();
    assert_eq!(chunk.chunk_id, u64::MAX);
    assert_eq!(chunk.sample_rate, 7);
    assert!(!chunk.is_stereo);
    assert!(chunk.bytes.is_empty());
    assert_eq!(chunk.timestamp, i64::MIN);
    assert!(Opus::from_bytes(&message[..28]).is_err());
    let mut broken = message.clone();
    broken[12] = 3;
    assert!(Opus::from_bytes(&broken).is_err());
}

#[test]
fn large_payloads_are_not_limited() {
    let payload = vec![3u8; 5 << 20];
    let unit =
        H264 { width: 1, height: 1, bytes: &payload, is_keyframe_start: true, timestamp: 0 };
    let message = unit.to_bytes();
    assert_eq!(message.len(), payload.len() + 25);
    assert_eq!(H264::from_bytes(&message).unwrap().bytes, &payload[..]);
}

#[test]
fn a_packet_is_sent_behind_its_size() {
    assert_eq!(size_bytes(0), [0, 0, 0, 0]);
    assert_eq!(size_bytes(0x0403_0201), [1, 2, 3, 4]);
    assert_eq!(size_bytes(0x1_0000_0005), [5, 0, 0, 0]);
    assert_eq!(packet_size([1, 2, 3, 4]), 0x0403_0201);
    assert_eq!(packet_size([0xff; 4]), u32::MAX);
    for len in [0, 1, 255, 256, 65_535, 65_536, u32::MAX as usize] {
        assert_eq!(packet_size(size_bytes(len)) as usize, len);
    }
}

#[test]
fn nothing_yet_is_no_error() {
    assert_eq!(Attempt::<u8, &str>::Done(1).into_result(), Ok(Some(1)));
    assert_eq!(Attempt::<u8, &str>::WouldBlock.into_result(), Ok(None));
    assert_eq!(Attempt::<u8, &str>::Failed("no").into_result(), Err("no"));
    for result in [Ok(Some(1)), Ok(None), Err("no")] {
        assert_eq!(Attempt::<u8, &str>::from_result(result).into_result(), result);
    }
}

#[test]
fn waiting_ends_when_it_is_told_to_or_when_something_came() {
    type Try = Attempt<u8, &'static str>;
    assert_eq!(poll_step(false, Try::Done(1)), PollStep::Done(1));
    assert_eq!(poll_step(false, Try::WouldBlock), PollStep::Again);
    assert_eq!(poll_step(false, Try::Failed("no")), PollStep::Failed("no"));
    for attempt in [Try::Done(1), Try::WouldBlock, Try::Failed("no")] {
        assert_eq!(poll_step(true, attempt), PollStep::Stop);
    }
}

#[test]
fn hosts_listen_on_their_port() {
    assert_eq!(HOST_PORT, 8084);
}
