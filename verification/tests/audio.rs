use remin::common::Opus;
use remin::streamer::audio::{
    encode, send_encoded_at, AudioCapture, Channels, ChunkFormat, FormatError,
};
use remin::watcher::audio::{
    decoded_len, select_config, AudioPlayback, AudioProcessor, OutputConfig, PlaybackReport,
    PlaybackStep,
};

/// The chunks that are cut when the input comes in.
fn cut(buffer: &mut Vec<i16>, input: &[i16], chunk_len: usize) -> Vec<Vec<i16>> {
    let mut chunks = Vec::new();
    encode(buffer, &mut [], input, chunk_len, |chunk: &[i16], _out| {
        chunks.push(chunk.to_vec());
        0
    });
    chunks
}

#[test]
fn samples_wait_until_a_chunk_is_full() {
    let mut buffer = vec![1, 2];
    assert!(cut(&mut buffer, &[3], 4).is_empty());
    assert_eq!(buffer, [1, 2, 3]);
    assert_eq!(cut(&mut buffer, &[4, 5, 6, 7, 8, 9], 4), [[1, 2, 3, 4], [5, 6, 7, 8]]);
    assert_eq!(buffer, [9]);
    assert!(cut(&mut buffer, &[], 4).is_empty());
    assert_eq!(cut(&mut buffer, &[1, 2, 3], 4), [[9, 1, 2, 3]]);
    assert!(buffer.is_empty());
}

#[test]
fn input_can_be_divided() {
    let samples: Vec<i16> = (0..1000).collect();
    let mut whole = Vec::new();
    let all = cut(&mut whole, &samples, 120);
    let mut divided = Vec::new();
    let mut pieces = Vec::new();
    for part in samples.chunks(37) {
        pieces.extend(cut(&mut divided, part, 120));
    }
    assert_eq!(all, pieces);
    assert_eq!(whole, divided);
    let mut joined: Vec<i16> = all.concat();
    joined.extend(whole);
    assert_eq!(joined, samples);
}

#[test]
fn every_chunk_is_encoded_in_order() {
    let mut buffer = vec![1, 2];
    let mut encode_buffer = [0; 4];
    let mut chunks = Vec::new();
    let input = [3, 4, 5, 6, 7];
    let encoded = encode(&mut buffer, &mut encode_buffer, &input, 3, |chunk: &[i16], out| {
        chunks.push(chunk.to_vec());
        out[0] = chunk[0] as u8;
        1
    });
    assert_eq!(chunks, [[1, 2, 3], [4, 5, 6]]);
    assert_eq!(encoded, [[1], [4]]);
    assert_eq!(buffer, [7]);
    assert_eq!(encode_buffer, [4, 0, 0, 0]);

    let mut buffer = vec![1];
    let mut encode_buffer = [0; 2];
    let encoded = encode(&mut buffer, &mut encode_buffer, &[2, 3, 4], 2, |chunk: &[i16], out| {
        out[0] = chunk[1] as u8;
        1
    });
    assert_eq!(encoded, [[2], [4]]);
    assert!(buffer.is_empty());
    assert_eq!(encode_buffer, [4, 0]);
}

#[test]
fn the_encoder_finds_its_buffer_as_it_left_it() {
    let mut chunks = Vec::new();
    let mut encode_buffer = [9; 3];
    let samples = [String::from("a"), String::from("b"), String::from("c")];
    let encoded = encode(&mut Vec::new(), &mut encode_buffer, &samples, 1, |chunk: &[String], out| {
        chunks.push(chunk[0].clone());
        let size = out.iter().filter(|byte| **byte == 0).count();
        out[size] = 0;
        size
    });
    assert_eq!(chunks, samples);
    assert_eq!(encoded, [vec![], vec![0], vec![0, 0]]);
    assert_eq!(encode_buffer, [0; 3]);
}

#[test]
fn divided_input_is_encoded_alike() {
    let samples: Vec<i16> = (1..60).collect();
    let sum = |chunk: &[i16], out: &mut [u8]| {
        out[1] = out[0];
        out[0] = (chunk.iter().sum::<i16>() % 200) as u8 ^ out[1];
        1 + chunk[0] as usize % 2
    };
    let (mut whole, mut out_whole) = (Vec::new(), [7; 2]);
    let all = encode(&mut whole, &mut out_whole, &samples, 7, sum);
    for at in [0, 1, 6, 7, 8, 20, 59] {
        let (mut divided, mut out) = (Vec::new(), [7; 2]);
        let mut pieces = encode(&mut divided, &mut out, &samples[..at], 7, sum);
        pieces.extend(encode(&mut divided, &mut out, &samples[at..], 7, sum));
        assert_eq!((&pieces, &divided, out), (&all, &whole, out_whole));
    }
}

#[test]
fn only_some_audio_can_be_captured() {
    assert_eq!(
        ChunkFormat::new(1, 48_000),
        Ok(ChunkFormat { channels: Channels::Mono, chunk_len: 120 })
    );
    assert_eq!(
        ChunkFormat::new(2, 48_000),
        Ok(ChunkFormat { channels: Channels::Stereo, chunk_len: 240 })
    );
    assert_eq!(ChunkFormat::new(6, 48_000), Err(FormatError::NumChannels(6)));
    assert_eq!(ChunkFormat::new(0, 48_000), Err(FormatError::NumChannels(0)));
    assert_eq!(ChunkFormat::new(6, 44_100), Err(FormatError::SampleRate(44_100)));
}

#[test]
fn chunks_are_numbered() {
    let mut chunk_id = 41;
    let message = send_encoded_at(&mut chunk_id, &[1, 2], 48_000, 2, 7);
    assert_eq!(chunk_id, 42);
    let chunk = Opus::from_bytes(&message).unwrap();
    assert_eq!(chunk.chunk_id, 41);
    assert_eq!(chunk.sample_rate, 48_000);
    assert!(chunk.is_stereo);
    assert_eq!(chunk.bytes, &[1, 2]);
    assert_eq!(chunk.timestamp, 7);
    let message = send_encoded_at(&mut chunk_id, &[], 48_000, 1, 7);
    assert!(!Opus::from_bytes(&message).unwrap().is_stereo);
}

#[test]
fn captured_audio_is_cut_and_numbered() {
    let mut capture = AudioCapture::new();
    assert!(capture.needs_encoder());
    assert!(!capture.needs_encoder());
    let format = ChunkFormat::new(1, 48_000).unwrap();
    let mut buffer = Vec::new();
    let mut messages = Vec::new();
    for input in [vec![0.5f32; 130], vec![0.25; 110], vec![0.125; 125]] {
        assert!(capture.can_capture(buffer.len(), input.len(), &format, 4));
        messages.extend(capture.on_samples(
            &mut buffer,
            &mut [0; 4],
            &input,
            &format,
            48_000,
            |chunk: &[f32], out| {
                out[0] = (chunk[10] * 8.0) as u8;
                1
            },
        ));
    }
    assert_eq!(buffer, [0.125; 5]);
    let chunks: Vec<_> =
        messages.iter().map(|message| Opus::from_bytes(message).unwrap()).collect();
    let sent: Vec<_> = chunks.iter().map(|chunk| (chunk.chunk_id, chunk.bytes)).collect();
    assert_eq!(sent, [(0, &[4][..]), (1, &[2]), (2, &[1])]);
    // the year 2020
    assert!(chunks[0].timestamp > 1_577_836_800_000_000);
    assert!(chunks.iter().all(|chunk| !chunk.is_stereo && chunk.sample_rate == 48_000));

    let stereo = ChunkFormat::new(2, 48_000).unwrap();
    let mut ints = vec![3i16; 239];
    let messages =
        capture.on_samples(&mut ints, &mut [1; 2], &[4; 242], &stereo, 48_000, |chunk, out| {
            out[1] = chunk[239] as u8;
            2
        });
    assert_eq!(ints, [4]);
    let first = Opus::from_bytes(&messages[0]).unwrap();
    let second = Opus::from_bytes(&messages[1]).unwrap();
    assert_eq!((first.chunk_id, second.chunk_id, messages.len()), (3, 4, 2));
    assert_eq!((first.bytes, first.is_stereo), (&[1, 4][..], true));
}

#[test]
fn samples_that_wait_leave_room_in_a_chunk() {
    let capture = AudioCapture::new();
    let format = ChunkFormat::new(1, 48_000).unwrap();
    assert!(capture.can_capture(119, 0, &format, 4000));
    assert!(!capture.can_capture(120, 0, &format, 4000));
    assert!(capture.can_capture(119, usize::MAX, &format, isize::MAX as usize - 29));
    assert!(!capture.can_capture(0, 0, &format, isize::MAX as usize - 28));
}

#[test]
fn the_first_configuration_that_fits_is_used() {
    let config = |channels, min_sample_rate, max_sample_rate, is_i16| OutputConfig {
        channels,
        min_sample_rate,
        max_sample_rate,
        is_i16,
    };
    let configs = [
        config(1, 8_000, 96_000, true),
        config(2, 8_000, 44_100, true),
        config(2, 8_000, 96_000, false),
        config(2, 48_000, 48_000, true),
        config(2, 8_000, 96_000, true),
    ];
    assert_eq!(select_config(&configs, 2, 48_000), Some(3));
    assert_eq!(select_config(&configs, 2, 44_100), Some(1));
    assert_eq!(select_config(&configs, 1, 96_000), Some(0));
    assert_eq!(select_config(&configs, 1, 96_001), None);
    assert_eq!(select_config(&configs, 65_538, 48_000), None);
}

#[test]
fn playback_errors_are_handled() {
    type Report = PlaybackReport<&'static str>;
    let (mut playback, _reader) = AudioPlayback::new(2, 48_000);
    assert_eq!(playback.get_error(Report::Nothing), PlaybackStep::Continue);
    assert_eq!(playback.get_error(Report::Failed("x")), PlaybackStep::Failed("x"));
    assert_eq!(playback.get_error(Report::Disconnected), PlaybackStep::Panicked);
    assert!(playback.has_stream());
    assert_eq!(playback.get_error(Report::StreamInvalidated), PlaybackStep::Recreate);
    assert!(!playback.has_stream());
}

#[test]
fn an_invalidated_stream_stays_quiet() {
    type Report = PlaybackReport<&'static str>;
    let (mut playback, mut reader) = AudioPlayback::new(2, 48_000);
    assert_eq!(playback.get_error(Report::StreamInvalidated), PlaybackStep::Recreate);
    for report in
        [Report::Failed("x"), Report::StreamInvalidated, Report::Disconnected, Report::Nothing]
    {
        assert_eq!(playback.get_error(report), PlaybackStep::Continue);
        assert!(!playback.has_stream());
        assert_eq!((playback.channels(), playback.sample_rate()), (2, 48_000));
    }
    assert_eq!(playback.write_chunk(&[1, 2]), 2);
    assert!(!playback.has_stream());
    assert_eq!((reader.pop(), reader.pop()), (Ok(1), Ok(2)));
}

#[test]
fn samples_are_played_in_order_as_far_as_there_is_room() {
    let (mut playback, mut reader) = AudioPlayback::new(2, 48_000);
    assert_eq!((playback.channels(), playback.sample_rate()), (2, 48_000));
    let samples: Vec<i16> = (0..15_000).collect();
    assert_eq!(playback.write_chunk(&samples), 15_000);
    assert_eq!(playback.write_chunk(&samples), 5_000);
    assert_eq!(playback.write_chunk(&samples), 0);
    let mut output = vec![0i16; 16_000];
    let (filled, rest) = reader.pop_partial_slice(&mut output);
    assert_eq!((filled.len(), rest.len()), (16_000, 0));
    assert_eq!(&output[..15_000], &samples[..]);
    assert_eq!(&output[15_000..], &samples[..1_000]);
    assert_eq!(playback.write_chunk(&samples), 15_000);
}

#[test]
fn lost_chunks_are_noticed() {
    let chunk = |chunk_id| Opus {
        chunk_id,
        sample_rate: 48_000,
        is_stereo: true,
        bytes: &[1, 2],
        timestamp: 0,
    };
    let mut processor = AudioProcessor::new();
    let plan = processor.on_chunk(chunk(0));
    assert_eq!(plan.lost, None);
    assert!(plan.create);
    assert_eq!((plan.channels, plan.num_channels), (Channels::Stereo, 2));
    assert_eq!(plan.sample_rate, 48_000);
    assert_eq!(plan.bytes, &[1, 2]);
    let plan = processor.on_chunk(chunk(1));
    assert_eq!(plan.lost, None);
    assert!(!plan.create);
    assert_eq!(processor.on_chunk(chunk(3)).lost, Some((2, 2)));
    assert_eq!(processor.on_chunk(chunk(9)).lost, Some((4, 8)));
    assert_eq!(processor.on_chunk(chunk(5)).lost, None);
    assert!(processor.can_process());
    processor.on_chunk(chunk(u64::MAX));
    assert!(!processor.can_process());
}

#[test]
fn messages_are_read_as_chunks() {
    let message =
        Opus { chunk_id: 7, sample_rate: 24_000, is_stereo: false, bytes: &[5], timestamp: 0 }
            .to_bytes();
    let mut processor = AudioProcessor::new();
    assert!(processor.on_message(&message[1..]).is_err());
    let plan = processor.on_message(&message).ok().unwrap();
    assert_eq!(plan.lost, Some((1, 6)));
    assert!(plan.create);
    assert_eq!((plan.channels, plan.num_channels), (Channels::Mono, 1));
    assert_eq!(plan.sample_rate, 24_000);
    assert_eq!(plan.bytes, &[5]);
    assert_eq!(decoded_len(120, 2), 240);
}
