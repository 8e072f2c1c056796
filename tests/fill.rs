use nxm_music::{input_frames_for, output_frames, write_silence, FillState, ProcessError};

#[test]
fn matched_rate_exact_fill_then_end_of_file() {
    // Two channels, 1024 frames; the source has exactly 1024 frames left.
    let mut output = vec![f32::NAN; 2048];
    let left: Vec<f32> = (0..1024).map(|i| i as f32).collect();
    let right: Vec<f32> = (0..1024).map(|i| -(i as f32) - 1.0).collect();
    let mut fill = FillState::new(output.len(), 2);
    assert_eq!(fill.remaining(), 1024);
    let chans: Vec<&[f32]> = vec![&left, &right];
    let taken = fill.push_batch(&mut output, &chans, 1024);
    assert_eq!(taken, 1024);
    assert_eq!(fill.remaining(), 0);
    let r = fill.close(&mut output, 0.0, true);
    assert_eq!(r, Err(ProcessError::Eof));
    for i in 0..1024 {
        assert_eq!(output[2 * i], left[i]);
        assert_eq!(output[2 * i + 1], right[i]);
    }
}

#[test]
fn batches_are_interleaved_in_order() {
    let mut output = vec![0i32; 12];
    let mut fill = FillState::new(12, 3);
    let a: Vec<&[i32]> = vec![&[1, 4], &[2, 5], &[3, 6]];
    assert_eq!(fill.push_batch(&mut output, &a, 2), 2);
    let b: Vec<&[i32]> = vec![&[7, 10], &[8, 11], &[9, 12]];
    assert_eq!(fill.push_batch(&mut output, &b, 2), 2);
    assert_eq!(fill.close(&mut output, 0, false), Ok(()));
    assert_eq!(output, (1..=12).collect::<Vec<i32>>());
}

#[test]
fn end_of_file_mid_fill_zeroes_the_tail() {
    let mut output = vec![9i32; 8];
    let mut fill = FillState::new(8, 2);
    let a: Vec<&[i32]> = vec![&[1], &[2]];
    fill.push_batch(&mut output, &a, 1);
    assert_eq!(fill.close(&mut output, 0, true), Err(ProcessError::Eof));
    assert_eq!(output, vec![1, 2, 0, 0, 0, 0, 0, 0]);
}

#[test]
fn read_error_before_any_audio_gives_silence() {
    let mut output = vec![5i32; 6];
    let fill = FillState::new(6, 3);
    assert_eq!(fill.close(&mut output, 0, true), Err(ProcessError::Eof));
    assert_eq!(output, vec![0; 6]);
}

#[test]
fn no_sample_left_unwritten() {
    // A partial frame at the end of the buffer is silenced as well.
    let mut output = vec![7i32; 7];
    let mut fill = FillState::new(7, 2);
    assert_eq!(fill.frames(), 3);
    let a: Vec<&[i32]> = vec![&[1, 3, 5], &[2, 4, 6]];
    assert_eq!(fill.push_batch(&mut output, &a, 3), 3);
    assert_eq!(fill.close(&mut output, 0, false), Ok(()));
    assert_eq!(output, vec![1, 2, 3, 4, 5, 6, 0]);
}

#[test]
fn frames_beyond_the_buffer_are_dropped() {
    let mut output = vec![0i32; 4];
    let mut fill = FillState::new(4, 1);
    let a: Vec<&[i32]> = vec![&[1, 2, 3, 4, 5, 6]];
    assert_eq!(fill.push_batch(&mut output, &a, 6), 4);
    assert_eq!(fill.written_frames(), 4);
    assert_eq!(output, vec![1, 2, 3, 4]);
}

#[test]
fn mono_and_many_channels() {
    let mut output = vec![0i32; 16];
    let mut fill = FillState::new(16, 8);
    let chans: Vec<Vec<i32>> = (0..8).map(|c| vec![c, 10 + c]).collect();
    let refs: Vec<&[i32]> = chans.iter().map(|c| c.as_slice()).collect();
    fill.push_batch(&mut output, &refs, 2);
    for i in 0..2 {
        for c in 0..8 {
            assert_eq!(output[i * 8 + c], chans[c][i]);
        }
    }
}

#[test]
fn resampled_input_frames_round_up() {
    // 48000 Hz device, 44100 Hz source, 1024 output frames: ceil(1024 * 44100 / 48000).
    assert_eq!(input_frames_for(1024, 44100, 48000), 941);
    assert_eq!(input_frames_for(480, 44100, 48000), 441);
    assert_eq!(input_frames_for(1024, 48000, 48000), 1024);
    assert_eq!(input_frames_for(0, 44100, 48000), 0);
    assert_eq!(input_frames_for(1, 96000, 48000), 2);
}

#[test]
fn resampler_packets_fill_exactly_the_frame_count() {
    // Packets from a resampler arrive in bounded pieces; the last one is cut
    // so that exactly the requested frames come out.
    let frames = 1024;
    let mut output = vec![f32::NAN; frames * 2];
    let mut fill = FillState::new(output.len(), 2);
    let packet: Vec<f32> = vec![0.5; 300];
    let mut produced = 0;
    for n in [300, 300, 300, 124] {
        let chans: Vec<&[f32]> = vec![&packet[..n], &packet[..n]];
        produced += fill.push_batch(&mut output, &chans, n);
    }
    assert_eq!(produced, frames);
    assert_eq!(fill.remaining(), 0);
    assert_eq!(fill.close(&mut output, 0.0, false), Ok(()));
    assert!(output.iter().all(|&s| s == 0.5));
}

#[test]
fn output_frames_counts_whole_frames() {
    assert_eq!(output_frames(2048, 2), 1024);
    assert_eq!(output_frames(7, 2), 3);
    assert_eq!(output_frames(0, 1), 0);
}

#[test]
fn write_silence_from_offset() {
    let mut v = vec![1, 2, 3, 4, 5];
    write_silence(&mut v, 2, 0);
    assert_eq!(v, vec![1, 2, 0, 0, 0]);
    write_silence(&mut v, 5, 9);
    assert_eq!(v, vec![1, 2, 0, 0, 0]);
}
