use cutblanc::mp3::{take_answer, FrameError, Progress};
use cutblanc::pcm::PcmBuffer;

fn frame(samples: Vec<i16>, sample_rate: i32, channels: usize) -> PcmBuffer {
    PcmBuffer { samples, sample_rate, channels }
}

#[test]
fn a_frame_is_taken_in_and_the_loop_goes_on() {
    let mut audio = PcmBuffer::new();
    assert_eq!(take_answer(&mut audio, Ok(frame(vec![1, -1], 32000, 2))), Progress::Continue);
    assert_eq!(take_answer(&mut audio, Ok(frame(vec![2, -2, 3], 16000, 1))), Progress::Continue);
    assert_eq!(audio.samples, vec![1, -1, 2, -2, 3]);
    assert_eq!(audio.sample_rate, 32000);
    assert_eq!(audio.channels, 2);
}

#[test]
fn the_end_of_the_input_finishes_the_stream_as_it_stands() {
    let mut audio = PcmBuffer::new();
    assert_eq!(take_answer(&mut audio, Err(FrameError::Eof)), Progress::Finished);
    assert!(audio.samples.is_empty());

    let mut audio = frame(vec![5, 6], 48000, 1);
    assert_eq!(take_answer(&mut audio, Err(FrameError::Eof)), Progress::Finished);
    assert_eq!(audio.samples, vec![5, 6]);
    assert_eq!((audio.sample_rate, audio.channels), (48000, 1));
}

#[test]
fn any_other_error_fails_the_stream() {
    for error in [FrameError::Io, FrameError::InsufficientData, FrameError::SkippedData] {
        let mut audio = frame(vec![5, 6], 48000, 1);
        assert_eq!(take_answer(&mut audio, Err(error)), Progress::Failed(error));
        assert_eq!(audio.samples, vec![5, 6]);
    }
}
