use cutblanc::convert::{can_render, convert_mp3_to_wav, render, render_loop, ConvertError};
use cutblanc::mp3::decode_mp3;
use cutblanc::pcm::PcmBuffer;
use cutblanc::settings::Settings;
use cutblanc::wav::{AudioSpec, SampleFormat};

fn settings(fade_millis: u32, loop_millis: u32) -> Settings {
    Settings { fade_millis, loop_millis, ..Settings::default() }
}

fn audio(samples: Vec<i16>, sample_rate: i32, channels: usize) -> PcmBuffer {
    PcmBuffer { samples, sample_rate, channels }
}

/// A stream of `frames` MPEG-1 layer III frames, 128 kbit/s at 44.1 kHz in
/// stereo, each of which holds nothing but its header.
fn silent_mp3(frames: usize) -> Vec<u8> {
    let mut bytes = Vec::new();
    for _ in 0..frames {
        bytes.extend([0xffu8, 0xfb, 0x90, 0x00]);
        bytes.extend(std::iter::repeat(0u8).take(413));
    }
    bytes
}

#[test]
fn rendering_fades_then_loops() {
    let source = audio(vec![1000; 6], 2, 1);
    let config = settings(1000, 5000);
    assert!(can_render(&source, &config));
    let image = render_loop(source, &config);
    assert_eq!(image.samples, vec![0, 500, 1000, 1000, 1000, 500, 0, 500, 1000, 1000]);
    assert_eq!(
        image.spec,
        AudioSpec { channels: 1, sample_rate: 2, bits_per_sample: 16, sample_format: SampleFormat::Int }
    );
}

#[test]
fn rendering_cuts_input_longer_than_the_loop() {
    let source = audio(vec![400, -400, 400, -400, 400, -400, 400, -400], 2, 2);
    let config = settings(500, 1500);
    assert!(can_render(&source, &config));
    let image = render_loop(source, &config);
    assert_eq!(image.samples, vec![0, 0, 400, -400, 400, -400]);
    assert_eq!(image.spec.channels, 2);
    assert_eq!(image.spec.sample_rate, 2);
}

#[test]
fn default_rendering_lasts_ten_seconds() {
    let source = audio(vec![3000; 2 * 24077], 8000, 2);
    let config = Settings::default();
    assert!(can_render(&source, &config));
    let image = render_loop(source, &config);
    assert_eq!(image.samples.len(), 160000);
    assert_eq!(image.samples[0], 0);
    assert_eq!(image.samples[1], 0);
    assert_eq!(image.samples[2 * 7999], 3000); // 2999.6
    assert_eq!(image.samples[2 * 4000 + 1], 1500);
    assert_eq!(image.samples[2 * 12000], 3000);
    assert_eq!(image.samples[2 * 20077], 1500);
    assert_eq!(image.samples[2 * 24076], 0); // 3000 / 8000 rounds to 0
    assert_eq!(image.samples[2 * 24077], 0); // the second cycle starts
    assert_eq!(image.samples[2 * 24077 + 2 * 4000], 1500);
}

#[test]
fn rendering_less_than_two_fades_lets_the_ramps_overlap() {
    let source = audio(vec![3000; 2 * 8077], 8000, 2);
    let config = Settings::default();
    assert!(can_render(&source, &config));
    let image = render_loop(source, &config);
    assert_eq!(image.samples.len(), 160000);
    assert_eq!(image.samples[2 * 7999], 29); // 3000 * 7999 / 8000, then * 78 / 8000
    assert_eq!(image.samples[2 * 4038], 764); // 3000 * 4038 / 8000 = 1514, then * 4039 / 8000
}

#[test]
fn audio_shorter_than_one_fade_cannot_be_rendered() {
    let config = settings(1000, 5000);
    assert!(can_render(&audio(vec![1; 8], 4, 2), &config));
    assert!(!can_render(&audio(vec![1; 7], 4, 2), &config));
    assert!(!can_render(&audio(vec![1; 3], 4, 1), &config));
    assert!(!can_render(&audio(Vec::new(), 44100, 2), &Settings::default()));
}

#[test]
fn audio_without_a_format_cannot_be_rendered() {
    let config = settings(0, 5000);
    assert!(!can_render(&PcmBuffer::new(), &config));
    assert!(!can_render(&audio(vec![1, 2], 44100, 0), &config));
    assert!(!can_render(&audio(vec![1, 2], 0, 1), &config));
    assert!(!can_render(&audio(vec![1, 2], -44100, 1), &config));
    assert!(!can_render(&audio(vec![1, 2], 44100, 65536), &config));
    assert!(can_render(&audio(vec![1, 2], 44100, 1), &config));
}

#[test]
fn nothing_to_repeat_cannot_be_rendered_unless_nothing_is_asked() {
    assert!(!can_render(&audio(Vec::new(), 44100, 1), &settings(0, 5000)));
    assert!(can_render(&audio(Vec::new(), 44100, 1), &settings(0, 0)));
    let image = render_loop(audio(Vec::new(), 44100, 1), &settings(0, 0));
    assert!(image.samples.is_empty());
}

#[test]
fn render_refuses_what_cannot_be_rendered_and_renders_the_rest() {
    let config = settings(1000, 5000);
    match render(audio(vec![1000; 6], 2, 1), &config) {
        Ok(image) => {
            assert_eq!(image.samples, vec![0, 500, 1000, 1000, 1000, 500, 0, 500, 1000, 1000])
        }
        Err(_) => panic!("renderable audio was refused"),
    }
    assert!(matches!(render(audio(vec![1000], 2, 1), &config), Err(ConvertError::Unrenderable)));
    assert!(matches!(render(PcmBuffer::new(), &config), Err(ConvertError::Unrenderable)));
}

#[test]
fn empty_input_decodes_to_an_empty_stream() {
    let decoded = decode_mp3(&[]).unwrap();
    assert!(decoded.samples.is_empty());
    assert_eq!(decoded.sample_rate, 0);
    assert_eq!(decoded.channels, 0);
}

#[test]
fn input_without_frames_decodes_to_an_empty_stream() {
    let noise: Vec<u8> = (0..5000u32).map(|i| (i % 7) as u8).collect();
    let decoded = decode_mp3(&noise).unwrap();
    assert!(decoded.samples.is_empty());
    assert_eq!(decoded.sample_rate, 0);
}

#[test]
fn frames_decode_in_order_at_the_format_of_the_first() {
    let decoded = decode_mp3(&silent_mp3(3)).unwrap();
    assert_eq!(decoded.sample_rate, 44100);
    assert_eq!(decoded.channels, 2);
    assert_eq!(decoded.samples.len(), 3 * 1152 * 2);
    assert!(decoded.samples.iter().all(|s| *s == 0));
}

fn odd_inputs() -> Vec<Vec<u8>> {
    let mut inputs: Vec<Vec<u8>> = vec![Vec::new(), vec![0xff], vec![0xff, 0xfb, 0x90, 0x00]];
    inputs.push((0..3000u32).map(|i| (i * 31 % 251) as u8).collect());
    inputs.push(vec![0xff; 20000]);
    inputs.push(silent_mp3(1));
    inputs.push(silent_mp3(5));
    let mut damaged = silent_mp3(6);
    damaged.truncate(6 * 417 - 100);
    inputs.push(damaged);
    let mut prefixed: Vec<u8> = b"ID3 and other things that are no frame".to_vec();
    prefixed.extend(silent_mp3(4));
    inputs.push(prefixed);
    inputs
}

#[test]
fn decoding_never_fails_and_gives_no_audio_or_audio_with_a_format() {
    for bytes in odd_inputs() {
        let audio = decode_mp3(&bytes).unwrap();
        if audio.samples.is_empty() {
            assert_eq!((audio.sample_rate, audio.channels), (0, 0));
        } else {
            assert!(audio.sample_rate > 0);
            assert!(audio.channels >= 1);
            assert_eq!(audio.samples.len() % audio.channels, 0);
            assert!(audio.samples.len() / 384 <= bytes.len());
        }
    }
}

#[test]
fn decoding_the_same_bytes_twice_gives_the_same_format_and_length() {
    for bytes in odd_inputs() {
        let first = decode_mp3(&bytes).unwrap();
        let second = decode_mp3(&bytes).unwrap();
        assert_eq!(first.sample_rate, second.sample_rate);
        assert_eq!(first.channels, second.channels);
        assert_eq!(first.samples.len(), second.samples.len());
    }
}

#[test]
fn conversion_succeeds_exactly_where_the_decoded_audio_can_be_rendered() {
    let config = settings(10, 100);
    for bytes in odd_inputs() {
        let audio = decode_mp3(&bytes).unwrap();
        let expected = can_render(&audio, &config);
        match convert_mp3_to_wav(&bytes, &config) {
            Ok(image) => {
                assert!(expected);
                assert_eq!(image.spec.sample_rate as i32, audio.sample_rate);
                assert_eq!(image.spec.channels as usize, audio.channels);
                assert_eq!(image.samples.len(), render_loop(audio, &config).samples.len());
            }
            Err(error) => {
                assert!(!expected);
                assert_eq!(error, ConvertError::Unrenderable);
            }
        }
    }
}

#[test]
fn long_input_decodes_whole() {
    let decoded = decode_mp3(&silent_mp3(200)).unwrap();
    assert_eq!(decoded.sample_rate, 44100);
    assert_eq!(decoded.channels, 2);
    assert_eq!(decoded.samples.len(), 200 * 1152 * 2);
}

#[test]
fn conversion_gives_ten_seconds_at_the_format_of_the_input() {
    // 39 frames of 1152 samples are just over one second at 44.1 kHz.
    let image = match convert_mp3_to_wav(&silent_mp3(39), &Settings::default()) {
        Ok(image) => image,
        Err(_) => panic!("conversion failed"),
    };
    assert_eq!(image.samples.len(), 882000);
    assert_eq!(
        image.spec,
        AudioSpec { channels: 2, sample_rate: 44100, bits_per_sample: 16, sample_format: SampleFormat::Int }
    );
    assert!(image.samples.iter().all(|s| *s == 0));
}

#[test]
fn conversion_refuses_less_than_one_fade() {
    // 38 frames fall short of one second.
    assert!(matches!(
        convert_mp3_to_wav(&silent_mp3(38), &Settings::default()),
        Err(ConvertError::Unrenderable)
    ));
    assert!(matches!(convert_mp3_to_wav(&[], &Settings::default()), Err(ConvertError::Unrenderable)));
}

#[test]
fn conversion_follows_the_settings() {
    let image = match convert_mp3_to_wav(&silent_mp3(2), &settings(10, 100)) {
        Ok(image) => image,
        Err(_) => panic!("conversion failed"),
    };
    assert_eq!(image.samples.len(), 8820);
}
