use wisp::audio::{fft_window, schema_has_audio, WispAudio, RING_CAPACITY};
use wisp::schema::{TextureRole, TextureSchema, WispSchema};

fn bits(samples: &[f32]) -> Vec<u32> {
    samples.iter().map(|s| s.to_bits()).collect()
}

fn floats(words: &[u32]) -> Vec<f32> {
    words.iter().map(|w| f32::from_bits(*w)).collect()
}

#[test]
fn waveform_keeps_most_recent_samples() {
    let mut audio = WispAudio::default();
    audio.push_frames(&bits(&[0.1, 0.2, 0.3, 0.4]), 1);
    let row = floats(&audio.waveform(2));
    assert_eq!(row, vec![0.3, 0.4]);
    // Shorter history zero-pads at the front.
    let row = floats(&audio.waveform(6));
    assert_eq!(row, vec![0.0, 0.0, 0.1, 0.2, 0.3, 0.4]);
}

#[test]
fn interleaved_channels_are_split() {
    let mut audio = WispAudio::default();
    audio.push_frames(&bits(&[0.1, -0.1, 0.2, -0.2]), 2);
    assert_eq!(audio.channels(), 2);
    let rows = floats(&audio.waveform(2));
    assert_eq!(rows, vec![0.1, 0.2, -0.1, -0.2]);
}

#[test]
fn empty_history_is_one_silent_channel() {
    let audio = WispAudio::new();
    assert_eq!(audio.channels(), 1);
    assert_eq!(audio.waveform(3), vec![0, 0, 0]);
    assert_eq!(audio.waveform(0), Vec::<u32>::new());
}

#[test]
fn zero_channels_count_as_one() {
    let mut audio = WispAudio::new();
    audio.push_frames(&[1, 2, 3], 0);
    assert_eq!(audio.channels(), 1);
    assert_eq!(audio.waveform(4), vec![0, 1, 2, 3]);
}

#[test]
fn a_partial_last_frame_feeds_the_first_channels() {
    let mut audio = WispAudio::new();
    audio.push_frames(&[1, 2, 3, 4, 5], 3);
    assert_eq!(audio.channels(), 3);
    assert_eq!(audio.waveform(2), vec![1, 4, 2, 5, 0, 3]);
}

#[test]
fn a_new_channel_count_starts_over() {
    let mut audio = WispAudio::new();
    audio.push_frames(&[1, 2, 3, 4], 2);
    audio.push_frames(&[9, 8], 1);
    assert_eq!(audio.channels(), 1);
    assert_eq!(audio.waveform(3), vec![0, 9, 8]);
}

#[test]
fn history_is_capped() {
    let mut audio = WispAudio::new();
    let samples: Vec<u32> = (0..(RING_CAPACITY as u32 + 10)).collect();
    audio.push_frames(&samples, 1);
    audio.push_frames(&[7], 1);
    let row = audio.waveform(RING_CAPACITY + 2);
    assert_eq!(row.len(), RING_CAPACITY + 2);
    assert_eq!(&row[..2], &[0, 0]);
    assert_eq!(row[2], 11);
    assert_eq!(row[RING_CAPACITY + 1], 7);
}

#[test]
fn fft_window_doubles_the_bins_within_limits() {
    assert_eq!(fft_window(0), 2);
    assert_eq!(fft_window(1), 2);
    assert_eq!(fft_window(64), 128);
    assert_eq!(fft_window(RING_CAPACITY / 2), RING_CAPACITY);
    assert_eq!(fft_window(RING_CAPACITY), RING_CAPACITY);
}

#[test]
fn audio_textures_are_detected() {
    let texture = |role| TextureSchema { name: "t".to_string(), group: 1, binding: 1, role };
    let mut schema = WispSchema {
        description: String::new(),
        globals: None,
        params: None,
        textures: vec![texture(TextureRole::ImageInput)],
        samplers: Vec::new(),
        passes: Vec::new(),
        bindings: Vec::new(),
    };
    assert!(!schema_has_audio(&schema));
    schema.textures.push(texture(TextureRole::AudioFft { bins: 64 }));
    assert!(schema_has_audio(&schema));
    schema.textures[1].role = TextureRole::AudioWaveform { samples: 128 };
    assert!(schema_has_audio(&schema));
}
