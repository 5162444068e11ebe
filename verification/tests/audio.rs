use bnu_core::audio::{
    build_wav, bytes_to_i16, duration_ms, i16_to_bytes, normalize_fits_exec, normalize_to_16k_mono, parse_wav,
    resample_linear, sample_count, speech_pcm, split_by_duration, split_speech, to_mono,
    AudioError, SAMPLE_RATE,
};

fn tone(ms: usize, amp: i16) -> Vec<i16> {
    let n = (SAMPLE_RATE as usize * ms) / 1000;
    (0..n)
        .map(|i| {
            let t = i as f32 / SAMPLE_RATE as f32;
            (amp as f32 * (2.0 * std::f32::consts::PI * 440.0 * t).sin()) as i16
        })
        .collect()
}

fn silence(ms: usize) -> Vec<i16> {
    vec![0i16; (SAMPLE_RATE as usize * ms) / 1000]
}

fn wav_of(samples: &[i16]) -> Vec<u8> {
    build_wav(&i16_to_bytes(samples), SAMPLE_RATE, 1, 16)
}

/// Per-frame quiet flags: RMS of each 100 ms frame against an adaptive noise floor.
fn silence_flags(pcm: &[u8]) -> Vec<bool> {
    let samples = bytes_to_i16(pcm);
    let frame_len = 1600usize;
    let mut noise_floor: f32 = 150.0;
    let mut flags = Vec::new();
    let mut pos = 0usize;
    while pos + frame_len <= samples.len() {
        let frame = &samples[pos..pos + frame_len];
        let sum: f64 = frame.iter().map(|s| (*s as f64) * (*s as f64)).sum();
        let rms = (sum / frame.len() as f64).sqrt() as f32;
        if rms < noise_floor * 2.0 {
            noise_floor = noise_floor * 0.95 + rms * 0.05;
        }
        let threshold = 220.0f32.max(noise_floor * 2.5);
        flags.push(rms < threshold);
        pos += frame_len;
    }
    flags
}

fn split_wav(wav: &[u8]) -> Vec<bnu_core::audio::SpeechChunk> {
    let pcm = speech_pcm(wav).unwrap();
    let flags = silence_flags(&pcm);
    split_speech(wav, &flags).unwrap()
}

#[test]
fn wav_roundtrip_and_duration() {
    let pcm = i16_to_bytes(&tone(1000, 8000));
    let wav = build_wav(&pcm, SAMPLE_RATE, 1, 16);
    let info = parse_wav(&wav).unwrap();
    assert_eq!((info.sample_rate, info.channels, info.bits_per_sample), (16000, 1, 16));
    assert_eq!(duration_ms(&wav), Some(1000));
    assert_eq!(info.data_length, pcm.len());
}

#[test]
fn resample_halves_and_triples() {
    let s = tone(1000, 8000);
    assert_eq!(resample_linear(&s, 48000, 16000).len(), s.len() / 3);
    assert_eq!(resample_linear(&s, 16000, 48000).len(), s.len() * 3);
    assert_eq!(resample_linear(&s, 16000, 16000).len(), s.len());
}

#[test]
fn mono_mixdown_averages_channels() {
    let stereo = vec![1000i16, 3000, -1000, 1000];
    assert_eq!(to_mono(&stereo, 2), vec![2000, 0]);
}

#[test]
fn split_by_silence_keeps_segments_between_pauses() {
    let mut all = Vec::new();
    all.extend(tone(10_000, 9000));
    all.extend(silence(1_500));
    all.extend(tone(10_000, 9000));
    all.extend(silence(1_500));
    all.extend(tone(5_000, 9000));
    let wav = wav_of(&all);

    let chunks = split_wav(&wav);
    assert_eq!(chunks.len(), 3);
    assert!((10_400..=11_600).contains(&chunks[0].duration_ms), "{:?}", chunks[0].duration_ms);
    assert!((10_000..=11_600).contains(&chunks[1].start_ms), "{:?}", chunks[1].start_ms);
    assert!(chunks[2].start_ms >= 22_000);
    for c in &chunks {
        let info = parse_wav(&c.wav).unwrap();
        assert_eq!((info.sample_rate, info.channels), (SAMPLE_RATE, 1));
    }
}

#[test]
fn split_cuts_long_monologue_at_45s() {
    let wav = wav_of(&tone(60_000, 9000));
    let chunks = split_wav(&wav);
    assert_eq!(chunks.len(), 2);
    assert!((44_000..=46_000).contains(&chunks[0].duration_ms));
    assert!((14_000..=16_000).contains(&chunks[1].duration_ms));
}

#[test]
fn split_drops_tiny_tail() {
    let mut all = tone(10_000, 9000);
    all.extend(silence(1_000));
    all.extend(tone(300, 9000));
    let chunks = split_wav(&wav_of(&all));
    assert_eq!(chunks.len(), 1);
    assert!((10_400..=10_800).contains(&chunks[0].duration_ms), "{:?}", chunks[0].duration_ms);
}

#[test]
fn normalize_48k_stereo_to_16k_mono() {
    let left = tone(1000, 8000);
    let mut stereo = Vec::with_capacity(left.len() * 2);
    for s in &left {
        stereo.push(*s);
        stereo.push(*s);
    }
    let wav48 = build_wav(&i16_to_bytes(&stereo), 48_000, 2, 16);
    let out = normalize_to_16k_mono(&wav48).unwrap();
    assert_eq!(out.len(), (SAMPLE_RATE as usize * 2) / 3);
    let samples = bytes_to_i16(&out);
    let sum: f64 = samples.iter().map(|s| (*s as f64) * (*s as f64)).sum();
    assert!((sum / samples.len() as f64).sqrt() > 1000.0);
}

#[test]
fn split_by_duration_chunks_evenly() {
    let wav = wav_of(&tone(10_000, 8000));
    let chunks = split_by_duration(&wav, 4_000).unwrap();
    assert_eq!(chunks.len(), 3);
    assert!((3_900..=4_100).contains(&chunks[0].duration_ms));
}

#[test]
fn wav_header_bytes_are_exact() {
    let wav = build_wav(&[1, 2, 3, 4], 8000, 2, 16);
    assert_eq!(wav.len(), 48);
    assert_eq!(&wav[0..4], b"RIFF");
    assert_eq!(&wav[4..8], &40u32.to_le_bytes());
    assert_eq!(&wav[8..16], b"WAVEfmt ");
    assert_eq!(&wav[28..32], &32000u32.to_le_bytes());
    assert_eq!(&wav[32..34], &4u16.to_le_bytes());
    assert_eq!(&wav[36..40], b"data");
    assert_eq!(&wav[44..], &[1, 2, 3, 4]);
    let info = parse_wav(&wav).unwrap();
    assert_eq!(info.data_offset, 44);
    assert_eq!(info.byte_rate, 32000);
}

#[test]
fn parse_skips_unknown_chunks_and_cuts_data() {
    let mut wav = b"RIFF\0\0\0\0WAVE".to_vec();
    wav.extend_from_slice(b"LIST");
    wav.extend_from_slice(&3u32.to_le_bytes());
    wav.extend_from_slice(&[9, 9, 9, 0]);
    wav.extend_from_slice(b"fmt ");
    wav.extend_from_slice(&16u32.to_le_bytes());
    wav.extend_from_slice(&1u16.to_le_bytes());
    wav.extend_from_slice(&1u16.to_le_bytes());
    wav.extend_from_slice(&22050u32.to_le_bytes());
    wav.extend_from_slice(&44100u32.to_le_bytes());
    wav.extend_from_slice(&2u16.to_le_bytes());
    wav.extend_from_slice(&16u16.to_le_bytes());
    wav.extend_from_slice(b"data");
    wav.extend_from_slice(&1000u32.to_le_bytes());
    wav.extend_from_slice(&[0u8; 10]);
    let info = parse_wav(&wav).unwrap();
    assert_eq!(info.sample_rate, 22050);
    assert_eq!(info.data_offset, 56);
    assert_eq!(info.data_length, 10);
    assert_eq!(duration_ms(&wav), Some(10 * 1000 / 44100));
}

#[test]
fn parse_refuses_missing_header_or_chunks() {
    assert_eq!(parse_wav(b"RIFF"), None);
    let mut no_data = build_wav(&[0u8; 8], 16000, 1, 16);
    no_data[36..40].copy_from_slice(b"junk");
    assert_eq!(parse_wav(&no_data), None);
    let mut not_wave = build_wav(&[0u8; 8], 16000, 1, 16);
    not_wave[8..12].copy_from_slice(b"AVI ");
    assert_eq!(parse_wav(&not_wave), None);
}

#[test]
fn samples_roundtrip_through_bytes() {
    let s = vec![0i16, 1, -1, 32767, -32768, 256, -257];
    let b = i16_to_bytes(&s);
    assert_eq!(b, vec![0, 0, 1, 0, 255, 255, 255, 127, 0, 128, 0, 1, 255, 254]);
    assert_eq!(bytes_to_i16(&b), s);
    assert_eq!(bytes_to_i16(&[1, 0, 7]), vec![1]);
}

#[test]
fn counts_and_mixdown_edges() {
    assert_eq!(sample_count(100, 2, 16), 25);
    assert_eq!(sample_count(100, 1, 4), 100);
    assert_eq!(sample_count(100, 0, 16), 0);
    assert_eq!(to_mono(&[-3, -4, 5], 2), vec![-3]);
    assert_eq!(to_mono(&[7, 8], 0), vec![7, 8]);
}

#[test]
fn resample_interpolates_linearly() {
    assert_eq!(resample_linear(&[0, 100], 1, 2), vec![0, 50, 100, 100]);
    assert_eq!(resample_linear(&[0, -3], 1, 2), vec![0, -2, -3, -3]);
    assert_eq!(resample_linear(&[5, 6, 7], 0, 2), vec![5, 6, 7]);
    assert_eq!(resample_linear(&[0, 10, 20, 30], 2, 1), vec![0, 20]);
}

#[test]
fn audio_errors_name_the_format() {
    assert_eq!(normalize_to_16k_mono(b"nope").unwrap_err(), AudioError::NotWavHeader);
    let wav8 = build_wav(&[0u8; 4], 16000, 1, 8);
    assert_eq!(normalize_to_16k_mono(&wav8).unwrap_err(), AudioError::UnsupportedBits(8));
    assert_eq!(
        AudioError::UnsupportedBits(8).message(),
        "仅支持 16bit PCM WAV，当前 8bit"
    );
    let stereo = build_wav(&[0u8; 4], 44100, 2, 16);
    let e = split_speech(&stereo, &[]).unwrap_err();
    assert_eq!(e, AudioError::NotSpeechFormat(44100, 2, 16));
    assert_eq!(e.message(), "静音切段要求 16kHz 单声道 16bit WAV（当前 44100Hz/2ch/16bit）");
    assert_eq!(split_by_duration(&wav8, 1000).unwrap_err(), AudioError::Only16Bit);
    assert_eq!(split_by_duration(b"x", 1000).unwrap_err().message(), "不是合法的 WAV");
}

#[test]
fn ordinary_recordings_fit_their_conversion() {
    let wav = build_wav(&i16_to_bytes(&[1, 2, 3, 4]), 44_100, 2, 16);
    assert!(normalize_fits_exec(&wav));
    assert!(normalize_fits_exec(b"not a wav"));
    let one_hertz = build_wav(&i16_to_bytes(&vec![0i16; 1000]), 1, 1, 16);
    assert!(normalize_fits_exec(&one_hertz));
}
