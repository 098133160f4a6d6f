use xbridge::wav::{ensure_8khz_mono_16bit, parse_wav, WavError, WavHeader};

/// Build a minimal WAV file from raw PCM16 mono 8kHz data.
fn build_test_wav(pcm_data: &[u8]) -> Vec<u8> {
    let data_size = pcm_data.len() as u32;
    let file_size = 36 + data_size;
    let mut wav = Vec::with_capacity(44 + pcm_data.len());

    // RIFF header
    wav.extend_from_slice(b"RIFF");
    wav.extend_from_slice(&file_size.to_le_bytes());
    wav.extend_from_slice(b"WAVE");

    // fmt chunk
    wav.extend_from_slice(b"fmt ");
    wav.extend_from_slice(&16u32.to_le_bytes()); // chunk size
    wav.extend_from_slice(&1u16.to_le_bytes()); // PCM format
    wav.extend_from_slice(&1u16.to_le_bytes()); // mono
    wav.extend_from_slice(&8000u32.to_le_bytes()); // sample rate
    wav.extend_from_slice(&16000u32.to_le_bytes()); // byte rate
    wav.extend_from_slice(&2u16.to_le_bytes()); // block align
    wav.extend_from_slice(&16u16.to_le_bytes()); // bits per sample

    // data chunk
    wav.extend_from_slice(b"data");
    wav.extend_from_slice(&data_size.to_le_bytes());
    wav.extend_from_slice(pcm_data);

    wav
}


#[test]
fn parse_valid_wav() {
    let pcm = vec![0x01, 0x00, 0xFF, 0x7F]; // 2 samples
    let wav = build_test_wav(&pcm);

    let (header, data) = parse_wav(&wav).unwrap();
    assert_eq!(header.channels, 1);
    assert_eq!(header.sample_rate, 8000);
    assert_eq!(header.bits_per_sample, 16);
    assert_eq!(data, &pcm);
}

#[test]
fn parse_validates_8khz_mono_16bit() {
    let pcm = vec![0x00; 320];
    let wav = build_test_wav(&pcm);

    let (header, _) = parse_wav(&wav).unwrap();
    ensure_8khz_mono_16bit(&header).unwrap();
}

#[test]
fn parse_empty_data() {
    let wav = build_test_wav(&[]);
    let (_, data) = parse_wav(&wav).unwrap();
    assert!(data.is_empty());
}

#[test]
fn parse_rejects_too_short() {
    assert!(matches!(parse_wav(&[0; 5]), Err(WavError::TooShort)));
}

#[test]
fn parse_rejects_invalid_riff() {
    let mut wav = build_test_wav(&[0; 4]);
    wav[0..4].copy_from_slice(b"XXXX");
    assert!(matches!(parse_wav(&wav), Err(WavError::InvalidRiff)));
}

#[test]
fn parse_rejects_invalid_wave() {
    let mut wav = build_test_wav(&[0; 4]);
    wav[8..12].copy_from_slice(b"XXXX");
    assert!(matches!(parse_wav(&wav), Err(WavError::InvalidWave)));
}

#[test]
fn parse_rejects_non_pcm_format() {
    let mut wav = build_test_wav(&[0; 4]);
    // Set audio format to 3 (IEEE float) instead of 1 (PCM)
    wav[20..22].copy_from_slice(&3u16.to_le_bytes());
    assert!(matches!(
        parse_wav(&wav),
        Err(WavError::UnsupportedFormat(3))
    ));
}

#[test]
fn ensure_rejects_stereo() {
    let header = WavHeader {
        channels: 2,
        sample_rate: 8000,
        bits_per_sample: 16,
    };
    assert!(matches!(
        ensure_8khz_mono_16bit(&header),
        Err(WavError::NotMono)
    ));
}

#[test]
fn ensure_rejects_wrong_sample_rate() {
    let header = WavHeader {
        channels: 1,
        sample_rate: 44100,
        bits_per_sample: 16,
    };
    assert!(matches!(
        ensure_8khz_mono_16bit(&header),
        Err(WavError::Not8kHz(44100))
    ));
}

#[test]
fn ensure_rejects_wrong_bit_depth() {
    let header = WavHeader {
        channels: 1,
        sample_rate: 8000,
        bits_per_sample: 8,
    };
    assert!(matches!(
        ensure_8khz_mono_16bit(&header),
        Err(WavError::Not16Bit(8))
    ));
}

#[test]
fn parse_wav_with_extra_chunks() {
    // Build a WAV with an extra "LIST" chunk between fmt and data
    let pcm = vec![0x01, 0x00, 0x02, 0x00];

    let mut wav = Vec::new();
    // RIFF header (size placeholder)
    wav.extend_from_slice(b"RIFF");
    wav.extend_from_slice(&0u32.to_le_bytes()); // fill later
    wav.extend_from_slice(b"WAVE");

    // fmt chunk
    wav.extend_from_slice(b"fmt ");
    wav.extend_from_slice(&16u32.to_le_bytes());
    wav.extend_from_slice(&1u16.to_le_bytes());
    wav.extend_from_slice(&1u16.to_le_bytes());
    wav.extend_from_slice(&8000u32.to_le_bytes());
    wav.extend_from_slice(&16000u32.to_le_bytes());
    wav.extend_from_slice(&2u16.to_le_bytes());
    wav.extend_from_slice(&16u16.to_le_bytes());

    // Extra chunk
    wav.extend_from_slice(b"LIST");
    wav.extend_from_slice(&4u32.to_le_bytes());
    wav.extend_from_slice(b"INFO");

    // data chunk
    wav.extend_from_slice(b"data");
    wav.extend_from_slice(&(pcm.len() as u32).to_le_bytes());
    wav.extend_from_slice(&pcm);

    // Fix file size
    let file_size = (wav.len() - 8) as u32;
    wav[4..8].copy_from_slice(&file_size.to_le_bytes());

    let (header, data) = parse_wav(&wav).unwrap();
    assert_eq!(header.channels, 1);
    assert_eq!(data, &pcm);
}

#[test]
fn parse_needs_both_chunks() {
    let wav = build_test_wav(&[1, 0]);
    assert_eq!(parse_wav(&wav[..12]), Err(WavError::MissingFmt));
    assert_eq!(parse_wav(&wav[..36]), Err(WavError::MissingData));
    let mut only_data = wav[..12].to_vec();
    only_data.extend_from_slice(&wav[36..]);
    assert_eq!(parse_wav(&only_data), Err(WavError::MissingFmt));
}

#[test]
fn parse_passes_over_odd_chunks() {
    let plain = build_test_wav(&[1, 0, 2, 0]);
    let mut wav = plain[..36].to_vec();
    wav.extend_from_slice(b"note\x03\0\0\0abc\0");
    wav.extend_from_slice(&plain[36..]);
    let (header, data) = parse_wav(&wav).unwrap();
    assert_eq!(header.sample_rate, 8000);
    assert_eq!(data, &[1, 0, 2, 0]);
}

#[test]
fn parse_cuts_data_off_at_the_end_of_the_file() {
    let wav = build_test_wav(&[1, 0, 2, 0]);
    let (_, data) = parse_wav(&wav[..46]).unwrap();
    assert_eq!(data, &[1, 0]);
}

#[test]
fn wav_errors_say_what_is_wrong() {
    for (error, text) in [
        (WavError::TooShort, "WAV file too short"),
        (WavError::InvalidRiff, "not a RIFF file"),
        (WavError::InvalidWave, "not a WAVE file"),
        (WavError::MissingFmt, "missing fmt chunk"),
        (WavError::MissingData, "missing data chunk"),
        (
            WavError::UnsupportedFormat(3),
            "unsupported audio format: 3 (expected PCM/1)",
        ),
        (WavError::NotMono, "only mono audio supported"),
        (
            WavError::Not8kHz(44100),
            "unsupported sample rate: 44100Hz (expected 8000)",
        ),
        (WavError::Not16Bit(8), "unsupported bit depth: 8 (expected 16)"),
    ] {
        assert_eq!(error.message(), text);
    }
}
