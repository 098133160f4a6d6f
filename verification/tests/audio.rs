use xbridge::audio::{
    bytes_to_pcm16, decode_sample, encode_sample, mulaw_to_pcm16, pcm16_to_bytes, pcm16_to_mulaw,
};

#[test]
fn mulaw_roundtrip_preserves_sign_and_magnitude() {
    // Test key PCM16 values through encode/decode roundtrip.
    // Mu-law is lossy, so we check the decoded value is close.
    for &original in &[0i16, 100, -100, 1000, -1000, 8000, -8000, 32000, -32000] {
        let encoded = encode_sample(original);
        let decoded = decode_sample(encoded);
        let error = (original as i32 - decoded as i32).unsigned_abs();

        // Mu-law quantization error grows with magnitude.
        // For small values (<256), error should be <=4.
        // For large values, relative error should be <4%.
        if original.unsigned_abs() < 256 {
            assert!(
                error <= 4,
                "sample={original}, decoded={decoded}, error={error}"
            );
        } else {
            let rel = error as f64 / original.unsigned_abs() as f64;
            assert!(
                rel < 0.04,
                "sample={original}, decoded={decoded}, rel_error={rel}"
            );
        }
    }
}

#[test]
fn mulaw_silence_encodes_to_0xff() {
    // PCM silence (0) should encode to 0xFF in mu-law.
    assert_eq!(encode_sample(0), 0xFF);
}

#[test]
fn mulaw_preserves_sign() {
    let pos = decode_sample(encode_sample(1000));
    let neg = decode_sample(encode_sample(-1000));
    assert!(pos > 0);
    assert!(neg < 0);
    assert_eq!(pos, -neg);
}

#[test]
fn pcm16_to_mulaw_batch() {
    let pcm = vec![0i16, 100, -100, 8000, -8000];
    let mulaw = pcm16_to_mulaw(&pcm);
    assert_eq!(mulaw.len(), 5);
    let back = mulaw_to_pcm16(&mulaw);
    assert_eq!(back.len(), 5);
    // Silence roundtrips exactly
    assert_eq!(back[0], decode_sample(0xFF));
}

#[test]
fn pcm16_bytes_roundtrip() {
    let pcm = vec![0i16, 1, -1, 32767, -32768, 12345];
    let bytes = pcm16_to_bytes(&pcm);
    assert_eq!(bytes.len(), 12);
    let back = bytes_to_pcm16(&bytes);
    assert_eq!(pcm, back);
}

#[test]
fn pcm16_bytes_little_endian() {
    let pcm = vec![0x0102i16];
    let bytes = pcm16_to_bytes(&pcm);
    assert_eq!(bytes, vec![0x02, 0x01]); // LE
}

#[test]
fn bytes_to_pcm16_ignores_trailing_byte() {
    let bytes = vec![0x00, 0x01, 0xFF]; // 3 bytes -> 1 sample, trailing ignored
    let pcm = bytes_to_pcm16(&bytes);
    assert_eq!(pcm.len(), 1);
    assert_eq!(pcm[0], 0x0100);
}

#[test]
fn mulaw_full_range_no_panic() {
    // Encode every possible PCM16 value.
    for i in i16::MIN..=i16::MAX {
        let _ = encode_sample(i);
    }
    // Decode every possible mu-law byte.
    for b in 0u8..=255 {
        let _ = decode_sample(b);
    }
}

#[test]
fn mulaw_codes_are_exact() {
    for (sample, code, back) in [
        (0, 0xFF, 0),
        (1, 0xFF, 0),
        (-1, 0x7F, 0),
        (1000, 0xCE, 988),
        (-1000, 0x4E, -988),
        (32767, 0x80, 32124),
        (-32768, 0x00, -32124),
    ] {
        assert_eq!(encode_sample(sample), code, "{sample}");
        assert_eq!(decode_sample(code), back, "{code}");
    }
}

#[test]
fn mulaw_codes_survive_decoding() {
    for code in 0..=255u8 {
        if code != 0x7F {
            assert_eq!(encode_sample(decode_sample(code)), code);
        }
    }
}

#[test]
fn mulaw_error_is_bounded_everywhere() {
    for sample in i16::MIN..=i16::MAX {
        let back = decode_sample(encode_sample(sample)) as i32;
        let x = sample as i32;
        assert!(32 * (back - x).abs() <= x.abs() + 132, "{x}");
        if x.abs() >= 256 && x.abs() != 380 {
            assert!(25 * (back - x).abs() < x.abs(), "{x}");
        }
    }
}
