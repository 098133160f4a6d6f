use xbridge::config::{AudioEncoding, StreamMode};
use xbridge::metrics::Metrics;
use xbridge::ws::{
    decode_native_audio, encode_native_audio, play_decoded, receive, AudioStream, ClientEvent,
    ClientMediaPayload, ClientMessage, MarkPayload, OutFrame, ServerEvent, ServerMediaPayload,
    StreamAction, NATIVE_AUDIO_TAG,
};

// ── Native mode tests ──

#[test]
fn native_audio_encode_decode_roundtrip() {
    let pcm = vec![0x01, 0x02, 0x03, 0x04];
    let frame = encode_native_audio(&pcm).unwrap();

    assert_eq!(frame[0], NATIVE_AUDIO_TAG);
    assert_eq!(u16::from_be_bytes([frame[1], frame[2]]), 4);
    assert_eq!(&frame[3..], &pcm);

    let decoded = decode_native_audio(&frame).unwrap();
    assert_eq!(decoded, &pcm);
}

#[test]
fn native_audio_empty_payload() {
    let frame = encode_native_audio(&[]).unwrap();
    assert_eq!(frame.len(), 3);
    let decoded = decode_native_audio(&frame).unwrap();
    assert!(decoded.is_empty());
}

#[test]
fn native_audio_encode_rejects_oversized_payload() {
    let oversized = vec![0u8; u16::MAX as usize + 1];
    assert!(encode_native_audio(&oversized).is_none());
}

#[test]
fn native_audio_decode_rejects_bad_tag() {
    let frame = vec![0x02, 0x00, 0x01, 0xFF];
    assert!(decode_native_audio(&frame).is_none());
}

#[test]
fn native_audio_decode_rejects_truncated_frame() {
    // Header says 4 bytes but only 2 present
    let frame = vec![0x01, 0x00, 0x04, 0xAA, 0xBB];
    assert!(decode_native_audio(&frame).is_none());
}

#[test]
fn native_audio_decode_rejects_too_short() {
    assert!(decode_native_audio(&[]).is_none());
    assert!(decode_native_audio(&[0x01]).is_none());
    assert!(decode_native_audio(&[0x01, 0x00]).is_none());
}

// ── Frames ──

#[test]
fn media_events_carry_base64_and_sample_counts() {
    let mut stream = AudioStream::new("c1", StreamMode::Twilio, AudioEncoding::L16);
    assert_eq!(
        stream.frame(&[0x6574, 0x7473]),
        Some(OutFrame::Event(ServerEvent::Media {
            stream_sid: "c1".into(),
            media: ServerMediaPayload {
                timestamp: "0".into(),
                payload: "dGVzdA==".into(),
            },
        }))
    );
    assert_eq!(
        stream.frame(&[0]),
        Some(OutFrame::Event(ServerEvent::Media {
            stream_sid: "c1".into(),
            media: ServerMediaPayload {
                timestamp: "2".into(),
                payload: "AAA=".into(),
            },
        }))
    );
}

#[test]
fn media_events_can_be_mu_law() {
    let mut stream = AudioStream::new("c1", StreamMode::Twilio, AudioEncoding::Mulaw);
    assert_eq!(
        stream.frame(&[0, 0, 0]),
        Some(OutFrame::Event(ServerEvent::Media {
            stream_sid: "c1".into(),
            media: ServerMediaPayload {
                timestamp: "0".into(),
                payload: "////".into(),
            },
        }))
    );
}

#[test]
fn binary_frames_carry_linear_samples() {
    let mut stream = AudioStream::new("c1", StreamMode::Native, AudioEncoding::Mulaw);
    assert_eq!(
        stream.frame(&[1, -2]),
        Some(OutFrame::Binary(vec![1, 0, 4, 1, 0, 0xFE, 0xFF]))
    );
    assert_eq!(stream.timestamp, 0);
    assert_eq!(stream.frame(&[0; 32768]), None);
}

fn media(payload: &str) -> ClientMessage {
    ClientMessage::Event(ClientEvent::Media {
        stream_sid: "c1".into(),
        media: ClientMediaPayload {
            payload: payload.into(),
        },
    })
}

#[test]
fn client_audio_is_played_and_counted() {
    let mut m = Metrics::new();
    assert_eq!(
        receive(StreamMode::Twilio, AudioEncoding::L16, media("dGVzdA=="), &mut m),
        StreamAction::Play(vec![0x6574, 0x7473])
    );
    assert_eq!(
        receive(StreamMode::Native, AudioEncoding::Mulaw, media("/w=="), &mut m),
        StreamAction::Play(vec![0])
    );
    assert_eq!(m.ws_frames_received, 2);
    assert_eq!(
        receive(StreamMode::Twilio, AudioEncoding::L16, media("dGVzdA"), &mut m),
        StreamAction::Ignore
    );
    assert_eq!(m.ws_frames_received, 2);
}

#[test]
fn binary_audio_counts_in_binary_mode_only() {
    let mut m = Metrics::new();
    let frame = vec![1, 0, 2, 5, 0];
    assert_eq!(
        receive(
            StreamMode::Native,
            AudioEncoding::Mulaw,
            ClientMessage::Binary(frame.clone()),
            &mut m
        ),
        StreamAction::Play(vec![5])
    );
    assert_eq!(
        receive(
            StreamMode::Twilio,
            AudioEncoding::Mulaw,
            ClientMessage::Binary(frame),
            &mut m
        ),
        StreamAction::Ignore
    );
    assert_eq!(
        receive(
            StreamMode::Native,
            AudioEncoding::Mulaw,
            ClientMessage::Binary(vec![2, 0, 0]),
            &mut m
        ),
        StreamAction::Ignore
    );
    assert_eq!(m.ws_frames_received, 1);
}

#[test]
fn client_can_mark_clear_and_close() {
    let mut m = Metrics::new();
    let mut act = |message| receive(StreamMode::Twilio, AudioEncoding::Mulaw, message, &mut m);
    assert_eq!(
        act(ClientMessage::Event(ClientEvent::Mark {
            stream_sid: "c1".into(),
            mark: MarkPayload {
                name: "greeting".into(),
            },
        })),
        StreamAction::Mark {
            stream_sid: "c1".into(),
            name: "greeting".into(),
        }
    );
    assert_eq!(
        act(ClientMessage::Event(ClientEvent::Clear {
            stream_sid: "c1".into(),
        })),
        StreamAction::Clear
    );
    assert_eq!(act(ClientMessage::Other), StreamAction::Ignore);
    assert_eq!(act(ClientMessage::Close), StreamAction::Close);
    assert_eq!(m.ws_frames_received, 0);
}

#[test]
fn frames_sent_back_play_the_same_samples() {
    let samples: Vec<i16> = (0..160).map(|i| (i * 401 - 32000) as i16).collect();
    let mut m = Metrics::new();
    for mode in [StreamMode::Twilio, StreamMode::Native] {
        let mut stream = AudioStream::new("c1", mode, AudioEncoding::L16);
        let message = match stream.frame(&samples) {
            Some(OutFrame::Event(ServerEvent::Media { stream_sid, media })) => {
                ClientMessage::Event(ClientEvent::Media {
                    stream_sid,
                    media: ClientMediaPayload {
                        payload: media.payload,
                    },
                })
            }
            Some(OutFrame::Binary(frame)) => ClientMessage::Binary(frame),
            _ => unreachable!(),
        };
        assert_eq!(
            receive(mode, AudioEncoding::L16, message, &mut m),
            StreamAction::Play(samples.clone())
        );
    }
}

#[test]
fn decoded_payloads_are_played_in_their_encoding() {
    assert_eq!(
        play_decoded(AudioEncoding::Mulaw, Some(&[0x80, 0x00])),
        StreamAction::Play(vec![32124, -32124])
    );
    assert_eq!(
        play_decoded(AudioEncoding::L16, Some(&[0x80, 0x00, 0x01])),
        StreamAction::Play(vec![128])
    );
    assert_eq!(
        play_decoded(AudioEncoding::L16, None),
        StreamAction::Ignore
    );
}
