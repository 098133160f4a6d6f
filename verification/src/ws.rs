//! The WebSocket protocol: events in both directions, and binary audio frames.

use base64::Engine;
use vstd::prelude::*;
use vstd::slice::slice_subrange;

use crate::audio;
use crate::config;
use crate::config::{AudioEncoding, StreamMode};
use crate::metrics;
use crate::metrics::{Metrics, MetricsView};
use crate::text;

verus! {

// ── Events ──

/// An event that goes to the client.
#[derive(Debug, Clone, PartialEq)]
pub enum ServerEvent {
    /// The connection is up.
    Connected { protocol: String, version: String },
    /// Streaming begins, in this format.
    Start { stream_sid: String, start: StartPayload },
    /// An audio frame of the caller.
    Media { stream_sid: String, media: ServerMediaPayload },
    /// The caller pressed a key.
    Dtmf { stream_sid: String, dtmf: DtmfPayload },
    /// A mark of the client was reached.
    Mark { stream_sid: String, mark: MarkPayload },
    /// The call has ended.
    Stop { stream_sid: String },
}

#[derive(Debug, Clone, PartialEq)]
pub struct StartPayload {
    pub call_sid: String,
    pub tracks: Vec<String>,
    pub media_format: MediaFormat,
}

#[derive(Debug, Clone, PartialEq)]
pub struct MediaFormat {
    pub encoding: String,
    pub sample_rate: u32,
    pub channels: u8,
}

#[derive(Debug, Clone, PartialEq)]
pub struct ServerMediaPayload {
    pub timestamp: String,
    pub payload: String,
}

#[derive(Debug, Clone, PartialEq)]
pub struct DtmfPayload {
    pub digit: String,
}

/// An event that comes from the client.
#[derive(Debug, Clone, PartialEq)]
pub enum ClientEvent {
    /// Audio for the caller.
    Media { stream_sid: String, media: ClientMediaPayload },
    /// A mark behind the audio sent so far.
    Mark { stream_sid: String, mark: MarkPayload },
    /// The audio that waits to be played is to be dropped.
    Clear { stream_sid: String },
}

#[derive(Debug, Clone, PartialEq)]
pub struct ClientMediaPayload {
    pub payload: String,
}

#[derive(Debug, Clone, PartialEq)]
pub struct MarkPayload {
    pub name: String,
}

/// What an event to the client says.
#[verifier::ext_equal]
pub enum ServerEventView {
    Connected { protocol: Seq<char>, version: Seq<char> },
    Start {
        stream_sid: Seq<char>,
        call_sid: Seq<char>,
        tracks: Seq<Seq<char>>,
        encoding: Seq<char>,
        sample_rate: u32,
        channels: u8,
    },
    Media { stream_sid: Seq<char>, timestamp: Seq<char>, payload: Seq<char> },
    Dtmf { stream_sid: Seq<char>, digit: Seq<char> },
    Mark { stream_sid: Seq<char>, name: Seq<char> },
    Stop { stream_sid: Seq<char> },
}

impl View for ServerEvent {
    type V = ServerEventView;

    open spec fn view(&self) -> ServerEventView {
        match self {
            ServerEvent::Connected { protocol, version } => ServerEventView::Connected {
                protocol: protocol@,
                version: version@,
            },
            ServerEvent::Start { stream_sid, start } => ServerEventView::Start {
                stream_sid: stream_sid@,
                call_sid: start.call_sid@,
                tracks: text::texts(start.tracks@),
                encoding: start.media_format.encoding@,
                sample_rate: start.media_format.sample_rate,
                channels: start.media_format.channels,
            },
            ServerEvent::Media { stream_sid, media } => ServerEventView::Media {
                stream_sid: stream_sid@,
                timestamp: media.timestamp@,
                payload: media.payload@,
            },
            ServerEvent::Dtmf { stream_sid, dtmf } => ServerEventView::Dtmf {
                stream_sid: stream_sid@,
                digit: dtmf.digit@,
            },
            ServerEvent::Mark { stream_sid, mark } => ServerEventView::Mark {
                stream_sid: stream_sid@,
                name: mark.name@,
            },
            ServerEvent::Stop { stream_sid } => ServerEventView::Stop { stream_sid: stream_sid@ },
        }
    }
}

/// The event that opens a connection.
pub open spec fn connected_view() -> ServerEventView {
    ServerEventView::Connected { protocol: "Call"@, version: "1.0.0"@ }
}

/// The event that begins streaming.
pub open spec fn start_view(
    call_id: Seq<char>,
    encoding: AudioEncoding,
    sample_rate: u32,
) -> ServerEventView {
    ServerEventView::Start {
        stream_sid: call_id,
        call_sid: call_id,
        tracks: seq!["inbound"@],
        encoding: config::encoding_text(encoding),
        sample_rate,
        channels: 1,
    }
}

/// The event that opens a connection.
pub fn connected_event() -> (e: ServerEvent)
    ensures
        e@ == connected_view(),
{
    ServerEvent::Connected {
        protocol: String::from_str("Call"),
        version: String::from_str("1.0.0"),
    }
}

/// The event that begins streaming.
pub fn start_event(call_id: &str, encoding: AudioEncoding, sample_rate: u32) -> (e: ServerEvent)
    ensures
        e@ == start_view(call_id@, encoding, sample_rate),
{
    let mut tracks: Vec<String> = Vec::new();
    tracks.push(String::from_str("inbound"));
    assert(text::texts(tracks@) =~= seq!["inbound"@]);
    ServerEvent::Start {
        stream_sid: call_id.to_owned(),
        start: StartPayload {
            call_sid: call_id.to_owned(),
            tracks,
            media_format: MediaFormat {
                encoding: encoding.as_str().to_owned(),
                sample_rate,
                channels: 1,
            },
        },
    }
}

/// The event that ends streaming.
pub fn stop_event(call_id: &str) -> (e: ServerEvent)
    ensures
        e@ == (ServerEventView::Stop { stream_sid: call_id@ }),
{
    ServerEvent::Stop { stream_sid: call_id.to_owned() }
}

/// The event for a key that the caller pressed.
pub fn dtmf_event(call_id: &str, digit: &str) -> (e: ServerEvent)
    ensures
        e@ == (ServerEventView::Dtmf { stream_sid: call_id@, digit: digit@ }),
{
    ServerEvent::Dtmf {
        stream_sid: call_id.to_owned(),
        dtmf: DtmfPayload { digit: digit.to_owned() },
    }
}

/// The event for an audio frame of the caller that begins at sample `timestamp`.
pub fn media_event(call_id: &str, timestamp: u64, payload: &str) -> (e: ServerEvent)
    ensures
        e@ == (ServerEventView::Media {
            stream_sid: call_id@,
            timestamp: text::decimal(timestamp as nat),
            payload: payload@,
        }),
{
    ServerEvent::Media {
        stream_sid: call_id.to_owned(),
        media: ServerMediaPayload {
            timestamp: text::decimal_string(timestamp),
            payload: payload.to_owned(),
        },
    }
}

// ── Binary frames ──

/// The first byte of a binary audio frame.
pub const NATIVE_AUDIO_TAG: u8 = 0x01;

/// A binary frame: the tag, the length of the audio in two bytes, the high one first,
/// and the audio. Audio whose length two bytes do not hold has none.
pub open spec fn native_frame(audio: Seq<u8>) -> Option<Seq<u8>> {
    if audio.len() <= u16::MAX {
        Some(
            seq![NATIVE_AUDIO_TAG, (audio.len() / 256) as u8, (audio.len() % 256) as u8] + audio,
        )
    } else {
        None
    }
}

/// The audio of a binary frame, as long as the frame says; nothing where the tag is
/// another or the frame is cut off.
pub open spec fn native_audio(frame: Seq<u8>) -> Option<Seq<u8>> {
    if frame.len() < 3 || frame[0] != NATIVE_AUDIO_TAG {
        None
    } else {
        let len = 256 * frame[1] + frame[2];
        if frame.len() < 3 + len {
            None
        } else {
            Some(frame.subrange(3, 3 + len))
        }
    }
}

/// A binary frame gives its audio back.
pub proof fn law_native_round_trip(audio: Seq<u8>)
    requires
        audio.len() <= u16::MAX,
    ensures
        native_frame(audio) matches Some(frame) && native_audio(frame) == Some(audio),
{
    let frame = native_frame(audio)->0;
    assert(frame[1] == (audio.len() / 256) as u8 && frame[2] == (audio.len() % 256) as u8);
    assert(256 * frame[1] + frame[2] == audio.len());
    assert(frame.subrange(3, 3 + audio.len() as int) =~= audio);
}

/// Makes a binary audio frame.
pub fn encode_native_audio(pcm_data: &[u8]) -> (res: Option<Vec<u8>>)
    ensures
        match res {
            Some(frame) => native_frame(pcm_data@) == Some(frame@),
            None => native_frame(pcm_data@) is None,
        },
{
    let len: usize = pcm_data.len();
    if len > 0xFFFF {
        return None;
    }
    let mut frame: Vec<u8> = Vec::new();
    frame.push(NATIVE_AUDIO_TAG);
    frame.push((len / 256) as u8);
    frame.push((len % 256) as u8);
    frame.extend_from_slice(pcm_data);
    assert(frame@ =~= native_frame(pcm_data@)->0);
    Some(frame)
}

/// The audio of a binary frame.
pub fn decode_native_audio(frame: &[u8]) -> (res: Option<&[u8]>)
    ensures
        match res {
            Some(audio) => native_audio(frame@) == Some(audio@),
            None => native_audio(frame@) is None,
        },
{
    if frame.len() < 3 || frame[0] != NATIVE_AUDIO_TAG {
        return None;
    }
    let len: usize = 256 * (frame[1] as usize) + frame[2] as usize;
    if frame.len() - 3 < len {
        return None;
    }
    Some(slice_subrange(frame, 3, 3 + len))
}

// ── Base64 ──

/// The padded standard base64 text of bytes.
pub uninterp spec fn base64_text(bytes: Seq<u8>) -> Seq<char>;

/// The bytes that a padded standard base64 text stands for, if it is one.
pub uninterp spec fn base64_bytes(text: Seq<char>) -> Option<Seq<u8>>;

/// `Engine::encode` of the crate base64, with the engine `STANDARD`: a text that depends
/// on the bytes alone and that decodes to them again. The bytes are few enough for the
/// length of the text to fit.
#[verifier::external_body]
fn base64_encode(bytes: &[u8]) -> (res: String)
    requires
        bytes@.len() <= usize::MAX / 4,
    ensures
        res@ == base64_text(bytes@),
        base64_bytes(res@) == Some(bytes@),
{
    base64::engine::general_purpose::STANDARD.encode(bytes)
}

/// `Engine::decode` of the crate base64, with the engine `STANDARD`: the bytes that the
/// text stands for, or nothing where it is no such text. The outcome depends on the text
/// alone.
#[verifier::external_body]
pub(crate) fn base64_decode(text: &str) -> (res: Option<Vec<u8>>)
    ensures
        match res {
            Some(bytes) => base64_bytes(text@) == Some(bytes@),
            None => base64_bytes(text@) is None,
        },
{
    base64::engine::general_purpose::STANDARD.decode(text).ok()
}

// ── Audio to the client ──

/// Samples in an encoding.
pub open spec fn coded(encoding: AudioEncoding, samples: Seq<i16>) -> Seq<u8> {
    match encoding {
        AudioEncoding::Mulaw => audio::mulaw_seq(samples),
        AudioEncoding::L16 => audio::pcm_bytes(samples),
    }
}

/// The samples that bytes in an encoding stand for.
pub open spec fn decoded(encoding: AudioEncoding, bytes: Seq<u8>) -> Seq<i16> {
    match encoding {
        AudioEncoding::Mulaw => audio::sample_seq(bytes),
        AudioEncoding::L16 => audio::bytes_pcm(bytes),
    }
}

/// Linear samples survive being coded and decoded; mu-law samples come back as the
/// middle of their step.
pub proof fn law_coded_round_trip(encoding: AudioEncoding, samples: Seq<i16>)
    ensures
        decoded(encoding, coded(encoding, samples)).len() == samples.len(),
        forall|i: int|
            0 <= i < samples.len() ==> #[trigger] decoded(encoding, coded(encoding, samples))[i]
                == match encoding {
                AudioEncoding::Mulaw => audio::sample_of(audio::mulaw_of(samples[i])),
                AudioEncoding::L16 => samples[i],
            },
{
    audio::law_pcm_bytes(samples);
}

/// Codes samples in an encoding.
pub fn code_samples(encoding: AudioEncoding, samples: &[i16]) -> (res: Vec<u8>)
    ensures
        res@ == coded(encoding, samples@),
{
    match encoding {
        AudioEncoding::Mulaw => audio::pcm16_to_mulaw(samples),
        AudioEncoding::L16 => audio::pcm16_to_bytes(samples),
    }
}

/// Decodes bytes in an encoding.
pub fn decode_samples(encoding: AudioEncoding, bytes: &[u8]) -> (res: Vec<i16>)
    ensures
        res@ == decoded(encoding, bytes@),
{
    match encoding {
        AudioEncoding::Mulaw => audio::mulaw_to_pcm16(bytes),
        AudioEncoding::L16 => audio::bytes_to_pcm16(bytes),
    }
}

/// A frame to send to the client.
#[derive(Debug, PartialEq)]
pub enum OutFrame {
    /// As text, an event.
    Event(ServerEvent),
    /// As it is.
    Binary(Vec<u8>),
}

#[verifier::ext_equal]
pub enum OutFrameView {
    Event(ServerEventView),
    Binary(Seq<u8>),
}

impl View for OutFrame {
    type V = OutFrameView;

    open spec fn view(&self) -> OutFrameView {
        match self {
            OutFrame::Event(event) => OutFrameView::Event(event@),
            OutFrame::Binary(bytes) => OutFrameView::Binary(bytes@),
        }
    }
}

/// The stream of a caller's audio to a client.
#[derive(Debug)]
pub struct AudioStream {
    pub call_id: String,
    pub mode: StreamMode,
    pub encoding: AudioEncoding,
    /// How many samples have been sent.
    pub timestamp: u64,
}

pub struct StreamView {
    pub call_id: Seq<char>,
    pub mode: StreamMode,
    pub encoding: AudioEncoding,
    pub timestamp: u64,
}

impl View for AudioStream {
    type V = StreamView;

    open spec fn view(&self) -> StreamView {
        StreamView {
            call_id: self.call_id@,
            mode: self.mode,
            encoding: self.encoding,
            timestamp: self.timestamp,
        }
    }
}

/// The frame for samples: in JSON mode a media event with their base64 text, in binary
/// mode a frame of their bytes, and none where that would be too long.
pub open spec fn frame_of(s: StreamView, samples: Seq<i16>) -> Option<OutFrameView> {
    match s.mode {
        StreamMode::Twilio => Some(
            OutFrameView::Event(
                ServerEventView::Media {
                    stream_sid: s.call_id,
                    timestamp: text::decimal(s.timestamp as nat),
                    payload: base64_text(coded(s.encoding, samples)),
                },
            ),
        ),
        StreamMode::Native => match native_frame(audio::pcm_bytes(samples)) {
            Some(bytes) => Some(OutFrameView::Binary(bytes)),
            None => None,
        },
    }
}

/// The stream after a frame: only JSON frames are numbered.
pub open spec fn after_frame(s: StreamView, samples: Seq<i16>) -> StreamView {
    match s.mode {
        StreamMode::Twilio => StreamView {
            timestamp: ((s.timestamp + samples.len()) % 0x1_0000_0000_0000_0000) as u64,
            ..s
        },
        StreamMode::Native => s,
    }
}

impl AudioStream {
    /// A stream with nothing sent yet.
    pub fn new(call_id: &str, mode: StreamMode, encoding: AudioEncoding) -> (s: Self)
        ensures
            s@ == (StreamView { call_id: call_id@, mode, encoding, timestamp: 0 }),
    {
        AudioStream { call_id: call_id.to_owned(), mode, encoding, timestamp: 0 }
    }

    /// The frame for the next samples of the caller.
    pub fn frame(&mut self, samples: &[i16]) -> (res: Option<OutFrame>)
        requires
            samples@.len() <= usize::MAX / 8,
        ensures
            final(self)@ == after_frame(old(self)@, samples@),
            match res {
                Some(frame) => {
                    &&& frame_of(old(self)@, samples@) == Some(frame@)
                    &&& old(self)@.mode == StreamMode::Twilio ==> (frame@ matches OutFrameView::Event(
                        ServerEventView::Media { payload, .. },
                    ) && base64_bytes(payload) == Some(coded(old(self)@.encoding, samples@)))
                },
                None => frame_of(old(self)@, samples@) is None,
            },
    {
        match self.mode {
            StreamMode::Twilio => {
                let bytes: Vec<u8> = code_samples(self.encoding, samples);
                let payload: String = base64_encode(bytes.as_slice());
                let event: ServerEvent = media_event(
                    self.call_id.as_str(),
                    self.timestamp,
                    payload.as_str(),
                );
                let count: usize = samples.len();
                self.timestamp = self.timestamp.wrapping_add(count as u64);
                Some(OutFrame::Event(event))
            },
            StreamMode::Native => {
                let bytes: Vec<u8> = audio::pcm16_to_bytes(samples);
                match encode_native_audio(bytes.as_slice()) {
                    Some(frame) => Some(OutFrame::Binary(frame)),
                    None => None,
                }
            },
        }
    }
}

/// A stream after frames for these samples, one after the other.
pub open spec fn after_frames(s: StreamView, frames: Seq<Seq<i16>>) -> StreamView
    decreases frames.len(),
{
    if frames.len() == 0 {
        s
    } else {
        after_frame(after_frames(s, frames.drop_last()), frames.last())
    }
}

/// How many samples there are in all.
pub open spec fn sample_count(frames: Seq<Seq<i16>>) -> nat
    decreases frames.len(),
{
    if frames.len() == 0 {
        0
    } else {
        sample_count(frames.drop_last()) + frames.last().len()
    }
}

/// The timestamp of a media event is the number of samples that were sent before it, as long
/// as 64 bits hold that number. Nothing else about a stream changes.
pub proof fn law_timestamps(
    call_id: Seq<char>,
    encoding: AudioEncoding,
    frames: Seq<Seq<i16>>,
    samples: Seq<i16>,
)
    requires
        sample_count(frames) <= u64::MAX,
    ensures
        ({
            let fresh = StreamView { call_id, mode: StreamMode::Twilio, encoding, timestamp: 0 };
            let s = after_frames(fresh, frames);
            &&& s == StreamView { timestamp: sample_count(frames) as u64, ..fresh }
            &&& frame_of(s, samples) == Some(
                OutFrameView::Event(
                    ServerEventView::Media {
                        stream_sid: call_id,
                        timestamp: text::decimal(sample_count(frames)),
                        payload: base64_text(coded(encoding, samples)),
                    },
                ),
            )
        }),
    decreases frames.len(),
{
    if frames.len() > 0 {
        law_timestamps(call_id, encoding, frames.drop_last(), samples);
    }
}

// ── From the client ──

/// What came from the client.
#[derive(Debug, PartialEq)]
pub enum ClientMessage {
    /// A binary frame.
    Binary(Vec<u8>),
    /// A text frame that holds an event.
    Event(ClientEvent),
    /// Any other frame.
    Other,
    /// The end of the connection.
    Close,
}

/// What is to be done about it.
#[derive(Debug, PartialEq)]
pub enum StreamAction {
    /// Queue samples for the caller.
    Play(Vec<i16>),
    /// Queue a mark, to be echoed once the audio before it has been played.
    Mark { stream_sid: String, name: String },
    /// Drop the audio that waits to be played.
    Clear,
    /// Nothing.
    Ignore,
    /// Close the connection.
    Close,
}

#[verifier::ext_equal]
pub enum StreamActionView {
    Play(Seq<i16>),
    Mark { stream_sid: Seq<char>, name: Seq<char> },
    Clear,
    Ignore,
    Close,
}

impl View for StreamAction {
    type V = StreamActionView;

    open spec fn view(&self) -> StreamActionView {
        match self {
            StreamAction::Play(samples) => StreamActionView::Play(samples@),
            StreamAction::Mark { stream_sid, name } => StreamActionView::Mark {
                stream_sid: stream_sid@,
                name: name@,
            },
            StreamAction::Clear => StreamActionView::Clear,
            StreamAction::Ignore => StreamActionView::Ignore,
            StreamAction::Close => StreamActionView::Close,
        }
    }
}

/// What is to be done about audio that came as base64, once decoded: it is played, and
/// what is no base64 is ignored.
pub open spec fn media_action(encoding: AudioEncoding, bytes: Option<Seq<u8>>) -> StreamActionView {
    match bytes {
        Some(bytes) => StreamActionView::Play(decoded(encoding, bytes)),
        None => StreamActionView::Ignore,
    }
}

/// What is to be done about a binary frame: in binary mode its audio is played, and
/// anything else is ignored.
pub open spec fn binary_action(mode: StreamMode, frame: Seq<u8>) -> StreamActionView {
    if mode == StreamMode::Native {
        match native_audio(frame) {
            Some(bytes) => StreamActionView::Play(audio::bytes_pcm(bytes)),
            None => StreamActionView::Ignore,
        }
    } else {
        StreamActionView::Ignore
    }
}

/// What is to be done about a message.
pub open spec fn action_for(
    mode: StreamMode,
    encoding: AudioEncoding,
    message: ClientMessage,
) -> StreamActionView {
    match message {
        ClientMessage::Binary(frame) => binary_action(mode, frame@),
        ClientMessage::Event(event) => match event {
            ClientEvent::Media { media, .. } => media_action(
                encoding,
                base64_bytes(media.payload@),
            ),
            ClientEvent::Mark { stream_sid, mark } => StreamActionView::Mark {
                stream_sid: stream_sid@,
                name: mark.name@,
            },
            ClientEvent::Clear { .. } => StreamActionView::Clear,
        },
        ClientMessage::Other => StreamActionView::Ignore,
        ClientMessage::Close => StreamActionView::Close,
    }
}

/// A frame that a client sends back as it came is played as the samples it was made of;
/// mu-law samples as the middle of their step.
pub proof fn law_frame_sent_back(encoding: AudioEncoding, samples: Seq<i16>, payload: Seq<char>)
    requires
        base64_bytes(payload) == Some(coded(encoding, samples)),
        2 * samples.len() <= u16::MAX,
    ensures
        media_action(encoding, base64_bytes(payload)) == StreamActionView::Play(
            decoded(encoding, coded(encoding, samples)),
        ),
        encoding == AudioEncoding::L16 ==> media_action(encoding, base64_bytes(payload))
            == StreamActionView::Play(samples),
        native_frame(audio::pcm_bytes(samples)) matches Some(frame) && binary_action(
            StreamMode::Native,
            frame,
        ) == StreamActionView::Play(samples),
{
    audio::law_pcm_bytes(samples);
    law_native_round_trip(audio::pcm_bytes(samples));
}

/// What is to be done about audio that came as base64, once decoded.
pub fn play_decoded(encoding: AudioEncoding, bytes: Option<&[u8]>) -> (res: StreamAction)
    ensures
        res@ == media_action(
            encoding,
            match bytes {
                Some(b) => Some(b@),
                None => None,
            },
        ),
{
    match bytes {
        Some(b) => StreamAction::Play(decode_samples(encoding, b)),
        None => StreamAction::Ignore,
    }
}

/// What is to be done about a message; frames of audio are counted.
pub fn receive(
    mode: StreamMode,
    encoding: AudioEncoding,
    message: ClientMessage,
    metrics: &mut Metrics,
) -> (res: StreamAction)
    requires
        old(metrics).wf(),
    ensures
        final(metrics).wf(),
        res@ == action_for(mode, encoding, message),
        final(metrics)@ == if res@ is Play {
            MetricsView {
                ws_frames_received: metrics::more(old(metrics)@.ws_frames_received),
                ..old(metrics)@
            }
        } else {
            old(metrics)@
        },
{
    let action: StreamAction = match message {
        ClientMessage::Binary(frame) => match mode {
            StreamMode::Native => match decode_native_audio(frame.as_slice()) {
                Some(bytes) => StreamAction::Play(audio::bytes_to_pcm16(bytes)),
                None => StreamAction::Ignore,
            },
            StreamMode::Twilio => StreamAction::Ignore,
        },
        ClientMessage::Event(event) => match event {
            ClientEvent::Media { stream_sid: _, media } => match base64_decode(
                media.payload.as_str(),
            ) {
                Some(bytes) => play_decoded(encoding, Some(bytes.as_slice())),
                None => play_decoded(encoding, None),
            },
            ClientEvent::Mark { stream_sid, mark } => StreamAction::Mark {
                stream_sid,
                name: mark.name,
            },
            ClientEvent::Clear { stream_sid: _ } => StreamAction::Clear,
        },
        ClientMessage::Other => StreamAction::Ignore,
        ClientMessage::Close => StreamAction::Close,
    };
    match &action {
        StreamAction::Play(_) => metrics.inc_ws_frames_received(),
        _ => {},
    }
    action
}

// ── More laws ──

/// A binary frame is the byte 1, the length of the audio as a number of two bytes with the
/// high one first, and the audio; there is one for all audio of up to 65535 bytes.
pub proof fn law_native_layout(audio: Seq<u8>)
    ensures
        native_frame(audio) is Some <==> audio.len() <= 65535,
        native_frame(audio) matches Some(frame) ==> {
            &&& frame.len() == 3 + audio.len()
            &&& frame[0] == 1
            &&& 256 * frame[1] + frame[2] == audio.len()
            &&& frame.skip(3) == audio
        },
{
    if audio.len() <= 65535 {
        let frame = native_frame(audio)->0;
        assert(frame[1] == (audio.len() / 256) as u8 && frame[2] == (audio.len() % 256) as u8);
        assert(frame.skip(3) =~= audio);
    }
}

/// The audio of a binary frame is as long as the frame says, whatever comes behind it. A
/// frame that is shorter than it says holds none, and one that begins with another byte
/// than 1 does not either.
pub proof fn law_native_read(tag: u8, high: u8, low: u8, audio: Seq<u8>, rest: Seq<u8>)
    ensures
        tag == 1 && audio.len() == 256 * high + low ==> native_audio(
            seq![tag, high, low] + audio + rest,
        ) == Some(audio),
        audio.len() < 256 * high + low ==> native_audio(seq![tag, high, low] + audio) is None,
        tag != 1 ==> native_audio(seq![tag, high, low] + audio) is None,
        audio.len() < 3 ==> native_audio(audio) is None,
{
    let start = seq![tag, high, low];
    let frame = start + audio + rest;
    assert(frame[0] == tag && frame[1] == high && frame[2] == low);
    let cut = start + audio;
    assert(cut[0] == tag && cut[1] == high && cut[2] == low);
    if audio.len() == 256 * high + low {
        assert(frame.subrange(3, 3 + audio.len() as int) =~= audio);
    }
}

/// What a client sends leads to what it asks for: marks and clears count in either mode, and
/// the end of the connection closes it. Binary frames count in binary mode only. Nothing is
/// done about what is no audio.
pub proof fn law_received(mode: StreamMode, encoding: AudioEncoding, message: ClientMessage)
    ensures
        message is Close <==> action_for(mode, encoding, message) is Close,
        message is Other ==> action_for(mode, encoding, message) is Ignore,
        message matches ClientMessage::Event(ClientEvent::Mark { stream_sid, mark }) ==> action_for(
            mode,
            encoding,
            message,
        ) == (StreamActionView::Mark { stream_sid: stream_sid@, name: mark.name@ }),
        action_for(mode, encoding, message) is Clear <==> (message matches ClientMessage::Event(
            event,
        ) && event is Clear),
        message matches ClientMessage::Event(ClientEvent::Media { stream_sid, media }) ==> {
            &&& base64_bytes(media.payload@) is None ==> action_for(
                mode,
                encoding,
                message,
            ) is Ignore
            &&& base64_bytes(media.payload@) matches Some(bytes) ==> action_for(
                mode,
                encoding,
                message,
            ) == StreamActionView::Play(decoded(encoding, bytes))
        },
        message matches ClientMessage::Binary(frame) ==> {
            &&& mode == StreamMode::Twilio ==> action_for(mode, encoding, message) is Ignore
            &&& mode == StreamMode::Native && native_audio(frame@) is None ==> action_for(
                mode,
                encoding,
                message,
            ) is Ignore
            &&& mode == StreamMode::Native && native_audio(frame@) is Some ==> action_for(
                mode,
                encoding,
                message,
            ) == StreamActionView::Play(audio::bytes_pcm(native_audio(frame@)->0))
        },
{
}

/// In binary mode a frame holds the samples as they are, whatever encoding is configured,
/// as long as two bytes hold its length; nothing about the stream changes.
pub proof fn law_native_stream(s: StreamView, samples: Seq<i16>)
    requires
        s.mode == StreamMode::Native,
    ensures
        after_frame(s, samples) == s,
        frame_of(s, samples) is Some <==> 2 * samples.len() <= 65535,
        frame_of(s, samples) matches Some(frame) ==> (frame matches OutFrameView::Binary(bytes)
            && native_audio(bytes) matches Some(audio) && audio::bytes_pcm(audio) == samples),
{
    audio::law_pcm_bytes(samples);
    if 2 * samples.len() <= 65535 {
        law_native_round_trip(audio::pcm_bytes(samples));
    }
}

/// Mu-law audio takes a byte for each sample, and linear audio two, the low one first.
pub proof fn law_coded(samples: Seq<i16>, i: int)
    requires
        0 <= i < samples.len(),
    ensures
        coded(AudioEncoding::Mulaw, samples).len() == samples.len(),
        coded(AudioEncoding::Mulaw, samples)[i] == audio::mulaw_of(samples[i]),
        ({
            let bytes = coded(AudioEncoding::L16, samples);
            let bits = bytes[2 * i] + 256 * bytes[2 * i + 1];
            &&& bytes.len() == 2 * samples.len()
            &&& bits == samples[i] || bits == samples[i] + 65536
        }),
{
    audio::law_little_endian(samples, i);
}

/// A connection opens as `Call` in version `1.0.0`. Streaming begins under the id of the
/// call with one mono track, that of the caller, in the encoding and at the rate of the
/// stream.
pub proof fn law_opening(call_id: Seq<char>, encoding: AudioEncoding, sample_rate: u32)
    ensures
        connected_view() == (ServerEventView::Connected {
            protocol: seq!['C', 'a', 'l', 'l'],
            version: seq!['1', '.', '0', '.', '0'],
        }),
        start_view(call_id, encoding, sample_rate) matches ServerEventView::Start {
            stream_sid,
            call_sid,
            tracks,
            encoding: name,
            sample_rate: rate,
            channels,
        } && {
            &&& stream_sid == call_id
            &&& call_sid == call_id
            &&& tracks == seq![seq!['i', 'n', 'b', 'o', 'u', 'n', 'd']]
            &&& config::encoding_named(name) == Some(encoding)
            &&& rate == sample_rate
            &&& channels == 1
        },
{
    reveal_strlit("Call");
    reveal_strlit("1.0.0");
    reveal_strlit("inbound");
    assert("Call"@ =~= seq!['C', 'a', 'l', 'l']);
    assert("1.0.0"@ =~= seq!['1', '.', '0', '.', '0']);
    assert("inbound"@ =~= seq!['i', 'n', 'b', 'o', 'u', 'n', 'd']);
    config::law_encoding_names(encoding);
}

} // verus!
