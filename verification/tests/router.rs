use xbridge::api::{CreateCallRequest, DtmfRequest, PlayRequest};
use xbridge::call::{CallDirection, CallInfo, CallStatus};
use xbridge::config::{
    AuthConfig, Config, ListenConfig, RateLimitConfig, SipConfig, SipTransport, StreamConfig,
    TlsConfig, WebhookConfig,
};
use xbridge::metrics::DurationSums;
use xbridge::rate_limit::RateLimiter;
use xbridge::router::{
    create_call, decoded_samples, find_call, finish_play, get_call, hangup_call, health_check,
    hold_call, inline_samples, is_authorized, is_public, let_in, list_calls, metrics_report,
    operation_result, play_call, play_source, resume_call, route_call, stop_play, url_samples,
    ws_url, ApiError, CallRoute, DtmfRun, DtmfStep, PlayLoop, PlaySource, PlayStep,
};
use xbridge::state::AppState;
use xbridge::trunk::config::{PeerConfig, ServerConfig};
use xbridge::webhook::WebhookEvent;

fn test_config() -> Config {
    Config {
        listen: ListenConfig {
            http: "0.0.0.0:8080".into(),
        },
        sip: SipConfig {
            username: "test".into(),
            password: "test".into(),
            host: "sip.test.com".into(),
            transport: SipTransport::Udp,
            rtp_port_min: 10000,
            rtp_port_max: 20000,
            srtp: false,
            stun_server: None,
        },
        trunks: Vec::new(),
        webhook: WebhookConfig {
            url: "http://localhost:9090/events".into(),
            timeout: "5s".into(),
            retry: 1,
        },
        stream: StreamConfig::default(),
        auth: AuthConfig { api_key: None },
        tls: TlsConfig {
            cert: None,
            key: None,
        },
        rate_limit: RateLimitConfig {
            requests_per_second: None,
        },
        server: None,
    }
}

fn test_state() -> AppState {
    AppState::new(test_config())
}

fn sample_call(id: &str) -> CallInfo {
    CallInfo {
        call_id: id.into(),
        from: "+15551234567".into(),
        to: "+15559876543".into(),
        direction: CallDirection::Inbound,
        status: CallStatus::InProgress,
        peer: None,
    }
}

fn insert_controlled_call(state: &mut AppState, id: &str) {
    state.insert_call(sample_call(id));
    state.xphone_calls.insert(id, ());
}

fn call_request(trunk: Option<&str>, peer: Option<&str>) -> CreateCallRequest {
    CreateCallRequest {
        to: "+15551234567".into(),
        from: "+15559876543".into(),
        webhook_url: None,
        stream: None,
        trunk: trunk.map(String::from),
        peer: peer.map(String::from),
    }
}

fn peer(name: &str, host: Option<&str>) -> PeerConfig {
    PeerConfig {
        name: name.into(),
        host: host.map(String::from),
        hosts: Vec::new(),
        port: 5060,
        auth: None,
        codecs: Vec::new(),
        rtp_address: None,
    }
}

fn server_config(peers: Vec<PeerConfig>) -> ServerConfig {
    ServerConfig {
        listen: "0.0.0.0:5080".into(),
        peers,
        rtp_port_min: 0,
        rtp_port_max: 0,
        rtp_address: None,
    }
}

fn play_request(url: Option<&str>, audio: Option<&str>) -> PlayRequest {
    PlayRequest {
        url: url.map(String::from),
        audio: audio.map(String::from),
        loop_count: 1,
    }
}

// ── Health and metrics ──

#[test]
fn health_returns_starting_when_phone_not_connected() {
    let body = health_check(&test_state());
    assert_eq!(body.status, "starting");
    assert_eq!(body.sip_trunks, 0);
    assert!(!body.sip_server);
    assert_eq!(body.active_calls, 0);
}

#[test]
fn health_reports_active_call_count() {
    let mut state = test_state();
    state.insert_call(sample_call("call_001"));
    assert_eq!(health_check(&state).active_calls, 1);
}

#[test]
fn health_is_ok_with_a_trunk_or_the_trunk_host() {
    let mut state = test_state();
    state.phones.insert("default", ());
    let body = health_check(&state);
    assert_eq!(body.status, "ok");
    assert_eq!(body.sip_trunks, 1);

    let mut state = test_state();
    state.server_running = true;
    let body = health_check(&state);
    assert_eq!(body.status, "ok");
    assert!(body.sip_server);
}

#[test]
fn metrics_returns_prometheus_format() {
    let mut state = test_state();
    state.insert_call(sample_call("c1"));
    state.insert_call(sample_call("c2"));
    let sums = DurationSums {
        call: "0".into(),
        http_request: "0".into(),
        webhook: "0".into(),
    };
    let body = metrics_report(&state, &sums);
    assert!(body.contains("xbridge_active_calls 2\n"));
    assert!(body.contains("xbridge_calls_total"));
    assert!(body.contains("xbridge_ws_connections"));
    assert!(body.contains("xbridge_webhooks_total"));
}

// ── Calls ──

#[test]
fn router_list_calls_empty() {
    assert!(list_calls(&test_state()).calls.is_empty());
}

#[test]
fn list_calls_returns_active_calls() {
    let mut state = test_state();
    state.insert_call(sample_call("c1"));
    state.insert_call(sample_call("c2"));
    state.insert_call(sample_call("c1"));
    let mut ids: Vec<String> = list_calls(&state)
        .calls
        .iter()
        .map(|c| c.call_id.clone())
        .collect();
    ids.sort();
    assert_eq!(ids, vec!["c1", "c2"]);
}

#[test]
fn router_get_call_not_found() {
    let err = get_call(&test_state(), "nonexistent").unwrap_err();
    assert_eq!(err, ApiError::CallNotFound);
    assert_eq!(err.status(), 404);
}

#[test]
fn get_call_returns_details() {
    let mut state = test_state();
    state.insert_call(sample_call("c1"));
    assert_eq!(get_call(&state, "c1"), Ok(sample_call("c1")));
}

#[test]
fn hangup_not_found() {
    let done = hangup_call(&mut test_state(), "nonexistent");
    assert!(!done.end_call);
    assert!(!done.cancel_play);
    assert_eq!(done.result.unwrap_err().status(), 404);
    assert_eq!(done.http_status, 404);
}

#[test]
fn hangup_removes_call_and_returns_204() {
    let mut state = test_state();
    state.insert_call(sample_call("c1"));
    state.insert_call(sample_call("c2"));
    let done = hangup_call(&mut state, "c1");
    assert_eq!(done.result, Ok(()));
    assert_eq!(done.http_status, 204);
    assert!(get_call(&state, "c1").is_err());
    assert!(get_call(&state, "c2").is_ok());
}

#[test]
fn hangup_ends_xphone_call() {
    let mut state = test_state();
    insert_controlled_call(&mut state, "c1");
    let done = hangup_call(&mut state, "c1");
    assert!(done.end_call);
    assert_eq!(done.result, Ok(()));
    assert!(state.calls.get("c1").is_none());
    assert!(state.xphone_calls.get("c1").is_none());
    assert!(hangup_call(&mut state, "c1").result.is_err());
}

#[test]
fn hangup_cancels_playback_and_forgets_the_stream() {
    let mut state = test_state();
    insert_controlled_call(&mut state, "c1");
    state.ws_senders.insert("c1", ());
    state.plays.insert("c1", "play_0".into());
    let done = hangup_call(&mut state, "c1");
    assert!(done.cancel_play);
    assert!(state.ws_senders.is_empty());
    assert!(state.plays.is_empty());
}

#[test]
fn hangup_of_a_call_that_is_only_controlled() {
    let mut state = test_state();
    state.xphone_calls.insert("c1", ());
    state.plays.insert("c1", "play_0".into());
    let done = hangup_call(&mut state, "c1");
    assert!(done.end_call);
    assert!(!done.cancel_play);
    assert_eq!(done.result, Err(ApiError::CallNotFound));
    assert!(!state.xphone_calls.contains("c1"));
    assert!(state.plays.contains("c1"));
}

#[test]
fn router_ws_rejects_unknown_call() {
    assert_eq!(
        find_call(&test_state(), "nonexistent").unwrap_err().status(),
        404
    );
}

#[test]
fn ws_upgrade_success() {
    let mut state = test_state();
    insert_controlled_call(&mut state, "c1");
    assert_eq!(find_call(&state, "c1"), Ok(()));
}

// ── Placing calls ──

#[test]
fn create_call_returns_503_when_not_connected() {
    let err = route_call(&test_state(), &call_request(None, None)).unwrap_err();
    assert_eq!(err, ApiError::NoTrunkConnected);
    assert_eq!(err.status(), 503);
}

#[test]
fn create_call_unknown_trunk_returns_404() {
    let mut state = test_state();
    state.phones.insert("default", ());
    let err = route_call(&state, &call_request(Some("nonexistent"), None)).unwrap_err();
    assert_eq!(err, ApiError::TrunkNotFound);
    assert_eq!(err.status(), 404);
}

#[test]
fn create_call_goes_through_the_default_trunk() {
    let mut state = test_state();
    state.phones.insert("default", ());
    state.phones.insert("backup", ());
    assert_eq!(
        route_call(&state, &call_request(None, None)),
        Ok(CallRoute::Trunk("default".into()))
    );
    assert_eq!(
        route_call(&state, &call_request(Some("backup"), None)),
        Ok(CallRoute::Trunk("backup".into()))
    );
}

#[test]
fn create_call_to_peer_no_server_config_returns_404() {
    let err = route_call(&test_state(), &call_request(None, Some("office-pbx"))).unwrap_err();
    assert_eq!(err, ApiError::PeerNotFound);
    assert_eq!(err.status(), 404);
}

#[test]
fn create_call_to_peer_unknown_peer_returns_404() {
    let mut config = test_config();
    config.server = Some(server_config(Vec::new()));
    let err = route_call(
        &AppState::new(config),
        &call_request(None, Some("nonexistent")),
    )
    .unwrap_err();
    assert_eq!(err.status(), 404);
}

#[test]
fn create_call_to_peer_trunk_not_running_returns_503() {
    let mut config = test_config();
    config.server = Some(server_config(vec![peer("office-pbx", Some("192.168.1.10"))]));
    let err = route_call(
        &AppState::new(config),
        &call_request(None, Some("office-pbx")),
    )
    .unwrap_err();
    assert_eq!(err, ApiError::ServerNotRunning);
    assert_eq!(err.status(), 503);
}

#[test]
fn create_call_to_peer_without_host_returns_422() {
    let mut config = test_config();
    config.server = Some(server_config(vec![peer("office-pbx", None)]));
    let mut state = AppState::new(config);
    state.server_running = true;
    let err = route_call(&state, &call_request(None, Some("office-pbx"))).unwrap_err();
    assert_eq!(err, ApiError::PeerHasNoHost);
    assert_eq!(err.status(), 422);
}

#[test]
fn create_call_to_peer_counts_before_the_trunk() {
    let mut config = test_config();
    config.server = Some(server_config(vec![
        peer("office-pbx", Some("192.168.1.10")),
        peer("office-pbx", None),
    ]));
    let mut state = AppState::new(config);
    state.server_running = true;
    state.phones.insert("default", ());
    assert_eq!(
        route_call(&state, &call_request(Some("default"), Some("office-pbx"))),
        Ok(CallRoute::Peer("office-pbx".into()))
    );
}

#[test]
fn create_call_keeps_counts_and_answers() {
    let mut state = test_state();
    let mut req = call_request(None, None);
    req.webhook_url = Some("http://elsewhere/events".into());
    let res = create_call(
        &mut state,
        &req,
        &CallRoute::Trunk("default".into()),
        Some("c9"),
        Some("bridge.example.com"),
    )
    .unwrap();
    assert_eq!(res.http_status, 201);
    let res = res.response;
    assert_eq!(res.call_id, "c9");
    assert_eq!(res.status, CallStatus::Dialing);
    assert_eq!(res.ws_url, "ws://bridge.example.com/ws/c9");
    assert_eq!(
        get_call(&state, "c9"),
        Ok(CallInfo {
            call_id: "c9".into(),
            from: "+15559876543".into(),
            to: "+15551234567".into(),
            direction: CallDirection::Outbound,
            status: CallStatus::Dialing,
            peer: None,
        })
    );
    assert_eq!(find_call(&state, "c9"), Ok(()));
    assert_eq!(state.metrics.calls_outbound, 1);
    assert_eq!(state.event_url("c9"), "http://elsewhere/events");
    assert_eq!(state.event_url("c8"), "http://localhost:9090/events");
}

#[test]
fn create_call_to_peer_names_the_peer() {
    let mut state = test_state();
    let res = create_call(
        &mut state,
        &call_request(None, Some("office-pbx")),
        &CallRoute::Peer("office-pbx".into()),
        Some("c9"),
        None,
    )
    .unwrap();
    assert_eq!(res.response.ws_url, "ws://0.0.0.0:8080/ws/c9");
    assert_eq!(
        get_call(&state, "c9").unwrap().peer,
        Some("office-pbx".into())
    );
}

#[test]
fn create_call_that_cannot_be_dialled_returns_500() {
    let mut state = test_state();
    let err = create_call(
        &mut state,
        &call_request(None, None),
        &CallRoute::Trunk("default".into()),
        None,
        None,
    )
    .unwrap_err();
    assert_eq!(err, ApiError::OperationFailed);
    assert_eq!(err.status(), 500);
    assert!(state.calls.is_empty());
    assert_eq!(state.metrics.calls_outbound, 0);
}

#[test]
fn ws_url_prefers_the_host_of_the_request() {
    assert_eq!(
        ws_url(Some("host:1"), "0.0.0.0:8080", "abc"),
        "ws://host:1/ws/abc"
    );
    assert_eq!(ws_url(None, "0.0.0.0:8080", "abc"), "ws://0.0.0.0:8080/ws/abc");
}

// ── Call control ──

#[test]
fn hold_success() {
    let mut state = test_state();
    insert_controlled_call(&mut state, "c1");
    assert_eq!(find_call(&state, "c1"), Ok(()));
    assert_eq!(
        hold_call(&mut state, "c1", true),
        Ok(WebhookEvent::Hold {
            call_id: "c1".into()
        })
    );
    assert_eq!(state.calls.get("c1").unwrap().status, CallStatus::OnHold);
}

#[test]
fn hold_error_returns_500() {
    let mut state = test_state();
    insert_controlled_call(&mut state, "c1");
    let err = hold_call(&mut state, "c1", false).unwrap_err();
    assert_eq!(err.status(), 500);
    assert_eq!(
        state.calls.get("c1").unwrap().status,
        CallStatus::InProgress
    );
}

#[test]
fn hold_not_found() {
    assert_eq!(find_call(&test_state(), "nope").unwrap_err().status(), 404);
}

#[test]
fn resume_success() {
    let mut state = test_state();
    insert_controlled_call(&mut state, "c1");
    state.set_status("c1", CallStatus::OnHold);
    assert_eq!(
        resume_call(&mut state, "c1", true),
        Ok(WebhookEvent::Resumed {
            call_id: "c1".into()
        })
    );
    assert_eq!(
        state.calls.get("c1").unwrap().status,
        CallStatus::InProgress
    );
}

#[test]
fn resume_error_returns_500() {
    let mut state = test_state();
    insert_controlled_call(&mut state, "c1");
    state.set_status("c1", CallStatus::OnHold);
    let err = resume_call(&mut state, "c1", false).unwrap_err();
    assert_eq!(err.status(), 500);
    assert_eq!(state.calls.get("c1").unwrap().status, CallStatus::OnHold);
}

#[test]
fn hold_and_resume_leave_the_call_as_it_was() {
    let mut state = test_state();
    insert_controlled_call(&mut state, "c1");
    hold_call(&mut state, "c1", true).unwrap();
    resume_call(&mut state, "c1", true).unwrap();
    assert_eq!(get_call(&state, "c1"), Ok(sample_call("c1")));
}

#[test]
fn operations_succeed_or_return_500() {
    assert_eq!(operation_result(true), Ok(()));
    assert_eq!(operation_result(false).unwrap_err().status(), 500);
}

/// Presses keys on the call `c1`, those in `failing` without success. Gives the keys that
/// were sent, and the answer.
fn press(state: &AppState, digits: &str, failing: &str) -> (Vec<String>, Result<(), ApiError>) {
    let req = DtmfRequest {
        digits: digits.into(),
    };
    let mut run = match DtmfRun::start(state, "c1", &req) {
        Ok(run) => run,
        Err(e) => return (Vec::new(), Err(e)),
    };
    let mut sent = Vec::new();
    let mut last_ok = true;
    loop {
        match run.next(last_ok) {
            DtmfStep::Send(key) => {
                last_ok = !failing.contains(&key);
                sent.push(key);
            }
            DtmfStep::Done(result) => return (sent, result),
        }
    }
}

#[test]
fn dtmf_success() {
    let mut state = test_state();
    insert_controlled_call(&mut state, "c1");
    let (sent, result) = press(&state, "1234", "");
    assert_eq!(result, Ok(()));
    assert_eq!(sent, vec!["1", "2", "3", "4"]);
}

#[test]
fn dtmf_sends_star_and_hash() {
    let mut state = test_state();
    insert_controlled_call(&mut state, "c1");
    let (sent, result) = press(&state, "*#0", "");
    assert_eq!(result, Ok(()));
    assert_eq!(sent, vec!["*", "#", "0"]);
}

#[test]
fn dtmf_error_returns_500() {
    let mut state = test_state();
    insert_controlled_call(&mut state, "c1");
    let (sent, result) = press(&state, "1", "1");
    assert_eq!(sent, vec!["1"]);
    assert_eq!(result.unwrap_err().status(), 500);
}

#[test]
fn dtmf_not_found() {
    let req = DtmfRequest { digits: "1".into() };
    let err = DtmfRun::start(&test_state(), "nonexistent", &req).unwrap_err();
    assert_eq!(err, ApiError::CallNotFound);
    assert_eq!(err.status(), 404);
}

#[test]
fn dtmf_stops_at_the_first_failure() {
    let mut state = test_state();
    insert_controlled_call(&mut state, "c1");
    let (sent, result) = press(&state, "12345", "35");
    assert_eq!(sent, vec!["1", "2", "3"]);
    assert_eq!(result, Err(ApiError::OperationFailed));
}

#[test]
fn dtmf_without_keys_succeeds() {
    let mut state = test_state();
    insert_controlled_call(&mut state, "c1");
    assert_eq!(press(&state, "", ""), (Vec::new(), Ok(())));
}

// ── Playing audio ──

#[test]
fn play_base64_success() {
    let mut state = test_state();
    insert_controlled_call(&mut state, "c1");
    // 4 bytes of raw PCM = 2 samples
    let samples = inline_samples("AAH/fw==");
    assert_eq!(samples, Ok(vec![256, 32767]));
    let play = play_call(&mut state, "c1", &samples, true).unwrap();
    assert!(play.play_id.starts_with("play_"));
    assert!(!play.cancel_previous);
    assert_eq!(state.plays.get("c1"), Some(&play.play_id));
}

#[test]
fn play_no_audio_source_returns_400() {
    let req = play_request(None, None);
    let err = play_source(&req).unwrap_err();
    assert_eq!(err, ApiError::NoAudioSource);
    assert_eq!(err.status(), 400);
}

#[test]
fn play_prefers_the_address() {
    let req = play_request(Some("http://host/a.wav"), Some("AAAA"));
    assert_eq!(play_source(&req), Ok(PlaySource::Url("http://host/a.wav")));
    let req = play_request(None, Some("AAAA"));
    assert_eq!(play_source(&req), Ok(PlaySource::Inline("AAAA")));
}

#[test]
fn play_no_pcm_writer_returns_500() {
    let mut state = test_state();
    insert_controlled_call(&mut state, "c1");
    let err = play_call(&mut state, "c1", &inline_samples("AAH/fw=="), false).unwrap_err();
    assert_eq!(err, ApiError::AudioUnavailable);
    assert_eq!(err.status(), 500);
    assert!(state.plays.is_empty());
}

#[test]
fn play_increments_play_id() {
    let mut state = test_state();
    insert_controlled_call(&mut state, "c1");
    let samples = inline_samples("AAAAAA==");
    let first = play_call(&mut state, "c1", &samples, true).unwrap();
    let second = play_call(&mut state, "c1", &samples, true).unwrap();
    assert_eq!(first.play_id, "play_0");
    assert_eq!(second.play_id, "play_1");
    assert!(second.cancel_previous);
}

#[test]
fn play_not_found() {
    let mut state = test_state();
    let err = play_call(&mut state, "nope", &inline_samples("AAAA"), true).unwrap_err();
    assert_eq!(err.status(), 404);
}

#[test]
fn play_rejects_missing_xphone_call() {
    // Call exists in the call registry but cannot be controlled
    let mut state = test_state();
    state.insert_call(sample_call("c1"));
    let err = play_call(&mut state, "c1", &Err(ApiError::NoAudioSource), true).unwrap_err();
    assert_eq!(err.status(), 404);
}

#[test]
fn play_rejects_audio_that_cannot_be_used() {
    let mut state = test_state();
    insert_controlled_call(&mut state, "c1");
    let samples = inline_samples("not base64!");
    assert_eq!(samples, Err(ApiError::InvalidAudio));
    let err = play_call(&mut state, "c1", &samples, false).unwrap_err();
    assert_eq!(err, ApiError::InvalidAudio);
    assert_eq!(err.status(), 400);
}

#[test]
fn decoded_audio_is_little_endian() {
    assert_eq!(decoded_samples(Some(&[1, 0, 0, 0x80, 7])), Ok(vec![1, -32768]));
    assert_eq!(decoded_samples(None), Err(ApiError::InvalidAudio));
}

fn wav(channels: u16, sample_rate: u32, pcm: &[u8]) -> Vec<u8> {
    let mut out = Vec::new();
    out.extend_from_slice(b"RIFF\0\0\0\0WAVEfmt ");
    out.extend_from_slice(&16u32.to_le_bytes());
    out.extend_from_slice(&1u16.to_le_bytes());
    out.extend_from_slice(&channels.to_le_bytes());
    out.extend_from_slice(&sample_rate.to_le_bytes());
    out.extend_from_slice(&[0; 6]);
    out.extend_from_slice(&16u16.to_le_bytes());
    out.extend_from_slice(b"LIST\x03\0\0\0abc\0");
    out.extend_from_slice(b"data");
    out.extend_from_slice(&(pcm.len() as u32).to_le_bytes());
    out.extend_from_slice(pcm);
    out
}

#[test]
fn fetched_audio_has_to_be_a_phone_recording() {
    assert_eq!(
        url_samples(Some(&wav(1, 8000, &[1, 0, 0xFF, 0xFF]))),
        Ok(vec![1, -1])
    );
    assert_eq!(
        url_samples(Some(&wav(2, 8000, &[1, 0]))),
        Err(ApiError::InvalidAudio)
    );
    assert_eq!(
        url_samples(Some(&wav(1, 44100, &[1, 0]))),
        Err(ApiError::InvalidAudio)
    );
    assert_eq!(url_samples(Some(b"no wav")), Err(ApiError::InvalidAudio));
    let err = url_samples(None).unwrap_err();
    assert_eq!(err, ApiError::FetchFailed);
    assert_eq!(err.status(), 500);
}

#[test]
fn stop_play_success() {
    let mut state = test_state();
    state.plays.insert("c1", "play_0".into());
    assert_eq!(stop_play(&mut state, "c1"), Ok(()));
    assert!(!state.plays.contains("c1"));
}

#[test]
fn play_stop_not_found() {
    let err = stop_play(&mut test_state(), "nope").unwrap_err();
    assert_eq!(err, ApiError::PlaybackNotFound);
    assert_eq!(err.status(), 404);
}

#[test]
fn finished_playback_is_told() {
    let mut state = test_state();
    state.plays.insert("c1", "play_0".into());
    assert_eq!(
        finish_play(&mut state, "c1", "play_0", true),
        WebhookEvent::PlayFinished {
            call_id: "c1".into(),
            play_id: "play_0".into(),
            interrupted: true,
        }
    );
    assert!(state.plays.is_empty());
}

#[test]
fn end_of_a_stopped_playback_leaves_the_next_one() {
    let mut state = test_state();
    insert_controlled_call(&mut state, "c1");
    let first = play_call(&mut state, "c1", &Ok(vec![1]), true).unwrap();
    assert_eq!(stop_play(&mut state, "c1"), Ok(()));
    let second = play_call(&mut state, "c1", &Ok(vec![2]), true).unwrap();
    assert_ne!(first.play_id, second.play_id);
    finish_play(&mut state, "c1", &first.play_id, true);
    assert_eq!(stop_play(&mut state, "c1"), Ok(()));
    assert_eq!(stop_play(&mut state, "c1"), Err(ApiError::PlaybackNotFound));
}

#[test]
fn playback_plays_every_round() {
    let mut rounds = PlayLoop::new(3);
    for _ in 0..3 {
        assert_eq!(rounds.next(false, true), PlayStep::Play);
    }
    assert_eq!(rounds.next(false, true), PlayStep::Finished(false));
}

#[test]
fn playback_without_end_goes_on() {
    let mut rounds = PlayLoop::new(0);
    for _ in 0..10_000 {
        assert_eq!(rounds.next(false, true), PlayStep::Play);
    }
    assert_eq!(rounds.next(true, true), PlayStep::Finished(true));
}

#[test]
fn playback_is_interrupted() {
    let mut rounds = PlayLoop::new(2);
    assert_eq!(rounds.next(false, true), PlayStep::Play);
    assert_eq!(rounds.next(true, true), PlayStep::Finished(true));

    let mut rounds = PlayLoop::new(1);
    assert_eq!(rounds.next(false, true), PlayStep::Play);
    assert_eq!(rounds.next(false, false), PlayStep::Finished(true));

    let mut rounds = PlayLoop::new(1);
    assert_eq!(rounds.next(false, true), PlayStep::Play);
    assert_eq!(rounds.next(true, true), PlayStep::Finished(false));
}

// ── Admission ──

fn test_state_with_auth(api_key: &str) -> AppState {
    let mut config = test_config();
    config.auth = AuthConfig {
        api_key: Some(api_key.into()),
    };
    AppState::new(config)
}

#[test]
fn auth_rejects_without_header() {
    let mut state = test_state_with_auth("secret-key");
    let err = let_in(&mut state, &mut None, 0, "/v1/calls", None).unwrap_err();
    assert_eq!(err, ApiError::Unauthorized);
    assert_eq!(err.status(), 401);
}

#[test]
fn router_auth_rejects_wrong_key() {
    let mut state = test_state_with_auth("secret-key");
    for header in ["Bearer wrong-key", "Bearer secret-key ", "secret-key", "bearer secret-key"] {
        let err = let_in(&mut state, &mut None, 0, "/v1/calls", Some(header)).unwrap_err();
        assert_eq!(err.status(), 401);
    }
}

#[test]
fn auth_accepts_correct_key() {
    let mut state = test_state_with_auth("secret-key");
    assert_eq!(
        let_in(&mut state, &mut None, 0, "/v1/calls", Some("Bearer secret-key")),
        Ok(())
    );
}

#[test]
fn auth_does_not_protect_health() {
    let mut state = test_state_with_auth("secret-key");
    assert_eq!(let_in(&mut state, &mut None, 0, "/health", None), Ok(()));
    assert_eq!(let_in(&mut state, &mut None, 0, "/metrics", None), Ok(()));
    assert!(is_public("/health"));
    assert!(is_public("/metrics"));
    assert!(!is_public("/v1/calls"));
}

#[test]
fn no_auth_config_allows_all() {
    assert_eq!(
        let_in(&mut test_state(), &mut None, 0, "/v1/calls", None),
        Ok(())
    );
    assert!(is_authorized(&None, None));
}

#[test]
fn rate_limit_returns_429() {
    let mut state = test_state();
    let mut limiter = Some(RateLimiter::new(1, 0)); // 1 rps, burst = 2
    for _ in 0..2 {
        assert_eq!(let_in(&mut state, &mut limiter, 0, "/v1/calls", None), Ok(()));
    }
    let err = let_in(&mut state, &mut limiter, 0, "/v1/calls", None).unwrap_err();
    assert_eq!(err, ApiError::RateLimited);
    assert_eq!(err.status(), 429);
    assert_eq!(state.metrics.rate_limit_rejections, 1);
}

#[test]
fn rate_limit_does_not_affect_health() {
    let mut state = test_state();
    let mut limiter = Some(RateLimiter::new(1, 0));
    for _ in 0..3 {
        let _ = let_in(&mut state, &mut limiter, 0, "/v1/calls", None);
    }
    assert_eq!(let_in(&mut state, &mut limiter, 0, "/health", None), Ok(()));
}

#[test]
fn rate_limit_counts_before_the_key() {
    let mut state = test_state_with_auth("secret-key");
    let mut limiter = Some(RateLimiter::new(0, 0));
    assert_eq!(
        let_in(&mut state, &mut limiter, 0, "/v1/calls", None),
        Err(ApiError::RateLimited)
    );
}

#[test]
fn errors_say_what_is_wrong() {
    let all = [
        (ApiError::NoAudioSource, 400, "No audio source"),
        (ApiError::InvalidAudio, 400, "Invalid audio"),
        (ApiError::Unauthorized, 401, "Missing or invalid authorization"),
        (ApiError::CallNotFound, 404, "Call not found"),
        (ApiError::TrunkNotFound, 404, "Trunk not found"),
        (ApiError::PeerNotFound, 404, "Peer not found"),
        (ApiError::PlaybackNotFound, 404, "No active playback"),
        (ApiError::PeerHasNoHost, 422, "Peer has no host configured"),
        (ApiError::RateLimited, 429, "Rate limit exceeded"),
        (ApiError::OperationFailed, 500, "Call operation failed"),
        (ApiError::AudioUnavailable, 500, "Audio writer not available"),
        (ApiError::FetchFailed, 500, "Audio fetch failed"),
        (ApiError::NoTrunkConnected, 503, "No SIP trunk connected"),
        (ApiError::ServerNotRunning, 503, "Trunk host server not running"),
    ];
    for (error, status, message) in all {
        assert_eq!(error.status(), status);
        assert_eq!(error.message(), message);
    }
}
