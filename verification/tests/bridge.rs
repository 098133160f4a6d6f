use xbridge::api::{CreateCallRequest, IncomingCallAction, IncomingCallResponse};
use xbridge::bridge::{
    call_ended, call_state_changed, decide_incoming, end_reason_str, incoming_accepted,
    incoming_webhook, key_pressed, CallState, EndReason, IncomingDecision,
};
use xbridge::call::{CallDirection, CallInfo, CallStatus};
use xbridge::config::{
    AuthConfig, Config, ListenConfig, RateLimitConfig, SipConfig, StreamConfig, TlsConfig,
    WebhookConfig,
};
use xbridge::router::{create_call, hold_call, resume_call, CallRoute};
use xbridge::state::AppState;
use xbridge::webhook::WebhookEvent;
use xbridge::webhook_client::WebhookError;
use xbridge::ws::{DtmfPayload, ServerEvent};

fn test_state() -> AppState {
    AppState::new(Config {
        listen: ListenConfig {
            http: "0.0.0.0:8080".into(),
        },
        sip: SipConfig::default(),
        trunks: Vec::new(),
        webhook: WebhookConfig {
            url: "http://localhost:9090/events".into(),
            timeout: "5s".into(),
            retry: 1,
        },
        stream: StreamConfig::default(),
        auth: AuthConfig { api_key: None },
        tls: TlsConfig {
            cert: None,
            key: None,
        },
        rate_limit: RateLimitConfig {
            requests_per_second: None,
        },
        server: None,
    })
}

fn place(state: &mut AppState, id: &str, webhook_url: Option<&str>) {
    let req = CreateCallRequest {
        to: "+15551234567".into(),
        from: "+15559876543".into(),
        webhook_url: webhook_url.map(String::from),
        stream: None,
        trunk: None,
        peer: None,
    };
    create_call(
        state,
        &req,
        &CallRoute::Trunk("default".into()),
        Some(id),
        None,
    )
    .unwrap();
}

fn answered(id: &str) -> Option<WebhookEvent> {
    Some(WebhookEvent::Answered { call_id: id.into() })
}

#[test]
fn outbound_call_rings_and_is_answered() {
    let mut state = test_state();
    place(&mut state, "c1", None);
    assert_eq!(state.calls.get("c1").unwrap().status, CallStatus::Dialing);
    assert_eq!(
        call_state_changed(&mut state, "c1", CallState::RemoteRinging),
        Some(WebhookEvent::Ringing {
            call_id: "c1".into(),
            from: "+15559876543".into(),
            to: "+15551234567".into(),
        })
    );
    assert_eq!(state.calls.get("c1").unwrap().status, CallStatus::Ringing);
    assert_eq!(
        call_state_changed(&mut state, "c1", CallState::Active),
        answered("c1")
    );
    assert_eq!(
        state.calls.get("c1").unwrap().status,
        CallStatus::InProgress
    );
}

#[test]
fn call_is_answered_once() {
    let mut state = test_state();
    place(&mut state, "c1", None);
    assert_eq!(
        call_state_changed(&mut state, "c1", CallState::Active),
        answered("c1")
    );
    hold_call(&mut state, "c1", true).unwrap();
    assert_eq!(call_state_changed(&mut state, "c1", CallState::Active), None);
    assert_eq!(state.calls.get("c1").unwrap().status, CallStatus::OnHold);
    resume_call(&mut state, "c1", true).unwrap();
    assert_eq!(call_state_changed(&mut state, "c1", CallState::Active), None);
}

#[test]
fn other_news_changes_nothing() {
    let mut state = test_state();
    place(&mut state, "c1", None);
    assert_eq!(call_state_changed(&mut state, "c1", CallState::Other), None);
    assert_eq!(state.calls.get("c1").unwrap().status, CallStatus::Dialing);
}

#[test]
fn news_of_unknown_calls_is_ignored() {
    let mut state = test_state();
    for news in [CallState::RemoteRinging, CallState::Active, CallState::Other] {
        assert_eq!(call_state_changed(&mut state, "nope", news), None);
    }
    assert!(state.calls.is_empty());
}

#[test]
fn ended_call_is_told_and_forgotten() {
    let mut state = test_state();
    place(&mut state, "c1", Some("http://elsewhere/events"));
    place(&mut state, "c2", None);
    let (event, url) = call_ended(&mut state, "c1", EndReason::Remote, 42_999_999_999);
    assert_eq!(
        event,
        WebhookEvent::Ended {
            call_id: "c1".into(),
            reason: "normal".into(),
            duration: 42,
        }
    );
    assert_eq!(url, "http://elsewhere/events");
    assert!(!state.calls.contains("c1"));
    assert!(!state.xphone_calls.contains("c1"));
    assert!(state.calls.contains("c2"));
    assert_eq!(state.event_url("c1"), "http://localhost:9090/events");
    assert_eq!(state.metrics.call_duration.count, 1);
}

#[test]
fn end_reasons_have_names() {
    let all = [
        (EndReason::Local, "local"),
        (EndReason::Remote, "normal"),
        (EndReason::Transfer, "transfer"),
        (EndReason::Rejected, "rejected"),
        (EndReason::Cancelled, "cancelled"),
        (EndReason::Timeout, "timeout"),
        (EndReason::Error, "error"),
    ];
    for (reason, name) in all {
        assert_eq!(end_reason_str(reason), name);
    }
}

#[test]
fn key_presses_are_told() {
    let mut state = test_state();
    let told = key_pressed(&state, "c1", "#");
    assert_eq!(told.to_client, None);
    assert_eq!(
        told.to_application,
        WebhookEvent::Dtmf {
            call_id: "c1".into(),
            digit: "#".into(),
        }
    );
    state.ws_senders.insert("c1", ());
    assert_eq!(
        key_pressed(&state, "c1", "#").to_client,
        Some(ServerEvent::Dtmf {
            stream_sid: "c1".into(),
            dtmf: DtmfPayload { digit: "#".into() },
        })
    );
}

fn response(
    action: IncomingCallAction,
    reason: Option<&str>,
) -> Result<IncomingCallResponse, WebhookError> {
    Ok(IncomingCallResponse {
        action,
        stream: None,
        reason: reason.map(String::from),
    })
}

#[test]
fn application_decides_on_incoming_calls() {
    assert_eq!(
        decide_incoming(&response(IncomingCallAction::Accept, Some("busy"))),
        IncomingDecision::Accept
    );
    for (reason, code, told) in [
        (None, 486, "busy"),
        (Some("busy"), 486, "busy"),
        (Some("declined"), 603, "declined"),
        (Some("lunch"), 486, "lunch"),
    ] {
        assert_eq!(
            decide_incoming(&response(IncomingCallAction::Reject, reason)),
            IncomingDecision::Reject {
                code,
                reason: told.into(),
            }
        );
    }
}

#[test]
fn incoming_call_without_an_answer_is_rejected() {
    for error in [WebhookError::Status(500), WebhookError::Http("timeout".into())] {
        assert_eq!(
            decide_incoming(&Err(error)),
            IncomingDecision::Reject {
                code: 503,
                reason: "service unavailable".into(),
            }
        );
    }
}

#[test]
fn accepted_call_is_kept_and_counted() {
    let mut state = test_state();
    let hook = incoming_webhook("c1", "1001", "1002", Some("office-pbx".into()));
    assert_eq!(hook.direction, CallDirection::Inbound);
    assert_eq!(
        incoming_accepted(&mut state, &hook, true, true),
        answered("c1")
    );
    assert_eq!(
        state.calls.get("c1"),
        Some(&CallInfo {
            call_id: "c1".into(),
            from: "1001".into(),
            to: "1002".into(),
            direction: CallDirection::Inbound,
            status: CallStatus::InProgress,
            peer: Some("office-pbx".into()),
        })
    );
    assert!(state.xphone_calls.contains("c1"));
    assert_eq!(state.metrics.calls_inbound, 1);
    assert_eq!(state.metrics.trunk_calls_inbound, 1);

    let hook = incoming_webhook("c2", "1001", "1002", None);
    incoming_accepted(&mut state, &hook, false, true);
    assert_eq!(state.metrics.calls_inbound, 2);
    assert_eq!(state.metrics.trunk_calls_inbound, 1);

    call_ended(&mut state, "c1", EndReason::Local, 0);
    call_ended(&mut state, "c2", EndReason::Local, 0);
    assert!(state.calls.is_empty());
    assert!(state.xphone_calls.is_empty());
}

#[test]
fn call_that_could_not_be_answered_is_not_kept() {
    let mut state = test_state();
    let hook = incoming_webhook("c1", "1001", "1002", None);
    assert_eq!(incoming_accepted(&mut state, &hook, false, false), None);
    assert!(state.calls.is_empty());
    assert!(state.xphone_calls.is_empty());
    assert_eq!(state.metrics.calls_inbound, 0);
}
