use xbridge::api::{default_loop_count, IncomingCallAction};
use xbridge::call::{CallDirection, CallInfo, CallStatus};

#[test]
fn call_status_serializes_snake_case() {
    assert_eq!(CallStatus::InProgress.as_str(), "in_progress");
    assert_eq!(CallStatus::OnHold.as_str(), "on_hold");
    assert_eq!(CallStatus::Dialing.as_str(), "dialing");
    assert_eq!(CallStatus::Ringing.as_str(), "ringing");
    assert_eq!(CallStatus::Completed.as_str(), "completed");
}

#[test]
fn call_status_deserializes_snake_case() {
    assert_eq!(
        CallStatus::from_name("in_progress"),
        Some(CallStatus::InProgress)
    );
    assert_eq!(CallStatus::from_name("on_hold"), Some(CallStatus::OnHold));
    for status in [
        CallStatus::Dialing,
        CallStatus::Ringing,
        CallStatus::InProgress,
        CallStatus::OnHold,
        CallStatus::Completed,
    ] {
        assert_eq!(CallStatus::from_name(status.as_str()), Some(status));
    }
    assert_eq!(CallStatus::from_name("InProgress"), None);
}

#[test]
fn call_direction_roundtrip() {
    for dir in [CallDirection::Inbound, CallDirection::Outbound] {
        assert_eq!(CallDirection::from_name(dir.as_str()), Some(dir));
    }
    assert_eq!(CallDirection::Inbound.as_str(), "inbound");
    assert_eq!(CallDirection::Outbound.as_str(), "outbound");
    assert_eq!(CallDirection::from_name("in"), None);
}

#[test]
fn incoming_call_actions_have_names() {
    for action in [IncomingCallAction::Accept, IncomingCallAction::Reject] {
        assert_eq!(IncomingCallAction::from_name(action.as_str()), Some(action));
    }
    assert_eq!(IncomingCallAction::Accept.as_str(), "accept");
    assert_eq!(IncomingCallAction::from_name("ignore"), None);
}

#[test]
fn audio_is_played_once_by_default() {
    assert_eq!(default_loop_count(), 1);
}

#[test]
fn calls_can_be_copied() {
    let info = CallInfo {
        call_id: "abc123".into(),
        from: "+15551234567".into(),
        to: "+15559876543".into(),
        direction: CallDirection::Inbound,
        status: CallStatus::InProgress,
        peer: Some("office-pbx".into()),
    };
    assert_eq!(info.clone(), info);
}
