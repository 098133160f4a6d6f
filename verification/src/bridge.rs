//! What happens on the SIP side: incoming calls, calls that ring, are answered or end, and
//! key presses.

use vstd::prelude::*;

use crate::api::{IncomingCallAction, IncomingCallResponse, IncomingCallWebhook, IncomingView};
use crate::call::{CallDirection, CallInfo, CallStatus, CallView};
use crate::metrics;
use crate::metrics::MetricsView;
use crate::router;
use crate::router::RouteView;
use crate::state;
use crate::state::{AppState, StateView};
use crate::text;
use crate::trunk::util;
use crate::webhook::{EventView, WebhookEvent};
use crate::webhook_client::WebhookError;
use crate::ws;
use crate::ws::{ServerEvent, ServerEventView};

verus! {

// ── Why a call ended ──

/// Why a call ended.
#[derive(Debug, Clone, Copy, PartialEq, Eq, Structural)]
pub enum EndReason {
    Local,
    Remote,
    Transfer,
    Rejected,
    Cancelled,
    Timeout,
    Error,
}

pub open spec fn end_reason_text(reason: EndReason) -> Seq<char> {
    match reason {
        EndReason::Local => "local"@,
        EndReason::Remote => "normal"@,
        EndReason::Transfer => "transfer"@,
        EndReason::Rejected => "rejected"@,
        EndReason::Cancelled => "cancelled"@,
        EndReason::Timeout => "timeout"@,
        EndReason::Error => "error"@,
    }
}

/// The name of a reason, as the application is told.
pub fn end_reason_str(reason: EndReason) -> (res: &'static str)
    ensures
        res@ == end_reason_text(reason),
{
    match reason {
        EndReason::Local => "local",
        EndReason::Remote => "normal",
        EndReason::Transfer => "transfer",
        EndReason::Rejected => "rejected",
        EndReason::Cancelled => "cancelled",
        EndReason::Timeout => "timeout",
        EndReason::Error => "error",
    }
}

/// The state after a call has ended: it is no longer kept nor controlled, nor where its
/// events go, and its duration is counted.
pub open spec fn after_ended(s: StateView, id: Seq<char>, nanos: u64) -> StateView {
    StateView {
        calls: s.calls.remove(id),
        controls: s.controls.remove(id),
        webhook_urls: s.webhook_urls.remove(id),
        metrics: MetricsView {
            call_duration: metrics::observed(s.metrics.call_duration, nanos),
            ..s.metrics
        },
        ..s
    }
}

/// Takes note that a call has ended, and tells the application: the event, and where it
/// goes.
pub fn call_ended(s: &mut AppState, call_id: &str, reason: EndReason, nanos: u64) -> (res: (
    WebhookEvent,
    String,
))
    requires
        old(s).wf(),
    ensures
        final(s).wf(),
        final(s)@ == after_ended(old(s)@, call_id@, nanos),
        res.0@ == (EventView::Ended {
            call_id: call_id@,
            reason: end_reason_text(reason),
            duration: nanos / 1_000_000_000,
        }),
        res.1@ == state::event_url_of(old(s)@, call_id@),
{
    let url: String = s.event_url(call_id);
    let _ = s.remove_call(call_id);
    let _ = s.xphone_calls.remove(call_id);
    let _ = s.webhook_urls.remove(call_id);
    assert(s@.webhook_urls =~= old(s)@.webhook_urls.remove(call_id@));
    s.metrics.observe_call_duration(nanos);
    let event = WebhookEvent::Ended {
        call_id: call_id.to_owned(),
        reason: end_reason_str(reason).to_owned(),
        duration: nanos / 1_000_000_000,
    };
    (event, url)
}

// ── How a call goes on ──

/// What was heard of an outbound call.
#[derive(Debug, Clone, Copy, PartialEq, Eq, Structural)]
pub enum CallState {
    /// The other side rings.
    RemoteRinging,
    /// The call is up.
    Active,
    /// Anything else.
    Other,
}

/// Whether a call has not been answered yet.
pub open spec fn unanswered(status: CallStatus) -> bool {
    status == CallStatus::Dialing || status == CallStatus::Ringing
}

/// The status that news of a call leads to.
pub open spec fn next_status(status: CallStatus, news: CallState) -> CallStatus {
    match news {
        CallState::RemoteRinging => CallStatus::Ringing,
        CallState::Active => if unanswered(status) {
            CallStatus::InProgress
        } else {
            status
        },
        CallState::Other => status,
    }
}

/// What the application is told of the news: that the call rings, and the first time that
/// it is up, not when it is only taken off hold.
pub open spec fn news_event(call: CallView, news: CallState) -> Option<EventView> {
    match news {
        CallState::RemoteRinging => Some(
            EventView::Ringing { call_id: call.call_id, from: call.from, to: call.to },
        ),
        CallState::Active => if unanswered(call.status) {
            Some(EventView::Answered { call_id: call.call_id })
        } else {
            None
        },
        CallState::Other => None,
    }
}

/// Takes in news of a call. Of a call that is not known there is no news.
pub fn call_state_changed(s: &mut AppState, call_id: &str, news: CallState) -> (res: Option<
    WebhookEvent,
>)
    requires
        old(s).wf(),
    ensures
        final(s).wf(),
        ({
            let before = old(s)@;
            if before.calls.contains_key(call_id@) {
                let call = before.calls[call_id@];
                &&& final(s)@ == state::with_status(
                    before,
                    call_id@,
                    next_status(call.status, news),
                )
                &&& match res {
                    Some(event) => news_event(call, news) == Some(event@),
                    None => news_event(call, news) is None,
                }
            } else {
                final(s)@ == before && res is None
            }
        }),
{
    let call: CallInfo = match s.calls.get(call_id) {
        Some(info) => info.clone(),
        None => {
            return None;
        },
    };
    proof {
        assert(old(s)@.calls[call_id@].call_id == call_id@);
    }
    let status: CallStatus = match news {
        CallState::RemoteRinging => CallStatus::Ringing,
        CallState::Active => match call.status {
            CallStatus::Dialing | CallStatus::Ringing => CallStatus::InProgress,
            other => other,
        },
        CallState::Other => call.status,
    };
    s.set_status(call_id, status);
    match news {
        CallState::RemoteRinging => Some(
            WebhookEvent::Ringing {
                call_id: call_id.to_owned(),
                from: call.from.clone(),
                to: call.to.clone(),
            },
        ),
        CallState::Active => match call.status {
            CallStatus::Dialing | CallStatus::Ringing => Some(
                WebhookEvent::Answered { call_id: call_id.to_owned() },
            ),
            _ => None,
        },
        CallState::Other => None,
    }
}

/// What happens to a call that has been answered, as long as it does not ring again.
#[derive(Debug, Clone, Copy, PartialEq, Eq, Structural)]
pub enum Turn {
    Active,
    Other,
    Hold,
    Resume,
}

pub open spec fn turned(status: CallStatus, turn: Turn) -> CallStatus {
    match turn {
        Turn::Active => next_status(status, CallState::Active),
        Turn::Other => next_status(status, CallState::Other),
        Turn::Hold => CallStatus::OnHold,
        Turn::Resume => CallStatus::InProgress,
    }
}

pub open spec fn turned_all(status: CallStatus, turns: Seq<Turn>) -> CallStatus
    decreases turns.len(),
{
    if turns.len() == 0 {
        status
    } else {
        turned(turned_all(status, turns.drop_last()), turns.last())
    }
}

/// The application is told once that a call is answered: after that, however often the
/// call is held, resumed and reported as up, it is not told again.
pub proof fn law_answered_once(call: CallView, turns: Seq<Turn>)
    requires
        unanswered(call.status),
    ensures
        news_event(call, CallState::Active) == Some(EventView::Answered { call_id: call.call_id }),
        ({
            let answered = next_status(call.status, CallState::Active);
            let later = CallView { status: turned_all(answered, turns), ..call };
            !unanswered(later.status) && news_event(later, CallState::Active) is None
        }),
    decreases turns.len(),
{
    if turns.len() > 0 {
        law_answered_once(call, turns.drop_last());
    }
}

// ── Key presses ──

/// Whom a key press is told to.
#[derive(Debug, PartialEq)]
pub struct KeyPress {
    /// The event for the client that streams the call, if there is one.
    pub to_client: Option<ServerEvent>,
    /// The event for the application.
    pub to_application: WebhookEvent,
}

/// Forwards a key that the other side pressed.
pub fn key_pressed(s: &AppState, call_id: &str, digit: &str) -> (res: KeyPress)
    requires
        s.wf(),
    ensures
        res.to_application@ == (EventView::Dtmf { call_id: call_id@, digit: digit@ }),
        match res.to_client {
            Some(event) => {
                &&& s@.ws_senders.contains_key(call_id@)
                &&& event@ == (ServerEventView::Dtmf { stream_sid: call_id@, digit: digit@ })
            },
            None => !s@.ws_senders.contains_key(call_id@),
        },
{
    let to_client: Option<ServerEvent> = if s.ws_senders.contains(call_id) {
        Some(ws::dtmf_event(call_id, digit))
    } else {
        None
    };
    KeyPress {
        to_client,
        to_application: WebhookEvent::Dtmf {
            call_id: call_id.to_owned(),
            digit: digit.to_owned(),
        },
    }
}

// ── Incoming calls ──

/// What the application is asked of an incoming call; `peer` names the trunk host peer
/// that it came from, if any.
pub fn incoming_webhook(call_id: &str, from: &str, to: &str, peer: Option<String>) -> (res:
    IncomingCallWebhook)
    ensures
        res@ == (IncomingView {
            call_id: call_id@,
            from: from@,
            to: to@,
            direction: CallDirection::Inbound,
            peer: text::text_option(peer),
        }),
{
    IncomingCallWebhook {
        call_id: call_id.to_owned(),
        from: from.to_owned(),
        to: to.to_owned(),
        direction: CallDirection::Inbound,
        peer,
    }
}

/// What is to be done about an incoming call.
#[derive(Debug, PartialEq)]
pub enum IncomingDecision {
    /// Answer it.
    Accept,
    /// Reject it with this SIP status and reason.
    Reject { code: u16, reason: String },
}

#[verifier::ext_equal]
pub enum DecisionView {
    Accept,
    Reject { code: u16, reason: Seq<char> },
}

impl View for IncomingDecision {
    type V = DecisionView;

    open spec fn view(&self) -> DecisionView {
        match self {
            IncomingDecision::Accept => DecisionView::Accept,
            IncomingDecision::Reject { code, reason } => DecisionView::Reject {
                code: *code,
                reason: reason@,
            },
        }
    }
}

/// The decision on a call that the application rejects: as busy where it gives no reason.
pub open spec fn rejection(reason: Option<Seq<char>>) -> DecisionView {
    let reason = match reason {
        Some(reason) => reason,
        None => "busy"@,
    };
    DecisionView::Reject {
        code: if reason == "declined"@ {
            603
        } else {
            486
        },
        reason,
    }
}

/// What the application's answer to an incoming call leads to.
pub open spec fn decision_on(answer: Result<IncomingCallResponse, WebhookError>) -> DecisionView {
    match answer {
        Ok(response) => match response.action {
            IncomingCallAction::Accept => DecisionView::Accept,
            IncomingCallAction::Reject => rejection(text::text_option(response.reason)),
        },
        Err(_) => DecisionView::Reject { code: 503, reason: "service unavailable"@ },
    }
}

/// What is to be done about an incoming call, by the application's answer. Without one the
/// call is rejected as unavailable.
pub fn decide_incoming(answer: &Result<IncomingCallResponse, WebhookError>) -> (res:
    IncomingDecision)
    ensures
        res@ == decision_on(*answer),
{
    match answer {
        Ok(response) => match response.action {
            IncomingCallAction::Accept => IncomingDecision::Accept,
            IncomingCallAction::Reject => {
                let reason: String = match &response.reason {
                    Some(reason) => reason.clone(),
                    None => String::from_str("busy"),
                };
                IncomingDecision::Reject {
                    code: util::reject_reason_to_sip_code(reason.as_str()),
                    reason,
                }
            },
        },
        Err(_) => IncomingDecision::Reject {
            code: 503,
            reason: String::from_str("service unavailable"),
        },
    }
}

/// The state after an incoming call was answered: it is kept, controlled and counted, once
/// more where it came over the trunk host.
pub open spec fn after_accepted(s: StateView, call: CallView, over_trunk_host: bool) -> StateView {
    StateView {
        calls: s.calls.insert(call.call_id, call),
        controls: s.controls.insert(call.call_id, ()),
        metrics: MetricsView {
            calls_inbound: metrics::more(s.metrics.calls_inbound),
            trunk_calls_inbound: if over_trunk_host {
                metrics::more(s.metrics.trunk_calls_inbound)
            } else {
                s.metrics.trunk_calls_inbound
            },
            ..s.metrics
        },
        ..s
    }
}

/// Takes in an incoming call once it was tried to answer it, and tells the application of
/// a call that is up. Of one that could not be answered nothing is kept.
pub fn incoming_accepted(
    s: &mut AppState,
    hook: &IncomingCallWebhook,
    over_trunk_host: bool,
    answered: bool,
) -> (res: Option<WebhookEvent>)
    requires
        old(s).wf(),
    ensures
        final(s).wf(),
        match res {
            Some(event) => {
                &&& answered
                &&& event@ == (EventView::Answered { call_id: hook@.call_id })
                &&& final(s)@ == after_accepted(
                    old(s)@,
                    CallView {
                        call_id: hook@.call_id,
                        from: hook@.from,
                        to: hook@.to,
                        direction: CallDirection::Inbound,
                        status: CallStatus::InProgress,
                        peer: hook@.peer,
                    },
                    over_trunk_host,
                )
            },
            None => !answered && final(s)@ == old(s)@,
        },
{
    if !answered {
        return None;
    }
    let info = CallInfo {
        call_id: hook.call_id.clone(),
        from: hook.from.clone(),
        to: hook.to.clone(),
        direction: CallDirection::Inbound,
        status: CallStatus::InProgress,
        peer: text::copy_option(&hook.peer),
    };
    s.metrics.inc_calls_inbound();
    if over_trunk_host {
        s.metrics.inc_trunk_calls_inbound();
    }
    s.insert_call(info);
    s.xphone_calls.insert(hook.call_id.as_str(), ());
    Some(WebhookEvent::Answered { call_id: hook.call_id.clone() })
}

/// A call that was answered and then ended is gone, as if it had not been there, but for
/// what was counted.
pub proof fn law_call_leaves_nothing(
    s: StateView,
    call: CallView,
    over_trunk_host: bool,
    nanos: u64,
)
    requires
        !s.calls.contains_key(call.call_id),
        !s.controls.contains_key(call.call_id),
        !s.webhook_urls.contains_key(call.call_id),
    ensures
        ({
            let ended = after_ended(
                after_accepted(s, call, over_trunk_host),
                call.call_id,
                nanos,
            );
            ended == StateView { metrics: ended.metrics, ..s }
        }),
{
    let ended = after_ended(after_accepted(s, call, over_trunk_host), call.call_id, nanos);
    assert(ended.calls =~= s.calls);
    assert(ended.controls =~= s.controls);
    assert(ended.webhook_urls =~= s.webhook_urls);
}

/// An outbound call is dialling once it is placed, ringing once the other side rings, and
/// up once it is answered; the application is told of the last two.
pub proof fn law_outbound_progress(
    s: StateView,
    call_id: Seq<char>,
    from: Seq<char>,
    to: Seq<char>,
    route: RouteView,
    webhook_url: Option<Seq<char>>,
)
    ensures
        ({
            let call = router::placed_call(call_id, from, to, route);
            let placed = router::after_placed(s, call, webhook_url);
            let ringing = next_status(CallStatus::Dialing, CallState::RemoteRinging);
            let rung = state::with_status(placed, call_id, ringing);
            let up = state::with_status(rung, call_id, next_status(ringing, CallState::Active));
            &&& placed.calls[call_id].status == CallStatus::Dialing
            &&& rung.calls[call_id] == CallView { status: CallStatus::Ringing, ..call }
            &&& up.calls[call_id] == CallView { status: CallStatus::InProgress, ..call }
            &&& up.controls.contains_key(call_id)
            &&& news_event(placed.calls[call_id], CallState::RemoteRinging) == Some(
                EventView::Ringing { call_id, from, to },
            )
            &&& news_event(rung.calls[call_id], CallState::Active) == Some(
                EventView::Answered { call_id },
            )
        }),
{
}

/// The events of a call go where its request says until it has ended, and those of other
/// calls go on as before.
pub proof fn law_webhook_url(
    s: StateView,
    call: CallView,
    url: Seq<char>,
    other: Seq<char>,
    nanos: u64,
)
    requires
        other != call.call_id,
    ensures
        ({
            let id = call.call_id;
            let placed = router::after_placed(s, call, Some(url));
            let hung_up = router::hung_up(placed, id);
            let ended = after_ended(hung_up, id, nanos);
            &&& state::event_url_of(placed, id) == url
            &&& state::event_url_of(hung_up, id) == url
            &&& state::event_url_of(ended, id) == s.config.webhook.url@
            &&& state::event_url_of(placed, other) == state::event_url_of(s, other)
            &&& state::event_url_of(ended, other) == state::event_url_of(s, other)
        }),
{
}

/// A call is answered where the application accepts it, and only there. One that it rejects
/// is turned away with the reason that it gives, as declined where that is the reason and
/// else as busy; without an answer of the application it is turned away as unavailable.
pub proof fn law_decision(answer: Result<IncomingCallResponse, WebhookError>)
    ensures
        decision_on(answer) is Accept <==> (answer matches Ok(response) && response.action
            == IncomingCallAction::Accept),
        answer is Err ==> decision_on(answer) == (DecisionView::Reject {
            code: 503,
            reason: "service unavailable"@,
        }),
        answer matches Ok(response) ==> response.action == IncomingCallAction::Reject ==> (
        decision_on(answer) matches DecisionView::Reject { code, reason } && {
            &&& reason == match response.reason {
                Some(given) => given@,
                None => seq!['b', 'u', 's', 'y'],
            }
            &&& code == 603 || code == 486
            &&& code == 603 <==> reason == seq!['d', 'e', 'c', 'l', 'i', 'n', 'e', 'd']
        }),
{
    reveal_strlit("busy");
    reveal_strlit("declined");
    assert("busy"@ =~= seq!['b', 'u', 's', 'y']);
    assert("declined"@ =~= seq!['d', 'e', 'c', 'l', 'i', 'n', 'e', 'd']);
}

/// A call that is answered is counted once among the incoming ones, and once among those of
/// the trunk host where it came over that; it is kept with its control, and no other call
/// is touched.
pub proof fn law_accepted(
    s: StateView,
    call: CallView,
    over_trunk_host: bool,
    other: Seq<char>,
)
    requires
        s.metrics.calls_inbound < u64::MAX,
        s.metrics.trunk_calls_inbound < u64::MAX,
    ensures
        ({
            let after = after_accepted(s, call, over_trunk_host);
            let trunk = if over_trunk_host {
                s.metrics.trunk_calls_inbound + 1
            } else {
                s.metrics.trunk_calls_inbound as int
            };
            &&& after.calls.contains_key(call.call_id)
            &&& after.calls[call.call_id] == call
            &&& after.controls.contains_key(call.call_id)
            &&& after.metrics.calls_inbound == s.metrics.calls_inbound + 1
            &&& after.metrics.trunk_calls_inbound == trunk
            &&& after.metrics.calls_outbound == s.metrics.calls_outbound
            &&& other != call.call_id ==> {
                &&& after.calls.contains_key(other) <==> s.calls.contains_key(other)
                &&& s.calls.contains_key(other) ==> after.calls[other] == s.calls[other]
                &&& after.controls.contains_key(other) <==> s.controls.contains_key(other)
            }
            &&& after.webhook_urls == s.webhook_urls
            &&& after.ws_senders == s.ws_senders
        }),
{
}

/// A call that has ended is forgotten, its duration is counted once, and no other call is
/// touched.
pub proof fn law_ended(s: StateView, id: Seq<char>, nanos: u64, other: Seq<char>)
    requires
        s.metrics.call_duration.count < u64::MAX,
    ensures
        ({
            let after = after_ended(s, id, nanos);
            &&& !after.calls.contains_key(id)
            &&& !after.controls.contains_key(id)
            &&& !after.webhook_urls.contains_key(id)
            &&& after.metrics.call_duration.count == s.metrics.call_duration.count + 1
            &&& after.metrics == MetricsView {
                call_duration: after.metrics.call_duration,
                ..s.metrics
            }
            &&& other != id ==> {
                &&& after.calls.contains_key(other) <==> s.calls.contains_key(other)
                &&& s.calls.contains_key(other) ==> after.calls[other] == s.calls[other]
                &&& after.controls.contains_key(other) <==> s.controls.contains_key(other)
                &&& state::event_url_of(after, other) == state::event_url_of(s, other)
            }
        }),
{
}

/// The names of the reasons, as the application is told them.
pub proof fn law_end_reasons()
    ensures
        end_reason_text(EndReason::Local) == seq!['l', 'o', 'c', 'a', 'l'],
        end_reason_text(EndReason::Remote) == seq!['n', 'o', 'r', 'm', 'a', 'l'],
        end_reason_text(EndReason::Transfer) == seq!['t', 'r', 'a', 'n', 's', 'f', 'e', 'r'],
        end_reason_text(EndReason::Rejected) == seq!['r', 'e', 'j', 'e', 'c', 't', 'e', 'd'],
        end_reason_text(EndReason::Cancelled) == seq![
            'c', 'a', 'n', 'c', 'e', 'l', 'l', 'e', 'd'
        ],
        end_reason_text(EndReason::Timeout) == seq!['t', 'i', 'm', 'e', 'o', 'u', 't'],
        end_reason_text(EndReason::Error) == seq!['e', 'r', 'r', 'o', 'r'],
{
    reveal_strlit("local");
    reveal_strlit("normal");
    reveal_strlit("transfer");
    reveal_strlit("rejected");
    reveal_strlit("cancelled");
    reveal_strlit("timeout");
    reveal_strlit("error");
}

/// News that the other side rings makes a call ring whatever its status was, and the
/// application is told each time; other news never changes a call that is up or held.
pub proof fn law_news(call: CallView, news: CallState)
    ensures
        news == CallState::RemoteRinging ==> {
            &&& next_status(call.status, news) == CallStatus::Ringing
            &&& news_event(call, news) == Some(
                EventView::Ringing { call_id: call.call_id, from: call.from, to: call.to },
            )
        },
        news != CallState::RemoteRinging && call.status != CallStatus::Dialing && call.status
            != CallStatus::Ringing ==> {
            &&& next_status(call.status, news) == call.status
            &&& news_event(call, news) is None
        },
        news == CallState::Other ==> next_status(call.status, news) == call.status && news_event(
            call,
            news,
        ) is None,
{
}

} // verus!
