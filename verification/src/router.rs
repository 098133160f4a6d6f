//! What the REST API does: who is let in, which call a request is about, and what comes of
//! it.

use vstd::prelude::*;

use crate::api::{
    CallListResponse, CreateCallRequest, CreateCallResponse, CreatedView, DtmfRequest, PlayRequest,
};
use crate::audio;
use crate::call::{CallDirection, CallInfo, CallStatus, CallView};
use crate::metrics;
use crate::metrics::MetricsView;
use crate::rate_limit;
use crate::rate_limit::RateLimiter;
use crate::state;
use crate::state::{AppState, StateView};
use crate::text;
use crate::trunk;
use crate::wav;
use crate::webhook::{EventView, WebhookEvent};
use crate::ws;

verus! {

// ── Errors ──

/// Why a request is not granted.
#[derive(Debug, Clone, Copy, PartialEq, Eq, Structural)]
pub enum ApiError {
    NoAudioSource,
    InvalidAudio,
    Unauthorized,
    CallNotFound,
    TrunkNotFound,
    PeerNotFound,
    PlaybackNotFound,
    PeerHasNoHost,
    RateLimited,
    OperationFailed,
    AudioUnavailable,
    FetchFailed,
    NoTrunkConnected,
    ServerNotRunning,
}

pub open spec fn status_of(e: ApiError) -> u16 {
    match e {
        ApiError::NoAudioSource | ApiError::InvalidAudio => 400,
        ApiError::Unauthorized => 401,
        ApiError::CallNotFound
        | ApiError::TrunkNotFound
        | ApiError::PeerNotFound
        | ApiError::PlaybackNotFound => 404,
        ApiError::PeerHasNoHost => 422,
        ApiError::RateLimited => 429,
        ApiError::OperationFailed | ApiError::AudioUnavailable | ApiError::FetchFailed => 500,
        ApiError::NoTrunkConnected | ApiError::ServerNotRunning => 503,
    }
}

pub open spec fn message_of(e: ApiError) -> Seq<char> {
    match e {
        ApiError::NoAudioSource => "No audio source"@,
        ApiError::InvalidAudio => "Invalid audio"@,
        ApiError::Unauthorized => "Missing or invalid authorization"@,
        ApiError::CallNotFound => "Call not found"@,
        ApiError::TrunkNotFound => "Trunk not found"@,
        ApiError::PeerNotFound => "Peer not found"@,
        ApiError::PlaybackNotFound => "No active playback"@,
        ApiError::PeerHasNoHost => "Peer has no host configured"@,
        ApiError::RateLimited => "Rate limit exceeded"@,
        ApiError::OperationFailed => "Call operation failed"@,
        ApiError::AudioUnavailable => "Audio writer not available"@,
        ApiError::FetchFailed => "Audio fetch failed"@,
        ApiError::NoTrunkConnected => "No SIP trunk connected"@,
        ApiError::ServerNotRunning => "Trunk host server not running"@,
    }
}

impl ApiError {
    /// The HTTP status of the error.
    pub fn status(&self) -> (res: u16)
        ensures
            res == status_of(*self),
    {
        match self {
            ApiError::NoAudioSource | ApiError::InvalidAudio => 400,
            ApiError::Unauthorized => 401,
            ApiError::CallNotFound
            | ApiError::TrunkNotFound
            | ApiError::PeerNotFound
            | ApiError::PlaybackNotFound => 404,
            ApiError::PeerHasNoHost => 422,
            ApiError::RateLimited => 429,
            ApiError::OperationFailed | ApiError::AudioUnavailable | ApiError::FetchFailed => 500,
            ApiError::NoTrunkConnected | ApiError::ServerNotRunning => 503,
        }
    }

    /// A description of the error.
    pub fn message(&self) -> (res: &'static str)
        ensures
            res@ == message_of(*self),
    {
        match self {
            ApiError::NoAudioSource => "No audio source",
            ApiError::InvalidAudio => "Invalid audio",
            ApiError::Unauthorized => "Missing or invalid authorization",
            ApiError::CallNotFound => "Call not found",
            ApiError::TrunkNotFound => "Trunk not found",
            ApiError::PeerNotFound => "Peer not found",
            ApiError::PlaybackNotFound => "No active playback",
            ApiError::PeerHasNoHost => "Peer has no host configured",
            ApiError::RateLimited => "Rate limit exceeded",
            ApiError::OperationFailed => "Call operation failed",
            ApiError::AudioUnavailable => "Audio writer not available",
            ApiError::FetchFailed => "Audio fetch failed",
            ApiError::NoTrunkConnected => "No SIP trunk connected",
            ApiError::ServerNotRunning => "Trunk host server not running",
        }
    }
}

// ── Admission ──

/// Whether an authorization header shows the key, where one is asked for.
pub open spec fn key_shown(api_key: Option<Seq<char>>, header: Option<Seq<char>>) -> bool {
    match api_key {
        None => true,
        Some(key) => match header {
            None => false,
            Some(header) => header == "Bearer "@ + key,
        },
    }
}

/// Whether an authorization header shows the key, where one is asked for.
pub fn is_authorized(api_key: &Option<String>, header: Option<&str>) -> (res: bool)
    ensures
        res == key_shown(
            text::text_option(*api_key),
            match header {
                Some(h) => Some(h@),
                None => None,
            },
        ),
{
    match api_key {
        None => true,
        Some(key) => match header {
            None => false,
            Some(h) => {
                let mut expected: String = String::from_str("Bearer ");
                expected.append(key.as_str());
                text::same_text(h, expected.as_str())
            },
        },
    }
}

/// The paths that are open to everyone.
pub open spec fn is_public_path(path: Seq<char>) -> bool {
    path == "/health"@ || path == "/metrics"@
}

/// Whether a path is open to everyone.
pub fn is_public(path: &str) -> (res: bool)
    ensures
        res == is_public_path(path@),
{
    text::same_text(path, "/health") || text::same_text(path, "/metrics")
}

/// Whether a request is let in: a public path is open, and for others first the rate limit
/// is asked, then the key.
pub open spec fn admission(
    path: Seq<char>,
    limiter: Option<rate_limit::BucketView>,
    now: int,
    api_key: Option<Seq<char>>,
    header: Option<Seq<char>>,
) -> Result<(), ApiError> {
    if is_public_path(path) {
        Ok(())
    } else if limiter matches Some(bucket) && !rate_limit::admits(bucket, now) {
        Err(ApiError::RateLimited)
    } else if !key_shown(api_key, header) {
        Err(ApiError::Unauthorized)
    } else {
        Ok(())
    }
}

pub open spec fn limiter_view(limiter: Option<RateLimiter>) -> Option<rate_limit::BucketView> {
    match limiter {
        Some(l) => Some(l@),
        None => None,
    }
}

/// Lets a request in, or says why not. Requests over the rate limit are counted.
pub fn let_in(
    s: &mut AppState,
    limiter: &mut Option<RateLimiter>,
    now: u64,
    path: &str,
    header: Option<&str>,
) -> (res: Result<(), ApiError>)
    requires
        old(s).wf(),
        *old(limiter) matches Some(l) ==> l.wf(),
    ensures
        final(s).wf(),
        *final(limiter) matches Some(l) ==> l.wf(),
        res == admission(
            path@,
            limiter_view(*old(limiter)),
            now as int,
            text::text_option(old(s)@.config.auth.api_key),
            match header {
                Some(h) => Some(h@),
                None => None,
            },
        ),
        limiter_view(*final(limiter)) == match limiter_view(*old(limiter)) {
            Some(bucket) => Some(
                if is_public_path(path@) {
                    bucket
                } else {
                    rate_limit::after_request(bucket, now as int)
                },
            ),
            None => None,
        },
        final(s)@ == if res == Err::<(), ApiError>(ApiError::RateLimited) {
            StateView {
                metrics: MetricsView {
                    rate_limit_rejections: metrics::more(old(s)@.metrics.rate_limit_rejections),
                    ..old(s)@.metrics
                },
                ..old(s)@
            }
        } else {
            old(s)@
        },
{
    if is_public(path) {
        return Ok(());
    }
    match limiter {
        Some(l) => {
            if !l.try_acquire(now) {
                s.metrics.inc_rate_limit_rejections();
                return Err(ApiError::RateLimited);
            }
        },
        None => {},
    }
    if is_authorized(&s.config.auth.api_key, header) {
        Ok(())
    } else {
        Err(ApiError::Unauthorized)
    }
}

/// What the rate limit and the key say of a request does not depend on the request's path,
/// as long as it is not public; without a limit and a key everything is let in.
pub proof fn law_admission(
    path: Seq<char>,
    other: Seq<char>,
    limiter: Option<rate_limit::BucketView>,
    now: int,
    api_key: Option<Seq<char>>,
    header: Option<Seq<char>>,
)
    requires
        !is_public_path(path),
        !is_public_path(other),
    ensures
        admission(path, limiter, now, api_key, header) == admission(
            other,
            limiter,
            now,
            api_key,
            header,
        ),
        admission("/health"@, limiter, now, api_key, header) is Ok,
        admission("/metrics"@, limiter, now, api_key, header) is Ok,
        limiter is None && api_key is None ==> admission(path, limiter, now, api_key, header) is Ok,
        admission(path, limiter, now, api_key, header) is Ok ==> key_shown(api_key, header),
{
}

// ── Reports ──

/// The address of the WebSocket of a call: at the host that the client asked, or else at
/// the configured one.
pub open spec fn ws_address(
    host: Option<Seq<char>>,
    listen: Seq<char>,
    call_id: Seq<char>,
) -> Seq<char> {
    "ws://"@ + (match host {
        Some(host) => host,
        None => listen,
    }) + "/ws/"@ + call_id
}

/// The address of the WebSocket of a call.
pub fn ws_url(host: Option<&str>, listen: &str, call_id: &str) -> (res: String)
    ensures
        res@ == ws_address(
            match host {
                Some(h) => Some(h@),
                None => None,
            },
            listen@,
            call_id@,
        ),
{
    let mut out: String = String::from_str("ws://");
    match host {
        Some(h) => out.append(h),
        None => out.append(listen),
    }
    out.append("/ws/");
    out.append(call_id);
    out
}

/// The health of the gateway.
#[derive(Debug, PartialEq)]
pub struct HealthReport {
    /// `ok` once a trunk is connected or the trunk host runs, else `starting`.
    pub status: &'static str,
    pub sip_trunks: usize,
    pub sip_server: bool,
    pub active_calls: usize,
}

/// The health of the gateway.
pub fn health_check(s: &AppState) -> (res: HealthReport)
    requires
        s.wf(),
    ensures
        res.status@ == if s@.phones.dom().len() > 0 || s@.server_running {
            "ok"@
        } else {
            "starting"@
        },
        res.sip_trunks == s@.phones.dom().len(),
        res.sip_server == s@.server_running,
        res.active_calls == s@.calls.dom().len(),
{
    let sip_trunks: usize = s.phones.len();
    let active_calls: usize = s.calls.len();
    assert(s@.calls.dom() =~= s.calls@.dom());
    HealthReport {
        status: if sip_trunks > 0 || s.server_running {
            "ok"
        } else {
            "starting"
        },
        sip_trunks,
        sip_server: s.server_running,
        active_calls,
    }
}

/// Everything that has been counted, in the Prometheus text format.
pub fn metrics_report(s: &AppState, sums: &metrics::DurationSums) -> (res: String)
    requires
        s.wf(),
    ensures
        res@ == metrics::metrics_text(
            s@.metrics,
            s@.calls.dom().len(),
            sums.call@,
            sums.http_request@,
            sums.webhook@,
        ),
{
    let active: usize = s.calls.len();
    assert(s@.calls.dom() =~= s.calls@.dom());
    s.metrics.render(active, sums)
}

/// The calls there are, each once.
pub fn list_calls(s: &AppState) -> (res: CallListResponse)
    requires
        s.wf(),
    ensures
        res.calls@.len() == s@.calls.dom().len(),
        forall|i: int|
            0 <= i < res.calls@.len() ==> s@.calls.contains_key((#[trigger] res.calls@[i])@.call_id)
                && s@.calls[res.calls@[i]@.call_id] == res.calls@[i]@,
        forall|i: int, j: int|
            0 <= i < j < res.calls@.len() ==> (#[trigger] res.calls@[i])@.call_id != (
            #[trigger] res.calls@[j])@.call_id,
{
    let total: usize = s.calls.len();
    let mut out: Vec<CallInfo> = Vec::new();
    let ghost names = s.calls.names();
    proof {
        s.calls.lemma_names();
        assert(s@.calls.dom() =~= s.calls@.dom());
    }
    let mut i: usize = 0;
    while i < total
        invariant
            s.wf(),
            total == s.calls@.dom().len(),
            i <= total,
            names == s.calls.names(),
            out@.len() == i,
            forall|j: int|
                0 <= j < i ==> {
                    &&& (#[trigger] out@[j])@.call_id == names[j]
                    &&& s@.calls.contains_key(names[j])
                    &&& s@.calls[names[j]] == out@[j]@
                },
        decreases total - i,
    {
        let (_name, info) = s.calls.at(i);
        out.push(info.clone());
        proof {
            assert(s@.calls.contains_key(names[i as int]));
        }
        i += 1;
    }
    assert forall|a: int, b: int| 0 <= a < b < out@.len() implies (#[trigger] out@[a])@.call_id != (
    #[trigger] out@[b])@.call_id by {
        assert(names[a] != names[b]);
    }
    CallListResponse { calls: out }
}

/// A call.
pub fn get_call(s: &AppState, call_id: &str) -> (res: Result<CallInfo, ApiError>)
    requires
        s.wf(),
    ensures
        match res {
            Ok(info) => s@.calls.contains_key(call_id@) && info@ == s@.calls[call_id@],
            Err(e) => !s@.calls.contains_key(call_id@) && e == ApiError::CallNotFound,
        },
{
    match s.calls.get(call_id) {
        Some(info) => Ok(info.clone()),
        None => Err(ApiError::CallNotFound),
    }
}

// ── Ending a call ──

/// What is to be done when a call is hung up.
#[derive(Debug, PartialEq)]
pub struct Hangup {
    /// Whether the call itself is to be ended.
    pub end_call: bool,
    /// Whether a playback is to be cancelled.
    pub cancel_play: bool,
    /// What the request is answered.
    pub result: Result<(), ApiError>,
    /// The status of that answer: 204 for a call that was hung up.
    pub http_status: u16,
}

/// The state after a call is hung up: nothing of the call is left, save that a stream or
/// playback of an unknown call is not looked for.
pub open spec fn hung_up(s: StateView, id: Seq<char>) -> StateView {
    let ended = StateView {
        calls: s.calls.remove(id),
        controls: s.controls.remove(id),
        ..s
    };
    if s.calls.contains_key(id) {
        StateView { ws_senders: s.ws_senders.remove(id), plays: s.plays.remove(id), ..ended }
    } else {
        ended
    }
}

/// Hangs a call up.
pub fn hangup_call(s: &mut AppState, call_id: &str) -> (res: Hangup)
    requires
        old(s).wf(),
    ensures
        final(s).wf(),
        final(s)@ == hung_up(old(s)@, call_id@),
        res.end_call == old(s)@.controls.contains_key(call_id@),
        res.cancel_play == (old(s)@.calls.contains_key(call_id@) && old(s)@.plays.contains_key(
            call_id@,
        )),
        res.result == if old(s)@.calls.contains_key(call_id@) {
            Ok::<(), ApiError>(())
        } else {
            Err::<(), ApiError>(ApiError::CallNotFound)
        },
        res.http_status == if old(s)@.calls.contains_key(call_id@) {
            204u16
        } else {
            404u16
        },
{
    let end_call: bool = s.xphone_calls.remove(call_id).is_some();
    match s.remove_call(call_id) {
        Some(_) => {
            let _ = s.ws_senders.remove(call_id);
            let cancel_play: bool = s.plays.remove(call_id).is_some();
            assert(s@.plays =~= hung_up(old(s)@, call_id@).plays);
            Hangup { end_call, cancel_play, result: Ok(()), http_status: 204 }
        },
        None => {
            let e: ApiError = ApiError::CallNotFound;
            Hangup { end_call, cancel_play: false, result: Err(e), http_status: e.status() }
        },
    }
}

/// A call that was hung up is gone: it is neither found nor listed nor controlled, and
/// hanging it up again finds no call. Other calls stay.
pub proof fn law_hangup(s: StateView, id: Seq<char>, other: Seq<char>)
    requires
        s.calls.contains_key(id),
        other != id,
    ensures
        !hung_up(s, id).calls.contains_key(id),
        !hung_up(s, id).controls.contains_key(id),
        !hung_up(s, id).ws_senders.contains_key(id),
        !hung_up(s, id).plays.contains_key(id),
        hung_up(hung_up(s, id), id) == hung_up(s, id),
        hung_up(s, id).calls.contains_key(other) == s.calls.contains_key(other),
        s.calls.contains_key(other) ==> hung_up(s, id).calls[other] == s.calls[other],
{
    assert(hung_up(hung_up(s, id), id) =~= hung_up(s, id));
}

// ── Placing a call ──

/// Where a call goes.
#[derive(Debug, PartialEq)]
pub enum CallRoute {
    /// Through the trunk host to this peer.
    Peer(String),
    /// Through this trunk.
    Trunk(String),
}

#[verifier::ext_equal]
pub enum RouteView {
    Peer(Seq<char>),
    Trunk(Seq<char>),
}

impl View for CallRoute {
    type V = RouteView;

    open spec fn view(&self) -> RouteView {
        match self {
            CallRoute::Peer(name) => RouteView::Peer(name@),
            CallRoute::Trunk(name) => RouteView::Trunk(name@),
        }
    }
}

/// Where a call to a peer goes: the peer has to be configured and to have a host, and the
/// trunk host has to be running.
pub open spec fn peer_route(s: StateView, peer: Seq<char>) -> Result<RouteView, ApiError> {
    match s.config.server {
        None => Err(ApiError::PeerNotFound),
        Some(server) => match trunk::config::peer_named(server.peers@, peer) {
            None => Err(ApiError::PeerNotFound),
            Some(p) => if p.host is None {
                Err(ApiError::PeerHasNoHost)
            } else if !s.server_running {
                Err(ApiError::ServerNotRunning)
            } else {
                Ok(RouteView::Peer(peer))
            },
        },
    }
}

/// Where a call through a trunk goes: the trunk has to be connected.
pub open spec fn trunk_route(s: StateView, trunk: Seq<char>) -> Result<RouteView, ApiError> {
    if s.phones.contains_key(trunk) {
        Ok(RouteView::Trunk(trunk))
    } else if s.phones == Map::<Seq<char>, ()>::empty() {
        Err(ApiError::NoTrunkConnected)
    } else {
        Err(ApiError::TrunkNotFound)
    }
}

/// Where a requested call goes: to the peer that it names, or else through the trunk that
/// it names, or through the trunk `default`.
pub open spec fn route_of(
    s: StateView,
    peer: Option<Seq<char>>,
    trunk: Option<Seq<char>>,
) -> Result<RouteView, ApiError> {
    match peer {
        Some(peer) => peer_route(s, peer),
        None => trunk_route(
            s,
            match trunk {
                Some(trunk) => trunk,
                None => "default"@,
            },
        ),
    }
}

/// Where a requested call goes, or why it cannot be placed.
pub fn route_call(s: &AppState, req: &CreateCallRequest) -> (res: Result<CallRoute, ApiError>)
    requires
        s.wf(),
    ensures
        match res {
            Ok(route) => route_of(s@, text::text_option(req.peer), text::text_option(req.trunk))
                == Ok::<RouteView, ApiError>(route@),
            Err(e) => route_of(s@, text::text_option(req.peer), text::text_option(req.trunk))
                == Err::<RouteView, ApiError>(e),
        },
{
    match &req.peer {
        Some(peer) => match &s.config.server {
            None => Err(ApiError::PeerNotFound),
            Some(server) => match server.peer(peer.as_str()) {
                None => Err(ApiError::PeerNotFound),
                Some(p) => {
                    if p.host.is_none() {
                        Err(ApiError::PeerHasNoHost)
                    } else if !s.server_running {
                        Err(ApiError::ServerNotRunning)
                    } else {
                        Ok(CallRoute::Peer(peer.clone()))
                    }
                },
            },
        },
        None => {
            let name: String = match &req.trunk {
                Some(trunk) => trunk.clone(),
                None => String::from_str("default"),
            };
            if s.phones.contains(name.as_str()) {
                Ok(CallRoute::Trunk(name))
            } else if s.phones.is_empty() {
                Err(ApiError::NoTrunkConnected)
            } else {
                Err(ApiError::TrunkNotFound)
            }
        },
    }
}

/// What is known of a call that has just been placed.
pub open spec fn placed_call(
    call_id: Seq<char>,
    from: Seq<char>,
    to: Seq<char>,
    route: RouteView,
) -> CallView {
    CallView {
        call_id,
        from,
        to,
        direction: CallDirection::Outbound,
        status: CallStatus::Dialing,
        peer: match route {
            RouteView::Peer(name) => Some(name),
            RouteView::Trunk(_) => None,
        },
    }
}

/// The state after a call was placed.
pub open spec fn after_placed(
    s: StateView,
    call: CallView,
    webhook_url: Option<Seq<char>>,
) -> StateView {
    StateView {
        calls: s.calls.insert(call.call_id, call),
        controls: s.controls.insert(call.call_id, ()),
        webhook_urls: match webhook_url {
            Some(url) => s.webhook_urls.insert(call.call_id, url),
            None => s.webhook_urls,
        },
        metrics: MetricsView {
            calls_outbound: metrics::more(s.metrics.calls_outbound),
            ..s.metrics
        },
        ..s
    }
}

/// The answer to a request on which a call was placed.
#[derive(Debug)]
pub struct PlacedCall {
    /// The status of the answer: 201.
    pub http_status: u16,
    pub response: CreateCallResponse,
}

/// Answers a request to place a call, once it was dialled: `dialed` is the call's id, or
/// nothing where dialling failed. A placed call is kept and counted.
pub fn create_call(
    s: &mut AppState,
    req: &CreateCallRequest,
    route: &CallRoute,
    dialed: Option<&str>,
    host: Option<&str>,
) -> (res: Result<PlacedCall, ApiError>)
    requires
        old(s).wf(),
    ensures
        final(s).wf(),
        match dialed {
            Some(call_id) => {
                &&& res is Ok
                &&& res->Ok_0.http_status == 201
                &&& res->Ok_0.response@ == (CreatedView {
                    call_id: call_id@,
                    status: CallStatus::Dialing,
                    ws_url: ws_address(
                        match host {
                            Some(h) => Some(h@),
                            None => None,
                        },
                        old(s)@.config.listen.http@,
                        call_id@,
                    ),
                })
                &&& final(s)@ == after_placed(
                    old(s)@,
                    placed_call(call_id@, req.from@, req.to@, route@),
                    text::text_option(req.webhook_url),
                )
            },
            None => {
                &&& res == Err::<PlacedCall, ApiError>(ApiError::OperationFailed)
                &&& final(s)@ == old(s)@
            },
        },
{
    match dialed {
        None => Err(ApiError::OperationFailed),
        Some(call_id) => {
            let peer: Option<String> = match route {
                CallRoute::Peer(name) => Some(name.clone()),
                CallRoute::Trunk(_) => None,
            };
            let info = CallInfo {
                call_id: call_id.to_owned(),
                from: req.from.clone(),
                to: req.to.clone(),
                direction: CallDirection::Outbound,
                status: CallStatus::Dialing,
                peer,
            };
            s.insert_call(info);
            s.xphone_calls.insert(call_id, ());
            s.metrics.inc_calls_outbound();
            match &req.webhook_url {
                Some(url) => s.webhook_urls.insert(call_id, url.clone()),
                None => {},
            }
            let ws: String = ws_url(host, s.config.listen.http.as_str(), call_id);
            proof {
                let call = placed_call(call_id@, req.from@, req.to@, route@);
                assert(info@ == call);
                let want = after_placed(old(s)@, call, text::text_option(req.webhook_url));
                assert(s@.webhook_urls =~= want.webhook_urls);
            }
            let response = CreateCallResponse {
                call_id: call_id.to_owned(),
                status: CallStatus::Dialing,
                ws_url: ws,
            };
            Ok(PlacedCall { http_status: 201, response })
        },
    }
}

// ── Controlling a call ──

/// Whether there is a call to control.
pub fn find_call(s: &AppState, call_id: &str) -> (res: Result<(), ApiError>)
    requires
        s.wf(),
    ensures
        res == if s@.controls.contains_key(call_id@) {
            Ok::<(), ApiError>(())
        } else {
            Err::<(), ApiError>(ApiError::CallNotFound)
        },
{
    if s.xphone_calls.contains(call_id) {
        Ok(())
    } else {
        Err(ApiError::CallNotFound)
    }
}

/// Answers a request to control a call, once that was tried.
pub fn operation_result(done: bool) -> (res: Result<(), ApiError>)
    ensures
        res == if done {
            Ok::<(), ApiError>(())
        } else {
            Err::<(), ApiError>(ApiError::OperationFailed)
        },
{
    if done {
        Ok(())
    } else {
        Err(ApiError::OperationFailed)
    }
}

/// Answers a request to hold a call, once that was tried: the call is then on hold, and
/// the application is told.
pub fn hold_call(s: &mut AppState, call_id: &str, done: bool) -> (res: Result<
    WebhookEvent,
    ApiError,
>)
    requires
        old(s).wf(),
    ensures
        final(s).wf(),
        match res {
            Ok(event) => {
                &&& done
                &&& event@ == (EventView::Hold { call_id: call_id@ })
                &&& final(s)@ == state::with_status(old(s)@, call_id@, CallStatus::OnHold)
            },
            Err(e) => !done && e == ApiError::OperationFailed && final(s)@ == old(s)@,
        },
{
    if !done {
        return Err(ApiError::OperationFailed);
    }
    s.set_status(call_id, CallStatus::OnHold);
    Ok(WebhookEvent::Hold { call_id: call_id.to_owned() })
}

/// Answers a request to resume a call, once that was tried: the call is then up, and the
/// application is told.
pub fn resume_call(s: &mut AppState, call_id: &str, done: bool) -> (res: Result<
    WebhookEvent,
    ApiError,
>)
    requires
        old(s).wf(),
    ensures
        final(s).wf(),
        match res {
            Ok(event) => {
                &&& done
                &&& event@ == (EventView::Resumed { call_id: call_id@ })
                &&& final(s)@ == state::with_status(old(s)@, call_id@, CallStatus::InProgress)
            },
            Err(e) => !done && e == ApiError::OperationFailed && final(s)@ == old(s)@,
        },
{
    if !done {
        return Err(ApiError::OperationFailed);
    }
    s.set_status(call_id, CallStatus::InProgress);
    Ok(WebhookEvent::Resumed { call_id: call_id.to_owned() })
}

/// Holding a call that is up and resuming it leaves everything as it was.
pub proof fn law_hold_resume(s: StateView, id: Seq<char>)
    requires
        s.calls.contains_key(id),
        s.calls[id].status == CallStatus::InProgress,
    ensures
        state::with_status(
            state::with_status(s, id, CallStatus::OnHold),
            id,
            CallStatus::InProgress,
        ) == s,
{
    let held = state::with_status(s, id, CallStatus::OnHold);
    let back = state::with_status(held, id, CallStatus::InProgress);
    assert(back.calls =~= s.calls);
}

/// The keys of a request that are pressed on a call, one by one.
#[derive(Debug)]
pub struct DtmfRun {
    pub keys: Vec<char>,
    /// How many of them were pressed.
    pub pressed: usize,
}

/// What is to be done next of the keys to press.
#[derive(Debug, PartialEq)]
pub enum DtmfStep {
    /// This key is to be pressed.
    Send(String),
    /// Nothing is left to do, and this is what the request is answered.
    Done(Result<(), ApiError>),
}

pub enum DtmfStepView {
    Send(Seq<char>),
    Done(Result<(), ApiError>),
}

impl View for DtmfStep {
    type V = DtmfStepView;

    open spec fn view(&self) -> DtmfStepView {
        match self {
            DtmfStep::Send(key) => DtmfStepView::Send(key@),
            DtmfStep::Done(result) => DtmfStepView::Done(*result),
        }
    }
}

/// What is to be done after some keys were pressed: the next key is pressed, unless the
/// last one failed. The request succeeds where none is left and none failed.
pub open spec fn dtmf_step(keys: Seq<char>, pressed: nat, last_ok: bool) -> DtmfStepView {
    if !last_ok {
        DtmfStepView::Done(Err(ApiError::OperationFailed))
    } else if pressed < keys.len() {
        DtmfStepView::Send(seq![keys[pressed as int]])
    } else {
        DtmfStepView::Done(Ok(()))
    }
}

impl DtmfRun {
    pub open spec fn wf(&self) -> bool {
        self.pressed <= self.keys@.len()
    }

    /// Starts on a request, if there is a call to press keys on.
    pub fn start(s: &AppState, call_id: &str, req: &DtmfRequest) -> (res: Result<
        DtmfRun,
        ApiError,
    >)
        requires
            s.wf(),
        ensures
            match res {
                Ok(run) => {
                    &&& s@.controls.contains_key(call_id@)
                    &&& run.wf()
                    &&& run.keys@ == req.digits@
                    &&& run.pressed == 0
                },
                Err(e) => !s@.controls.contains_key(call_id@) && e == ApiError::CallNotFound,
            },
    {
        match find_call(s, call_id) {
            Ok(_) => Ok(DtmfRun { keys: text::chars_of(req.digits.as_str()), pressed: 0 }),
            Err(e) => Err(e),
        }
    }

    /// What is to be done next. `last_ok` says whether the last key was pressed, and holds
    /// at the start.
    pub fn next(&mut self, last_ok: bool) -> (res: DtmfStep)
        requires
            old(self).wf(),
        ensures
            final(self).wf(),
            final(self).keys == old(self).keys,
            res@ == dtmf_step(old(self).keys@, old(self).pressed as nat, last_ok),
            final(self).pressed == old(self).pressed + if res is Send {
                1int
            } else {
                0int
            },
    {
        if !last_ok {
            return DtmfStep::Done(Err(ApiError::OperationFailed));
        }
        if self.pressed < self.keys.len() {
            let mut key: String = String::new();
            key.push(self.keys[self.pressed]);
            assert(key@ =~= seq![self.keys@[self.pressed as int]]);
            self.pressed = self.pressed + 1;
            DtmfStep::Send(key)
        } else {
            DtmfStep::Done(Ok(()))
        }
    }
}

/// The keys that are still sent after some were pressed, and what the request is answered,
/// where `outcomes` says of each key whether it can be pressed.
pub open spec fn dtmf_run(
    keys: Seq<char>,
    outcomes: Seq<bool>,
    pressed: nat,
    last_ok: bool,
) -> (Seq<Seq<char>>, Result<(), ApiError>)
    decreases keys.len() - pressed,
{
    match dtmf_step(keys, pressed, last_ok) {
        DtmfStepView::Send(key) => if pressed < keys.len() {
            let rest = dtmf_run(keys, outcomes, pressed + 1, outcomes[pressed as int]);
            (seq![key] + rest.0, rest.1)
        } else {
            (seq![key], Ok(()))
        },
        DtmfStepView::Done(result) => (Seq::empty(), result),
    }
}

/// The keys of a request are sent one by one in their order, each once, up to and with the
/// first that fails. The request succeeds exactly where all of them were pressed, and
/// fails with the status 500 otherwise.
pub proof fn law_dtmf(keys: Seq<char>, outcomes: Seq<bool>)
    requires
        outcomes.len() == keys.len(),
    ensures
        ({
            let (sent, result) = dtmf_run(keys, outcomes, 0, true);
            &&& sent.len() <= keys.len()
            &&& forall|i: int| 0 <= i < sent.len() ==> #[trigger] sent[i] == seq![keys[i]]
            &&& forall|i: int| 0 <= i < sent.len() - 1 ==> #[trigger] outcomes[i]
            &&& result is Ok <==> forall|i: int| 0 <= i < keys.len() ==> #[trigger] outcomes[i]
            &&& match result {
                Ok(_) => sent.len() == keys.len(),
                Err(e) => {
                    &&& status_of(e) == 500
                    &&& sent.len() > 0
                    &&& !outcomes[sent.len() - 1]
                },
            }
        }),
{
    lemma_dtmf_rest(keys, outcomes, 0);
}

proof fn lemma_dtmf_rest(keys: Seq<char>, outcomes: Seq<bool>, pressed: nat)
    requires
        outcomes.len() == keys.len(),
        pressed <= keys.len(),
    ensures
        ({
            let (sent, result) = dtmf_run(keys, outcomes, pressed, true);
            &&& pressed + sent.len() <= keys.len()
            &&& forall|i: int| 0 <= i < sent.len() ==> #[trigger] sent[i] == seq![keys[pressed + i]]
            &&& forall|i: int|
                pressed <= i < pressed + sent.len() - 1 ==> #[trigger] outcomes[i]
            &&& result is Ok <==> forall|i: int|
                pressed <= i < keys.len() ==> #[trigger] outcomes[i]
            &&& match result {
                Ok(_) => pressed + sent.len() == keys.len(),
                Err(e) => {
                    &&& e == ApiError::OperationFailed
                    &&& sent.len() > 0
                    &&& !outcomes[pressed + sent.len() - 1]
                },
            }
        }),
    decreases keys.len() - pressed,
{
    if pressed < keys.len() {
        let (sent, result) = dtmf_run(keys, outcomes, pressed, true);
        let rest = dtmf_run(keys, outcomes, pressed + 1, outcomes[pressed as int]);
        assert(sent == seq![seq![keys[pressed as int]]] + rest.0);
        if outcomes[pressed as int] {
            lemma_dtmf_rest(keys, outcomes, pressed + 1);
        } else {
            assert(rest.0.len() == 0);
        }
    }
}

// ── Playing audio ──

/// Where the audio to play comes from.
#[derive(Debug, PartialEq)]
pub enum PlaySource<'a> {
    /// A WAV file at this address.
    Url(&'a str),
    /// Samples in base64.
    Inline(&'a str),
}

/// Where the audio to play comes from: an address counts before inline audio.
pub fn play_source(req: &PlayRequest) -> (res: Result<PlaySource<'_>, ApiError>)
    ensures
        match res {
            Ok(PlaySource::Url(url)) => text::text_option(req.url) == Some(url@),
            Ok(PlaySource::Inline(audio)) => req.url is None && text::text_option(req.audio)
                == Some(audio@),
            Err(e) => req.url is None && req.audio is None && e == ApiError::NoAudioSource,
        },
{
    match &req.url {
        Some(url) => Ok(PlaySource::Url(url.as_str())),
        None => match &req.audio {
            Some(audio) => Ok(PlaySource::Inline(audio.as_str())),
            None => Err(ApiError::NoAudioSource),
        },
    }
}

/// The samples of a WAV file, where it is in the format of a phone line.
pub open spec fn wav_samples(bytes: Seq<u8>) -> Result<Seq<i16>, ApiError> {
    match wav::wav_spec(bytes) {
        Ok((header, data)) => match wav::phone_format(header) {
            Ok(_) => Ok(audio::bytes_pcm(data)),
            Err(_) => Err(ApiError::InvalidAudio),
        },
        Err(_) => Err(ApiError::InvalidAudio),
    }
}

/// The samples of a fetched WAV file; `fetched` is nothing where fetching it failed.
pub fn url_samples(fetched: Option<&[u8]>) -> (res: Result<Vec<i16>, ApiError>)
    ensures
        match res {
            Ok(samples) => fetched is Some && wav_samples(fetched->0@) == Ok::<
                Seq<i16>,
                ApiError,
            >(samples@),
            Err(e) => match fetched {
                Some(bytes) => wav_samples(bytes@) == Err::<Seq<i16>, ApiError>(e),
                None => e == ApiError::FetchFailed,
            },
        },
{
    match fetched {
        None => Err(ApiError::FetchFailed),
        Some(bytes) => match wav::parse_wav(bytes) {
            Ok((header, data)) => match wav::ensure_8khz_mono_16bit(&header) {
                Ok(_) => Ok(audio::bytes_to_pcm16(data)),
                Err(_) => Err(ApiError::InvalidAudio),
            },
            Err(_) => Err(ApiError::InvalidAudio),
        },
    }
}

/// The samples of inline audio, once decoded from base64.
pub open spec fn inline_spec(bytes: Option<Seq<u8>>) -> Result<Seq<i16>, ApiError> {
    match bytes {
        Some(bytes) => Ok(audio::bytes_pcm(bytes)),
        None => Err(ApiError::InvalidAudio),
    }
}

/// The samples of inline audio, once decoded from base64; `bytes` is nothing where it was
/// no base64.
pub fn decoded_samples(bytes: Option<&[u8]>) -> (res: Result<Vec<i16>, ApiError>)
    ensures
        match res {
            Ok(samples) => bytes is Some && samples@ == audio::bytes_pcm(bytes->0@),
            Err(e) => bytes is None && e == ApiError::InvalidAudio,
        },
{
    match bytes {
        Some(b) => Ok(audio::bytes_to_pcm16(b)),
        None => Err(ApiError::InvalidAudio),
    }
}

/// The samples of inline audio.
pub fn inline_samples(audio: &str) -> (res: Result<Vec<i16>, ApiError>)
    ensures
        match res {
            Ok(samples) => inline_spec(ws::base64_bytes(audio@)) == Ok::<Seq<i16>, ApiError>(
                samples@,
            ),
            Err(e) => inline_spec(ws::base64_bytes(audio@)) == Err::<Seq<i16>, ApiError>(e),
        },
{
    match ws::base64_decode(audio) {
        Some(bytes) => decoded_samples(Some(bytes.as_slice())),
        None => decoded_samples(None),
    }
}

/// The id of a playback.
pub open spec fn play_id_of(counter: u64) -> Seq<char> {
    "play_"@ + text::decimal(counter as nat)
}

/// Different playbacks have different ids.
pub proof fn law_play_ids(a: u64, b: u64)
    requires
        play_id_of(a) == play_id_of(b),
    ensures
        a == b,
{
    let x = text::decimal(a as nat);
    let y = text::decimal(b as nat);
    let n = "play_"@.len() as int;
    assert(play_id_of(a).skip(n) =~= x);
    assert(play_id_of(b).skip(n) =~= y);
    text::lemma_decimal_injective(a as nat, b as nat);
}

/// A playback that has been started.
#[derive(Debug, PartialEq)]
pub struct StartedPlay {
    pub play_id: String,
    /// Whether a playback of the same call is to be cancelled. Its end is told all the same.
    pub cancel_previous: bool,
}

/// The state after a playback is started.
pub open spec fn after_play(s: StateView, id: Seq<char>) -> StateView {
    StateView {
        plays: s.plays.insert(id, play_id_of(s.play_counter)),
        play_counter: metrics::more(s.play_counter),
        ..s
    }
}

/// Starts a playback on a call, in place of one that is running. `writer` says whether
/// the call takes audio.
fn start_play(s: &mut AppState, call_id: &str, writer: bool) -> (res: Result<
    StartedPlay,
    ApiError,
>)
    requires
        old(s).wf(),
    ensures
        final(s).wf(),
        match res {
            Ok(play) => {
                &&& writer
                &&& play.play_id@ == play_id_of(old(s)@.play_counter)
                &&& play.cancel_previous == old(s)@.plays.contains_key(call_id@)
                &&& final(s)@ == after_play(old(s)@, call_id@)
            },
            Err(e) => !writer && e == ApiError::AudioUnavailable && final(s)@ == old(s)@,
        },
{
    if !writer {
        return Err(ApiError::AudioUnavailable);
    }
    let cancel_previous: bool = s.plays.contains(call_id);
    let mut play_id: String = String::from_str("play_");
    text::push_decimal(&mut play_id, s.play_counter);
    s.play_counter = s.play_counter.wrapping_add(1);
    s.plays.insert(call_id, play_id.clone());
    assert(s@.plays =~= after_play(old(s)@, call_id@).plays);
    Ok(StartedPlay { play_id, cancel_previous })
}

/// Answers a request to play audio: the call has to be there, then the audio has to be
/// usable, then the call has to take audio. `samples` is the audio, or why it is not
/// usable.
pub fn play_call(
    s: &mut AppState,
    call_id: &str,
    samples: &Result<Vec<i16>, ApiError>,
    writer: bool,
) -> (res: Result<StartedPlay, ApiError>)
    requires
        old(s).wf(),
    ensures
        final(s).wf(),
        match res {
            Ok(play) => {
                &&& old(s)@.controls.contains_key(call_id@)
                &&& samples is Ok
                &&& writer
                &&& play.play_id@ == play_id_of(old(s)@.play_counter)
                &&& play.cancel_previous == old(s)@.plays.contains_key(call_id@)
                &&& final(s)@ == after_play(old(s)@, call_id@)
            },
            Err(e) => {
                &&& final(s)@ == old(s)@
                &&& if !old(s)@.controls.contains_key(call_id@) {
                    e == ApiError::CallNotFound
                } else if samples is Err {
                    samples == Err::<Vec<i16>, ApiError>(e)
                } else {
                    !writer && e == ApiError::AudioUnavailable
                }
            },
        },
{
    match find_call(s, call_id) {
        Ok(_) => {},
        Err(e) => {
            return Err(e);
        },
    }
    match samples {
        Ok(_) => start_play(s, call_id, writer),
        Err(e) => Err(*e),
    }
}

/// Stops the playback of a call. It is told of when it ends, as interrupted.
pub fn stop_play(s: &mut AppState, call_id: &str) -> (res: Result<(), ApiError>)
    requires
        old(s).wf(),
    ensures
        final(s).wf(),
        final(s)@ == (StateView { plays: old(s)@.plays.remove(call_id@), ..old(s)@ }),
        res == if old(s)@.plays.contains_key(call_id@) {
            Ok::<(), ApiError>(())
        } else {
            Err::<(), ApiError>(ApiError::PlaybackNotFound)
        },
{
    let stopped: bool = s.plays.remove(call_id).is_some();
    assert(s@.plays =~= old(s)@.plays.remove(call_id@));
    if stopped {
        Ok(())
    } else {
        Err(ApiError::PlaybackNotFound)
    }
}

/// The state after a playback of a call has ended. Another one that has since been started
/// on the call stays.
pub open spec fn play_ended(s: StateView, id: Seq<char>, play_id: Seq<char>) -> StateView {
    if s.plays.contains_key(id) && s.plays[id] == play_id {
        StateView { plays: s.plays.remove(id), ..s }
    } else {
        s
    }
}

/// Takes note that a playback has ended, and tells the application.
pub fn finish_play(s: &mut AppState, call_id: &str, play_id: &str, interrupted: bool) -> (res:
    WebhookEvent)
    requires
        old(s).wf(),
    ensures
        final(s).wf(),
        final(s)@ == play_ended(old(s)@, call_id@, play_id@),
        res@ == (EventView::PlayFinished { call_id: call_id@, play_id: play_id@, interrupted }),
{
    let running: bool = match s.plays.get(call_id) {
        Some(running_id) => text::same_text(running_id.as_str(), play_id),
        None => false,
    };
    if running {
        let _ = s.plays.remove(call_id);
        assert(s@.plays =~= old(s)@.plays.remove(call_id@));
    }
    WebhookEvent::PlayFinished {
        call_id: call_id.to_owned(),
        play_id: play_id.to_owned(),
        interrupted,
    }
}

/// The end of a playback does not touch one that has been started on the call since,
/// whether the first was stopped before or replaced.
pub proof fn law_later_play_stays(s: StateView, id: Seq<char>, counter: u64)
    requires
        s.plays.contains_key(id),
        s.plays[id] == play_id_of(counter),
        counter != s.play_counter,
    ensures
        ({
            let stopped = StateView { plays: s.plays.remove(id), ..s };
            let again = after_play(stopped, id);
            &&& play_ended(again, id, play_id_of(counter)) == again
            &&& again.plays.contains_key(id)
            &&& again.plays[id] == play_id_of(s.play_counter)
        }),
        play_ended(after_play(s, id), id, play_id_of(counter)) == after_play(s, id),
{
    if play_id_of(counter) == play_id_of(s.play_counter) {
        law_play_ids(counter, s.play_counter);
    }
}

/// The rounds of a playback that are left, or none where it goes on without end.
#[derive(Debug, Clone, Copy, PartialEq, Eq, Structural)]
pub struct PlayLoop {
    pub left: Option<u32>,
}

/// What a playback does next.
#[derive(Debug, Clone, Copy, PartialEq, Eq, Structural)]
pub enum PlayStep {
    /// Play the samples once more.
    Play,
    /// End, cut short or not.
    Finished(bool),
}

impl PlayLoop {
    /// A playback of so many rounds, zero for without end.
    pub fn new(loop_count: u32) -> (p: Self)
        ensures
            p.left == rounds_of(loop_count),
    {
        PlayLoop {
            left: if loop_count == 0 {
                None
            } else {
                Some(loop_count)
            },
        }
    }

    /// What to do next. `writable` says whether the call took the samples of the last
    /// round.
    pub fn next(&mut self, cancelled: bool, writable: bool) -> (res: PlayStep)
        ensures
            (res, final(self).left) == next_round(old(self).left, cancelled, writable),
    {
        match self.left {
            Some(0) => {
                return PlayStep::Finished(!writable);
            },
            _ => {},
        }
        if cancelled || !writable {
            return PlayStep::Finished(true);
        }
        match self.left {
            Some(n) => {
                self.left = Some(n - 1);
            },
            None => {},
        }
        PlayStep::Play
    }
}

/// The rounds that a request asks for, or none for without end.
pub open spec fn rounds_of(loop_count: u32) -> Option<u32> {
    if loop_count == 0 {
        None
    } else {
        Some(loop_count)
    }
}

/// What a playback does next, and the rounds that are left then: it plays while there are
/// any, unless it was cancelled or the call no longer takes audio.
pub open spec fn next_round(
    left: Option<u32>,
    cancelled: bool,
    writable: bool,
) -> (PlayStep, Option<u32>) {
    if left == Some(0u32) {
        (PlayStep::Finished(!writable), left)
    } else if cancelled || !writable {
        (PlayStep::Finished(true), left)
    } else {
        (
            PlayStep::Play,
            match left {
                Some(n) => Some((n - 1) as u32),
                None => None,
            },
        )
    }
}

/// What a playback does after so many rounds that nothing interrupted.
pub open spec fn step_after(loop_count: u32, rounds: nat) -> (PlayStep, Option<u32>)
    decreases rounds,
{
    next_round(
        if rounds == 0 {
            rounds_of(loop_count)
        } else {
            step_after(loop_count, (rounds - 1) as nat).1
        },
        false,
        true,
    )
}

/// A playback that nothing interrupts plays as many rounds as were asked for and then
/// ends as not interrupted; one without end goes on playing.
pub proof fn law_play_rounds(loop_count: u32, rounds: nat)
    ensures
        loop_count == 0 || rounds < loop_count ==> step_after(loop_count, rounds).0
            == PlayStep::Play,
        loop_count > 0 && rounds >= loop_count ==> step_after(loop_count, rounds).0
            == PlayStep::Finished(false),
    decreases rounds,
{
    lemma_rounds_left(loop_count, rounds);
    if rounds > 0 {
        lemma_rounds_left(loop_count, (rounds - 1) as nat);
    }
}

proof fn lemma_rounds_left(loop_count: u32, rounds: nat)
    ensures
        step_after(loop_count, rounds).1 == if loop_count == 0 {
            None::<u32>
        } else if rounds < loop_count {
            Some((loop_count - rounds - 1) as u32)
        } else {
            Some(0u32)
        },
    decreases rounds,
{
    if rounds > 0 {
        lemma_rounds_left(loop_count, (rounds - 1) as nat);
    }
}

/// A playback that is cancelled with rounds left, or whose call no longer takes audio, ends
/// as interrupted.
pub proof fn law_play_interrupted(left: Option<u32>, cancelled: bool, writable: bool)
    requires
        !writable || (cancelled && left != Some(0u32)),
    ensures
        next_round(left, cancelled, writable).0 == PlayStep::Finished(true),
{
}

/// What is played of a WAV file in the format of a phone line, or of inline audio, are the
/// samples that were put in it.
pub proof fn law_playback(
    size: u32,
    header: wav::WavHeader,
    rates: Seq<u8>,
    others: Seq<(Seq<u8>, Seq<u8>)>,
    samples: Seq<i16>,
)
    requires
        wav::phone_format(header) is Ok,
        rates.len() == 6,
        2 * samples.len() <= u32::MAX,
        forall|i: int|
            0 <= i < others.len() ==> {
                &&& (#[trigger] others[i]).0.len() == 4
                &&& others[i].0 != wav::fmt_tag()
                &&& others[i].0 != wav::data_tag()
                &&& others[i].1.len() <= u32::MAX
            },
    ensures
        wav_samples(wav::wav_file(size, header, rates, others, audio::pcm_bytes(samples))) == Ok::<
            Seq<i16>,
            ApiError,
        >(samples),
        inline_spec(Some(audio::pcm_bytes(samples))) == Ok::<Seq<i16>, ApiError>(samples),
{
    audio::law_pcm_bytes(samples);
    wav::law_wav_round_trip(size, header, rates, others, audio::pcm_bytes(samples));
}

// ── More laws ──

/// A request that is at fault is answered with a status from 400 on, one that names nothing
/// there is with 404, and one that the gateway cannot carry out with a status from 500 on.
pub proof fn law_error_status(e: ApiError)
    ensures
        status_of(e) == 404 <==> e == ApiError::CallNotFound || e == ApiError::TrunkNotFound || e
            == ApiError::PeerNotFound || e == ApiError::PlaybackNotFound,
        status_of(e) == 400 <==> e == ApiError::NoAudioSource || e == ApiError::InvalidAudio,
        status_of(e) == 401 <==> e == ApiError::Unauthorized,
        status_of(e) == 422 <==> e == ApiError::PeerHasNoHost,
        status_of(e) == 429 <==> e == ApiError::RateLimited,
        status_of(e) == 503 <==> e == ApiError::NoTrunkConnected || e
            == ApiError::ServerNotRunning,
        status_of(e) == 500 <==> e == ApiError::OperationFailed || e == ApiError::AudioUnavailable
            || e == ApiError::FetchFailed,
{
}

/// Where a key is configured, a request shows it by `Bearer`, a space and exactly the key;
/// no other header counts, and where no key is configured every request is in order.
pub proof fn law_key(key: Seq<char>, header: Seq<char>)
    ensures
        key_shown(None, None),
        key_shown(None, Some(header)),
        !key_shown(Some(key), None),
        key_shown(Some(key), Some(seq!['B', 'e', 'a', 'r', 'e', 'r', ' '] + key)),
        key_shown(Some(key), Some(header)) <==> {
            &&& header.len() == 7 + key.len()
            &&& header.take(7) == seq!['B', 'e', 'a', 'r', 'e', 'r', ' ']
            &&& header.skip(7) == key
        },
{
    reveal_strlit("Bearer ");
    let scheme = seq!['B', 'e', 'a', 'r', 'e', 'r', ' '];
    assert("Bearer "@ =~= scheme);
    assert((scheme + key).take(7) =~= scheme);
    assert((scheme + key).skip(7) =~= key);
    if header.len() == 7 + key.len() && header.take(7) == scheme && header.skip(7) == key {
        assert(header =~= header.take(7) + header.skip(7));
    }
}

/// A request for health or metrics is let in whatever the limit and the key say. Any other
/// is refused for its rate where the limit is reached, whether or not it shows the key; for
/// its key where it shows none; and else let in.
pub proof fn law_let_in(
    path: Seq<char>,
    bucket: rate_limit::BucketView,
    now: int,
    api_key: Option<Seq<char>>,
    header: Option<Seq<char>>,
)
    ensures
        is_public_path(path) <==> path == seq!['/', 'h', 'e', 'a', 'l', 't', 'h'] || path == seq![
            '/', 'm', 'e', 't', 'r', 'i', 'c', 's'
        ],
        is_public_path(path) ==> admission(path, Some(bucket), now, api_key, header) is Ok,
        !is_public_path(path) && !rate_limit::admits(bucket, now) ==> admission(
            path,
            Some(bucket),
            now,
            api_key,
            header,
        ) == Err::<(), ApiError>(ApiError::RateLimited),
        !is_public_path(path) && rate_limit::admits(bucket, now) ==> admission(
            path,
            Some(bucket),
            now,
            api_key,
            header,
        ) == admission(path, None, now, api_key, header),
        !is_public_path(path) && !key_shown(api_key, header) ==> admission(
            path,
            None,
            now,
            api_key,
            header,
        ) == Err::<(), ApiError>(ApiError::Unauthorized),
        key_shown(api_key, header) ==> admission(path, None, now, api_key, header) is Ok,
{
    reveal_strlit("/health");
    reveal_strlit("/metrics");
    assert("/health"@ =~= seq!['/', 'h', 'e', 'a', 'l', 't', 'h']);
    assert("/metrics"@ =~= seq!['/', 'm', 'e', 't', 'r', 'i', 'c', 's']);
}

/// The address of the WebSocket of a call is made of the host that the client asked, or
/// else the configured one, and the id of the call.
pub proof fn law_ws_address(host: Seq<char>, listen: Seq<char>, call_id: Seq<char>)
    ensures
        ws_address(Some(host), listen, call_id) == seq!['w', 's', ':', '/', '/'] + host + seq![
            '/', 'w', 's', '/'
        ] + call_id,
        ws_address(None, listen, call_id) == seq!['w', 's', ':', '/', '/'] + listen + seq![
            '/', 'w', 's', '/'
        ] + call_id,
{
    reveal_strlit("ws://");
    reveal_strlit("/ws/");
    assert("ws://"@ =~= seq!['w', 's', ':', '/', '/']);
    assert("/ws/"@ =~= seq!['/', 'w', 's', '/']);
}

/// A call goes through a trunk only where it names no peer, and only through a connected
/// one: the one that it names, or the one named `default`. It goes to a peer only where it
/// names one, this is configured with a host, and the trunk host runs.
pub proof fn law_route(
    s: StateView,
    peer: Option<Seq<char>>,
    trunk: Option<Seq<char>>,
    name: Seq<char>,
)
    ensures
        route_of(s, peer, trunk) == Ok::<RouteView, ApiError>(RouteView::Trunk(name)) <==> {
            &&& peer is None
            &&& s.phones.contains_key(name)
            &&& name == match trunk {
                Some(named) => named,
                None => seq!['d', 'e', 'f', 'a', 'u', 'l', 't'],
            }
        },
        route_of(s, peer, trunk) == Ok::<RouteView, ApiError>(RouteView::Peer(name)) <==> {
            &&& peer == Some(name)
            &&& s.server_running
            &&& s.config.server matches Some(server) && trunk::config::peer_named(
                server.peers@,
                name,
            ) matches Some(p) && p.host is Some
        },
{
    reveal_strlit("default");
    assert("default"@ =~= seq!['d', 'e', 'f', 'a', 'u', 'l', 't']);
}

/// Why a call cannot be placed: the peer is not configured, or has no host, or the trunk
/// host does not run; or no trunk is connected, or not the one that is asked for.
pub proof fn law_no_route(s: StateView, peer: Option<Seq<char>>, trunk: Option<Seq<char>>)
    ensures
        route_of(s, peer, trunk) matches Err(e) ==> match e {
            ApiError::PeerNotFound => peer matches Some(name) && match s.config.server {
                Some(server) => forall|i: int|
                    0 <= i < server.peers@.len() ==> (#[trigger] server.peers@[i]).name@ != name,
                None => true,
            },
            ApiError::PeerHasNoHost => peer matches Some(name) && s.config.server matches Some(
                server,
            ) && trunk::config::peer_named(server.peers@, name) matches Some(p) && p.host is None,
            ApiError::ServerNotRunning => peer is Some && !s.server_running,
            ApiError::NoTrunkConnected => peer is None && forall|name: Seq<char>|
                !#[trigger] s.phones.contains_key(name),
            ApiError::TrunkNotFound => peer is None && exists|name: Seq<char>|
                #[trigger] s.phones.contains_key(name),
            _ => false,
        },
{
    if let (Some(name), Some(server)) = (peer, s.config.server) {
        let peers = server.peers@;
        trunk::config::law_first_peer(peers, name, Seq::new(peers.len(), |i: int| true));
    }
    if peer is None && route_of(s, peer, trunk) == Err::<RouteView, ApiError>(
        ApiError::TrunkNotFound,
    ) {
        if forall|name: Seq<char>| !#[trigger] s.phones.contains_key(name) {
            assert(s.phones =~= Map::<Seq<char>, ()>::empty());
        }
    }
}

/// A call that was placed is kept as an outbound call that dials, under its own id and with
/// the numbers of the request, with the name of a peer where it went to one; it can be
/// controlled and is counted once, and no other call is touched.
pub proof fn law_placed(
    s: StateView,
    call_id: Seq<char>,
    from: Seq<char>,
    to: Seq<char>,
    route: RouteView,
    webhook_url: Option<Seq<char>>,
    other: Seq<char>,
)
    requires
        s.metrics.calls_outbound < u64::MAX,
    ensures
        ({
            let call = placed_call(call_id, from, to, route);
            let after = after_placed(s, call, webhook_url);
            &&& call.call_id == call_id && call.from == from && call.to == to
            &&& call.direction == CallDirection::Outbound && call.status == CallStatus::Dialing
            &&& call.peer is Some <==> route is Peer
            &&& route matches RouteView::Peer(name) ==> call.peer == Some(name)
            &&& after.calls.contains_key(call_id) && after.calls[call_id] == call
            &&& after.controls.contains_key(call_id)
            &&& after.metrics.calls_outbound == s.metrics.calls_outbound + 1
            &&& after.metrics.calls_inbound == s.metrics.calls_inbound
            &&& other != call_id ==> {
                &&& after.calls.contains_key(other) <==> s.calls.contains_key(other)
                &&& s.calls.contains_key(other) ==> after.calls[other] == s.calls[other]
                &&& after.controls.contains_key(other) <==> s.controls.contains_key(other)
                &&& after.webhook_urls.contains_key(other) <==> s.webhook_urls.contains_key(other)
            }
            &&& webhook_url is None ==> after.webhook_urls == s.webhook_urls
        }),
{
}

/// What is played of a WAV file are the samples of its data chunk, whatever other chunks it
/// has and wherever they stand, as long as it is mono, of 8000 samples a second and 16 bits
/// a sample; a file of another format is refused.
pub proof fn law_wav_played(
    size: u32,
    before: Seq<(Seq<u8>, Seq<u8>)>,
    between: Seq<(Seq<u8>, Seq<u8>)>,
    after: Seq<(Seq<u8>, Seq<u8>)>,
    header: wav::WavHeader,
    rates: Seq<u8>,
    more: Seq<u8>,
    samples: Seq<i16>,
)
    requires
        wav::other_chunks(before),
        wav::other_chunks(between),
        wav::other_chunks(after),
        rates.len() == 6,
        more.len() <= u32::MAX - 16,
        2 * samples.len() <= u32::MAX,
    ensures
        ({
            let fmt = wav::chunk(wav::fmt_tag(), wav::fmt_content(header, rates) + more);
            let data = wav::chunk(wav::data_tag(), audio::pcm_bytes(samples));
            let file = wav::file_start(size) + wav::chunk_list(before) + fmt + wav::chunk_list(
                between,
            ) + data + wav::chunk_list(after);
            wav_samples(file) == if header.channels == 1 && header.sample_rate == 8000
                && header.bits_per_sample == 16 {
                Ok::<Seq<i16>, ApiError>(samples)
            } else {
                Err::<Seq<i16>, ApiError>(ApiError::InvalidAudio)
            }
        }),
{
    audio::law_pcm_bytes(samples);
    wav::law_wav_chunks(
        size,
        before,
        between,
        after,
        header,
        rates,
        more,
        audio::pcm_bytes(samples),
    );
    wav::law_phone_format(header);
}

/// A playback that is started is the one that runs on its call, under an id that no earlier
/// one had, and other calls play on; one that ends runs no longer, and is the only one that
/// stops.
pub proof fn law_play(s: StateView, id: Seq<char>, other: Seq<char>)
    requires
        other != id,
        s.play_counter < u64::MAX,
    ensures
        ({
            let started = after_play(s, id);
            let ended = play_ended(started, id, play_id_of(s.play_counter));
            &&& started.plays.contains_key(id)
            &&& started.plays[id] == play_id_of(s.play_counter)
            &&& started.play_counter == s.play_counter + 1
            &&& started.plays.contains_key(other) <==> s.plays.contains_key(other)
            &&& s.plays.contains_key(other) ==> started.plays[other] == s.plays[other]
            &&& !ended.plays.contains_key(id)
            &&& ended.plays.contains_key(other) <==> s.plays.contains_key(other)
            &&& started == StateView {
                plays: started.plays,
                play_counter: started.play_counter,
                ..s
            }
        }),
{
}

/// The id of a playback is `play_` and its number.
pub proof fn law_play_id(counter: u64)
    ensures
        play_id_of(counter) == seq!['p', 'l', 'a', 'y', '_'] + text::decimal(counter as nat),
{
    reveal_strlit("play_");
    assert("play_"@ =~= seq!['p', 'l', 'a', 'y', '_']);
}

/// What a refused request is told.
pub proof fn law_error_messages()
    ensures
        message_of(ApiError::NoAudioSource) == "No audio source"@,
        message_of(ApiError::InvalidAudio) == "Invalid audio"@,
        message_of(ApiError::Unauthorized) == "Missing or invalid authorization"@,
        message_of(ApiError::CallNotFound) == "Call not found"@,
        message_of(ApiError::TrunkNotFound) == "Trunk not found"@,
        message_of(ApiError::PeerNotFound) == "Peer not found"@,
        message_of(ApiError::PlaybackNotFound) == "No active playback"@,
        message_of(ApiError::PeerHasNoHost) == "Peer has no host configured"@,
        message_of(ApiError::RateLimited) == "Rate limit exceeded"@,
        message_of(ApiError::OperationFailed) == "Call operation failed"@,
        message_of(ApiError::AudioUnavailable) == "Audio writer not available"@,
        message_of(ApiError::FetchFailed) == "Audio fetch failed"@,
        message_of(ApiError::NoTrunkConnected) == "No SIP trunk connected"@,
        message_of(ApiError::ServerNotRunning) == "Trunk host server not running"@,
{
}

/// Hanging up a call that is not kept ends what controls it all the same; a stream or a
/// playback of that name goes on, and so does everything else.
pub proof fn law_hangup_unknown(s: StateView, id: Seq<char>)
    requires
        !s.calls.contains_key(id),
    ensures
        !hung_up(s, id).controls.contains_key(id),
        hung_up(s, id) == (StateView { controls: s.controls.remove(id), ..s }),
{
    assert(s.calls.remove(id) =~= s.calls);
}

/// Hanging up changes nothing but the call, what controls it, its stream and its playback:
/// what was counted, where its events go, the trunks and the streams and playbacks of other
/// calls stay.
pub proof fn law_hangup_keeps(s: StateView, id: Seq<char>, other: Seq<char>)
    requires
        other != id,
    ensures
        ({
            let after = hung_up(s, id);
            &&& after == StateView {
                calls: after.calls,
                controls: after.controls,
                ws_senders: after.ws_senders,
                plays: after.plays,
                ..s
            }
            &&& after.controls.contains_key(other) <==> s.controls.contains_key(other)
            &&& after.ws_senders.contains_key(other) <==> s.ws_senders.contains_key(other)
            &&& after.plays.contains_key(other) <==> s.plays.contains_key(other)
            &&& s.plays.contains_key(other) ==> after.plays[other] == s.plays[other]
        }),
{
}

/// A playback that has played its last round ends as not interrupted where the call took
/// that round, even if it is cancelled then. Each round that is played leaves one less, and
/// a playback without end as many.
pub proof fn law_last_round(left: Option<u32>, cancelled: bool, writable: bool)
    ensures
        next_round(Some(0u32), cancelled, writable).0 == PlayStep::Finished(!writable),
        next_round(left, cancelled, writable).0 == PlayStep::Play <==> left != Some(0u32)
            && !cancelled && writable,
        next_round(left, cancelled, writable).0 == PlayStep::Play ==> match left {
            Some(n) => n > 0 && next_round(left, cancelled, writable).1 == Some((n - 1) as u32),
            None => next_round(left, cancelled, writable).1 is None,
        },
        next_round(left, cancelled, writable).0 != PlayStep::Play ==> next_round(
            left,
            cancelled,
            writable,
        ).1 == left,
{
}

/// Audio that is no WAV file, or no base64, is refused as invalid.
pub proof fn law_invalid_audio(bytes: Seq<u8>)
    ensures
        wav::wav_spec(bytes) is Err ==> wav_samples(bytes) == Err::<Seq<i16>, ApiError>(
            ApiError::InvalidAudio,
        ),
        wav_samples(bytes) matches Ok(samples) ==> (wav::wav_spec(bytes) matches Ok((header, data))
            && samples.len() == data.len() / 2),
        inline_spec(None) == Err::<Seq<i16>, ApiError>(ApiError::InvalidAudio),
        inline_spec(Some(bytes)) matches Ok(samples) && samples.len() == bytes.len() / 2,
{
}

} // verus!
