//! The state of the gateway: its calls, what is connected, and what is playing.

use vstd::prelude::*;

use crate::call::{CallInfo, CallStatus, CallView};
use crate::config::Config;
use crate::metrics;
use crate::metrics::{Metrics, MetricsView};
use crate::registry::Registry;

verus! {

/// Calls by their id.
pub type CallRegistry = Registry<CallInfo>;

/// The calls that can be controlled, by their id.
pub type XphoneCallRegistry = Registry<()>;

/// The connected trunks, by name.
pub type PhoneRegistry = Registry<()>;

/// The calls whose audio goes to a WebSocket, by their id.
pub type WsSenderRegistry = Registry<()>;

/// The playback of each call, by the call's id.
pub type PlayRegistry = Registry<String>;

/// The state of the gateway.
pub struct AppState {
    pub calls: CallRegistry,
    pub xphone_calls: XphoneCallRegistry,
    pub phones: PhoneRegistry,
    /// Whether the trunk host is running.
    pub server_running: bool,
    pub config: Config,
    pub metrics: Metrics,
    pub ws_senders: WsSenderRegistry,
    pub plays: PlayRegistry,
    /// How many playbacks have been started.
    pub play_counter: u64,
    /// Where the events of a call go, for calls whose request says so.
    pub webhook_urls: Registry<String>,
}

/// What the state holds.
#[verifier::ext_equal]
pub struct StateView {
    pub calls: Map<Seq<char>, CallView>,
    pub controls: Map<Seq<char>, ()>,
    pub phones: Map<Seq<char>, ()>,
    pub server_running: bool,
    pub config: Config,
    pub metrics: MetricsView,
    pub ws_senders: Map<Seq<char>, ()>,
    pub plays: Map<Seq<char>, Seq<char>>,
    pub play_counter: u64,
    pub webhook_urls: Map<Seq<char>, Seq<char>>,
}

pub open spec fn calls_view(calls: Map<Seq<char>, CallInfo>) -> Map<Seq<char>, CallView> {
    Map::new(|id: Seq<char>| calls.contains_key(id), |id: Seq<char>| calls[id]@)
}

pub open spec fn texts_by_id(texts: Map<Seq<char>, String>) -> Map<Seq<char>, Seq<char>> {
    Map::new(|id: Seq<char>| texts.contains_key(id), |id: Seq<char>| texts[id]@)
}

impl View for AppState {
    type V = StateView;

    open spec fn view(&self) -> StateView {
        StateView {
            calls: calls_view(self.calls@),
            controls: self.xphone_calls@,
            phones: self.phones@,
            server_running: self.server_running,
            config: self.config,
            metrics: self.metrics@,
            ws_senders: self.ws_senders@,
            plays: texts_by_id(self.plays@),
            play_counter: self.play_counter,
            webhook_urls: texts_by_id(self.webhook_urls@),
        }
    }
}

/// The state with a call's status set, if there is such a call.
pub open spec fn with_status(s: StateView, id: Seq<char>, status: CallStatus) -> StateView {
    if s.calls.contains_key(id) {
        StateView { calls: s.calls.insert(id, CallView { status, ..s.calls[id] }), ..s }
    } else {
        s
    }
}

impl AppState {
    /// Whether the registries and the metrics are well formed, and every call is kept
    /// under its own id.
    pub open spec fn wf(&self) -> bool {
        &&& self.calls.wf()
        &&& self.xphone_calls.wf()
        &&& self.phones.wf()
        &&& self.metrics.wf()
        &&& self.ws_senders.wf()
        &&& self.plays.wf()
        &&& self.webhook_urls.wf()
        &&& keyed(self@.calls)
    }

    /// The state of a gateway that has just been started.
    pub fn new(config: Config) -> (s: Self)
        ensures
            s.wf(),
            s@.calls == Map::<Seq<char>, CallView>::empty(),
            s@.controls == Map::<Seq<char>, ()>::empty(),
            s@.phones == Map::<Seq<char>, ()>::empty(),
            !s@.server_running,
            s@.config == config,
            metrics::is_fresh(s@.metrics),
            s@.ws_senders == Map::<Seq<char>, ()>::empty(),
            s@.plays == Map::<Seq<char>, Seq<char>>::empty(),
            s@.play_counter == 0,
            s@.webhook_urls == Map::<Seq<char>, Seq<char>>::empty(),
    {
        let s = AppState {
            calls: Registry::new(),
            xphone_calls: Registry::new(),
            phones: Registry::new(),
            server_running: false,
            config,
            metrics: Metrics::new(),
            ws_senders: Registry::new(),
            plays: Registry::new(),
            play_counter: 0,
            webhook_urls: Registry::new(),
        };
        assert(s@.calls =~= Map::<Seq<char>, CallView>::empty());
        assert(s@.plays =~= Map::<Seq<char>, Seq<char>>::empty());
        assert(s@.webhook_urls =~= Map::<Seq<char>, Seq<char>>::empty());
        s
    }

    /// Where the events of a call go.
    pub fn event_url(&self, id: &str) -> (res: String)
        requires
            self.wf(),
        ensures
            res@ == event_url_of(self@, id@),
    {
        match self.webhook_urls.get(id) {
            Some(url) => url.clone(),
            None => self.config.webhook.url.clone(),
        }
    }

    /// Keeps a call under its id.
    pub fn insert_call(&mut self, info: CallInfo)
        requires
            old(self).wf(),
        ensures
            final(self).wf(),
            final(self)@ == (StateView {
                calls: old(self)@.calls.insert(info@.call_id, info@),
                ..old(self)@
            }),
    {
        let id: String = info.call_id.clone();
        self.calls.insert(id.as_str(), info);
        assert(self@.calls =~= old(self)@.calls.insert(info@.call_id, info@));
    }

    /// Takes a call out.
    pub fn remove_call(&mut self, id: &str) -> (res: Option<CallInfo>)
        requires
            old(self).wf(),
        ensures
            final(self).wf(),
            final(self)@ == (StateView { calls: old(self)@.calls.remove(id@), ..old(self)@ }),
            match res {
                Some(info) => old(self)@.calls.contains_key(id@) && info@ == old(self)@.calls[id@],
                None => !old(self)@.calls.contains_key(id@),
            },
    {
        let res: Option<CallInfo> = self.calls.remove(id);
        assert(self@.calls =~= old(self)@.calls.remove(id@));
        res
    }

    /// Sets the status of a call, if there is such a call.
    pub fn set_status(&mut self, id: &str, status: CallStatus)
        requires
            old(self).wf(),
        ensures
            final(self).wf(),
            final(self)@ == with_status(old(self)@, id@, status),
    {
        match self.remove_call(id) {
            Some(info) => {
                let mut info: CallInfo = info;
                info.status = status;
                self.insert_call(info);
                assert(self@.calls =~= with_status(old(self)@, id@, status).calls);
            },
            None => {
                assert(self@.calls =~= old(self)@.calls);
            },
        }
    }
}

/// Where the events of a call go: where its request says, or else where configured.
pub open spec fn event_url_of(s: StateView, id: Seq<char>) -> Seq<char> {
    if s.webhook_urls.contains_key(id) {
        s.webhook_urls[id]
    } else {
        s.config.webhook.url@
    }
}

/// Whether every call is kept under its own id.
pub open spec fn keyed(calls: Map<Seq<char>, CallView>) -> bool {
    forall|id: Seq<char>| #[trigger] calls.contains_key(id) ==> calls[id].call_id == id
}

/// Setting the status of a call changes that and nothing else; of a call that is not kept
/// nothing is set.
pub proof fn law_with_status(s: StateView, id: Seq<char>, status: CallStatus, other: Seq<char>)
    ensures
        ({
            let after = with_status(s, id, status);
            &&& !s.calls.contains_key(id) ==> after == s
            &&& s.calls.contains_key(id) ==> after.calls.contains_key(id) && after.calls[id]
                == CallView { status, ..s.calls[id] }
            &&& other != id ==> {
                &&& after.calls.contains_key(other) <==> s.calls.contains_key(other)
                &&& s.calls.contains_key(other) ==> after.calls[other] == s.calls[other]
            }
            &&& after == StateView { calls: after.calls, ..s }
        }),
{
}

/// The events of a call go where its request says, and where that says nothing to the
/// configured address.
pub proof fn law_event_url(s: StateView, id: Seq<char>)
    ensures
        s.webhook_urls.contains_key(id) ==> event_url_of(s, id) == s.webhook_urls[id],
        !s.webhook_urls.contains_key(id) ==> event_url_of(s, id) == s.config.webhook.url@,
{
}

} // verus!
