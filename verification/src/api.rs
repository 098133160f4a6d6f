//! What requests, responses and webhooks carry.

use vstd::prelude::*;

use crate::call::{CallDirection, CallInfo, CallStatus};
use crate::text;

verus! {

/// A request to place a call.
#[derive(Debug, Clone, PartialEq)]
pub struct CreateCallRequest {
    pub to: String,
    pub from: String,
    /// Where the events of this call go instead of the configured address.
    pub webhook_url: Option<String>,
    pub stream: Option<bool>,
    /// The trunk to call through.
    pub trunk: Option<String>,
    /// The trunk host peer to call, in place of a trunk.
    pub peer: Option<String>,
}

/// The answer to a request to place a call.
#[derive(Debug, Clone, PartialEq)]
pub struct CreateCallResponse {
    pub call_id: String,
    pub status: CallStatus,
    pub ws_url: String,
}

/// The list of calls.
#[derive(Debug, PartialEq)]
pub struct CallListResponse {
    pub calls: Vec<CallInfo>,
}

/// A request to transfer a call.
#[derive(Debug, Clone, PartialEq)]
pub struct TransferRequest {
    pub target: String,
}

/// A request to press keys.
#[derive(Debug, Clone, PartialEq)]
pub struct DtmfRequest {
    pub digits: String,
}

/// What the application is asked of an incoming call.
#[derive(Debug, Clone, PartialEq)]
pub struct IncomingCallWebhook {
    pub call_id: String,
    pub from: String,
    pub to: String,
    pub direction: CallDirection,
    /// The trunk host peer that the call came from, if any.
    pub peer: Option<String>,
}

/// What the application answers.
#[derive(Debug, Clone, PartialEq)]
pub struct IncomingCallResponse {
    pub action: IncomingCallAction,
    pub stream: Option<bool>,
    /// Why the call is rejected.
    pub reason: Option<String>,
}

/// Whether the application takes a call.
#[derive(Debug, Clone, Copy, PartialEq, Eq, Structural)]
pub enum IncomingCallAction {
    Accept,
    Reject,
}

/// A request to play audio into a call.
#[derive(Debug, Clone, PartialEq)]
pub struct PlayRequest {
    /// The address of a WAV file.
    pub url: Option<String>,
    /// Samples in base64.
    pub audio: Option<String>,
    /// How often to play them, zero for without end.
    pub loop_count: u32,
}

/// The answer to a request to play audio.
#[derive(Debug, Clone, PartialEq)]
pub struct PlayResponse {
    pub play_id: String,
}

/// Audio is played once where a request does not say how often.
pub fn default_loop_count() -> (res: u32)
    ensures
        res == 1,
{
    1
}

#[verifier::ext_equal]
pub struct IncomingView {
    pub call_id: Seq<char>,
    pub from: Seq<char>,
    pub to: Seq<char>,
    pub direction: CallDirection,
    pub peer: Option<Seq<char>>,
}

impl View for IncomingCallWebhook {
    type V = IncomingView;

    open spec fn view(&self) -> IncomingView {
        IncomingView {
            call_id: self.call_id@,
            from: self.from@,
            to: self.to@,
            direction: self.direction,
            peer: text::text_option(self.peer),
        }
    }
}

#[verifier::ext_equal]
pub struct CreatedView {
    pub call_id: Seq<char>,
    pub status: CallStatus,
    pub ws_url: Seq<char>,
}

impl View for CreateCallResponse {
    type V = CreatedView;

    open spec fn view(&self) -> CreatedView {
        CreatedView { call_id: self.call_id@, status: self.status, ws_url: self.ws_url@ }
    }
}

pub open spec fn action_text(action: IncomingCallAction) -> Seq<char> {
    match action {
        IncomingCallAction::Accept => "accept"@,
        IncomingCallAction::Reject => "reject"@,
    }
}

pub open spec fn action_named(name: Seq<char>) -> Option<IncomingCallAction> {
    if name == "accept"@ {
        Some(IncomingCallAction::Accept)
    } else if name == "reject"@ {
        Some(IncomingCallAction::Reject)
    } else {
        None
    }
}

impl IncomingCallAction {
    /// The answer's name.
    pub fn as_str(&self) -> (res: &'static str)
        ensures
            res@ == action_text(*self),
    {
        match self {
            IncomingCallAction::Accept => "accept",
            IncomingCallAction::Reject => "reject",
        }
    }

    /// The answer of this name.
    pub fn from_name(name: &str) -> (res: Option<IncomingCallAction>)
        ensures
            res == action_named(name@),
    {
        if text::same_text(name, "accept") {
            Some(IncomingCallAction::Accept)
        } else if text::same_text(name, "reject") {
            Some(IncomingCallAction::Reject)
        } else {
            None
        }
    }
}

/// An answer is read back from its name.
pub proof fn law_action_names(action: IncomingCallAction)
    ensures
        action_named(action_text(action)) == Some(action),
{
    reveal_strlit("accept");
    reveal_strlit("reject");
    assert("accept"@[0] != "reject"@[0]);
}

/// The names of the answers.
pub proof fn law_action_texts()
    ensures
        action_text(IncomingCallAction::Accept) == seq!['a', 'c', 'c', 'e', 'p', 't'],
        action_text(IncomingCallAction::Reject) == seq!['r', 'e', 'j', 'e', 'c', 't'],
{
    reveal_strlit("accept");
    reveal_strlit("reject");
}

} // verus!
