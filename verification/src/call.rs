//! Calls: their direction, their status, and what is known of them.

use vstd::prelude::*;

use crate::text;

verus! {

/// How far a call has come.
#[derive(Debug, Clone, Copy, PartialEq, Eq, Structural)]
pub enum CallStatus {
    /// An outbound call that nothing has been heard of yet.
    Dialing,
    /// The other side rings.
    Ringing,
    /// The call is up.
    InProgress,
    /// The call is on hold.
    OnHold,
    /// The call has ended.
    Completed,
}

/// Which side placed the call.
#[derive(Debug, Clone, Copy, PartialEq, Eq, Structural)]
pub enum CallDirection {
    Inbound,
    Outbound,
}

/// What is known of a call.
#[derive(Debug, PartialEq)]
pub struct CallInfo {
    pub call_id: String,
    pub from: String,
    pub to: String,
    pub direction: CallDirection,
    pub status: CallStatus,
    /// The trunk host peer that the call came from or goes to, if any.
    pub peer: Option<String>,
}

#[verifier::ext_equal]
pub struct CallView {
    pub call_id: Seq<char>,
    pub from: Seq<char>,
    pub to: Seq<char>,
    pub direction: CallDirection,
    pub status: CallStatus,
    pub peer: Option<Seq<char>>,
}

impl View for CallInfo {
    type V = CallView;

    open spec fn view(&self) -> CallView {
        CallView {
            call_id: self.call_id@,
            from: self.from@,
            to: self.to@,
            direction: self.direction,
            status: self.status,
            peer: text::text_option(self.peer),
        }
    }
}

impl Clone for CallInfo {
    fn clone(&self) -> (res: Self)
        ensures
            res@ == self@,
    {
        CallInfo {
            call_id: self.call_id.clone(),
            from: self.from.clone(),
            to: self.to.clone(),
            direction: self.direction,
            status: self.status,
            peer: text::copy_option(&self.peer),
        }
    }
}

// ── Names ──

pub open spec fn status_text(status: CallStatus) -> Seq<char> {
    match status {
        CallStatus::Dialing => "dialing"@,
        CallStatus::Ringing => "ringing"@,
        CallStatus::InProgress => "in_progress"@,
        CallStatus::OnHold => "on_hold"@,
        CallStatus::Completed => "completed"@,
    }
}

pub open spec fn status_named(name: Seq<char>) -> Option<CallStatus> {
    if name == "dialing"@ {
        Some(CallStatus::Dialing)
    } else if name == "ringing"@ {
        Some(CallStatus::Ringing)
    } else if name == "in_progress"@ {
        Some(CallStatus::InProgress)
    } else if name == "on_hold"@ {
        Some(CallStatus::OnHold)
    } else if name == "completed"@ {
        Some(CallStatus::Completed)
    } else {
        None
    }
}

impl CallStatus {
    /// The status's name.
    pub fn as_str(&self) -> (res: &'static str)
        ensures
            res@ == status_text(*self),
    {
        match self {
            CallStatus::Dialing => "dialing",
            CallStatus::Ringing => "ringing",
            CallStatus::InProgress => "in_progress",
            CallStatus::OnHold => "on_hold",
            CallStatus::Completed => "completed",
        }
    }

    /// The status of this name.
    pub fn from_name(name: &str) -> (res: Option<CallStatus>)
        ensures
            res == status_named(name@),
    {
        if text::same_text(name, "dialing") {
            Some(CallStatus::Dialing)
        } else if text::same_text(name, "ringing") {
            Some(CallStatus::Ringing)
        } else if text::same_text(name, "in_progress") {
            Some(CallStatus::InProgress)
        } else if text::same_text(name, "on_hold") {
            Some(CallStatus::OnHold)
        } else if text::same_text(name, "completed") {
            Some(CallStatus::Completed)
        } else {
            None
        }
    }
}

pub open spec fn direction_text(direction: CallDirection) -> Seq<char> {
    match direction {
        CallDirection::Inbound => "inbound"@,
        CallDirection::Outbound => "outbound"@,
    }
}

pub open spec fn direction_named(name: Seq<char>) -> Option<CallDirection> {
    if name == "inbound"@ {
        Some(CallDirection::Inbound)
    } else if name == "outbound"@ {
        Some(CallDirection::Outbound)
    } else {
        None
    }
}

impl CallDirection {
    /// The direction's name.
    pub fn as_str(&self) -> (res: &'static str)
        ensures
            res@ == direction_text(*self),
    {
        match self {
            CallDirection::Inbound => "inbound",
            CallDirection::Outbound => "outbound",
        }
    }

    /// The direction of this name.
    pub fn from_name(name: &str) -> (res: Option<CallDirection>)
        ensures
            res == direction_named(name@),
    {
        if text::same_text(name, "inbound") {
            Some(CallDirection::Inbound)
        } else if text::same_text(name, "outbound") {
            Some(CallDirection::Outbound)
        } else {
            None
        }
    }
}

/// A status is read back from its name.
pub proof fn law_status_names(status: CallStatus)
    ensures
        status_named(status_text(status)) == Some(status),
{
    reveal_strlit("dialing");
    reveal_strlit("ringing");
    reveal_strlit("in_progress");
    reveal_strlit("on_hold");
    reveal_strlit("completed");
    assert("dialing"@[0] == 'd' && "ringing"@[0] == 'r' && "in_progress"@[0] == 'i');
    assert("on_hold"@[0] == 'o' && "completed"@[0] == 'c');
}

/// A direction is read back from its name.
pub proof fn law_direction_names(direction: CallDirection)
    ensures
        direction_named(direction_text(direction)) == Some(direction),
{
    reveal_strlit("inbound");
    reveal_strlit("outbound");
    assert("inbound"@[0] != "outbound"@[0]);
}

/// The names of the statuses.
pub proof fn law_status_texts()
    ensures
        status_text(CallStatus::Dialing) == seq!['d', 'i', 'a', 'l', 'i', 'n', 'g'],
        status_text(CallStatus::Ringing) == seq!['r', 'i', 'n', 'g', 'i', 'n', 'g'],
        status_text(CallStatus::InProgress) == seq!['i', 'n', '_', 'p', 'r', 'o', 'g', 'r', 'e', 's', 's'],
        status_text(CallStatus::OnHold) == seq!['o', 'n', '_', 'h', 'o', 'l', 'd'],
        status_text(CallStatus::Completed) == seq!['c', 'o', 'm', 'p', 'l', 'e', 't', 'e', 'd'],
{
    reveal_strlit("dialing");
    reveal_strlit("ringing");
    reveal_strlit("in_progress");
    reveal_strlit("on_hold");
    reveal_strlit("completed");
}

/// The names of the directions.
pub proof fn law_direction_texts()
    ensures
        direction_text(CallDirection::Inbound) == seq!['i', 'n', 'b', 'o', 'u', 'n', 'd'],
        direction_text(CallDirection::Outbound) == seq!['o', 'u', 't', 'b', 'o', 'u', 'n', 'd'],
{
    reveal_strlit("inbound");
    reveal_strlit("outbound");
}

} // verus!
