//! The events of a call that the application is told of.

use vstd::prelude::*;

verus! {

/// An event of a call.
#[derive(Debug, PartialEq)]
pub enum WebhookEvent {
    /// The other side of an outbound call rings.
    Ringing { call_id: String, from: String, to: String },
    /// The call is up.
    Answered { call_id: String },
    /// The call has ended, after this many seconds.
    Ended { call_id: String, reason: String, duration: u64 },
    /// The other side pressed a key.
    Dtmf { call_id: String, digit: String },
    /// The call was put on hold.
    Hold { call_id: String },
    /// The call was taken off hold.
    Resumed { call_id: String },
    /// A playback ended, or was cut short.
    PlayFinished { call_id: String, play_id: String, interrupted: bool },
}

/// What an event says.
#[verifier::ext_equal]
pub enum EventView {
    Ringing { call_id: Seq<char>, from: Seq<char>, to: Seq<char> },
    Answered { call_id: Seq<char> },
    Ended { call_id: Seq<char>, reason: Seq<char>, duration: u64 },
    Dtmf { call_id: Seq<char>, digit: Seq<char> },
    Hold { call_id: Seq<char> },
    Resumed { call_id: Seq<char> },
    PlayFinished { call_id: Seq<char>, play_id: Seq<char>, interrupted: bool },
}

impl View for WebhookEvent {
    type V = EventView;

    open spec fn view(&self) -> EventView {
        match self {
            WebhookEvent::Ringing { call_id, from, to } => EventView::Ringing {
                call_id: call_id@,
                from: from@,
                to: to@,
            },
            WebhookEvent::Answered { call_id } => EventView::Answered { call_id: call_id@ },
            WebhookEvent::Ended { call_id, reason, duration } => EventView::Ended {
                call_id: call_id@,
                reason: reason@,
                duration: *duration,
            },
            WebhookEvent::Dtmf { call_id, digit } => EventView::Dtmf {
                call_id: call_id@,
                digit: digit@,
            },
            WebhookEvent::Hold { call_id } => EventView::Hold { call_id: call_id@ },
            WebhookEvent::Resumed { call_id } => EventView::Resumed { call_id: call_id@ },
            WebhookEvent::PlayFinished { call_id, play_id, interrupted } => EventView::PlayFinished {
                call_id: call_id@,
                play_id: play_id@,
                interrupted: *interrupted,
            },
        }
    }
}

impl Clone for WebhookEvent {
    fn clone(&self) -> (res: Self)
        ensures
            res@ == self@,
    {
        match self {
            WebhookEvent::Ringing { call_id, from, to } => WebhookEvent::Ringing {
                call_id: call_id.clone(),
                from: from.clone(),
                to: to.clone(),
            },
            WebhookEvent::Answered { call_id } => WebhookEvent::Answered {
                call_id: call_id.clone(),
            },
            WebhookEvent::Ended { call_id, reason, duration } => WebhookEvent::Ended {
                call_id: call_id.clone(),
                reason: reason.clone(),
                duration: *duration,
            },
            WebhookEvent::Dtmf { call_id, digit } => WebhookEvent::Dtmf {
                call_id: call_id.clone(),
                digit: digit.clone(),
            },
            WebhookEvent::Hold { call_id } => WebhookEvent::Hold { call_id: call_id.clone() },
            WebhookEvent::Resumed { call_id } => WebhookEvent::Resumed {
                call_id: call_id.clone(),
            },
            WebhookEvent::PlayFinished { call_id, play_id, interrupted } => WebhookEvent::PlayFinished {
                call_id: call_id.clone(),
                play_id: play_id.clone(),
                interrupted: *interrupted,
            },
        }
    }
}

} // verus!
