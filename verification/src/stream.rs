//! The life of a WebSocket stream, and the audio that waits to be played to the caller.

use vstd::prelude::*;

use crate::config::AudioEncoding;
use crate::metrics;
use crate::metrics::{Metrics, MetricsView};
use crate::registry::Registry;
use crate::ws;
use crate::ws::{ServerEvent, ServerEventView, StreamAction, StreamActionView};

verus! {

// ── Sessions ──

/// How far a stream has come.
#[derive(Debug, Clone, Copy, PartialEq, Eq, Structural)]
pub enum Phase {
    /// The first event is being sent.
    Connecting,
    /// The start event is being sent.
    Starting,
    /// The audio channels of the call are being opened.
    Opening,
    /// Audio flows.
    Streaming,
    /// The stream is over.
    Closed,
}

/// What happened to a stream.
#[derive(Debug, Clone, Copy, PartialEq, Eq, Structural)]
pub enum SessionEvent {
    /// An event was sent, or could not be.
    Sent(bool),
    /// The audio channels were opened, or the call has none.
    Channels(bool),
    /// One of the directions ended.
    Ended,
}

/// What a stream does next.
#[derive(Debug, PartialEq)]
pub enum SessionAction {
    /// Send an event, and say whether that went well.
    Send(ServerEvent),
    /// Open the audio channels of the call.
    OpenChannels,
    /// Let audio flow until one direction ends.
    Run,
    /// Send a last event, as well as that goes, and close.
    SendLast(ServerEvent),
    /// Close.
    Close,
    /// Nothing.
    Wait,
}

#[verifier::ext_equal]
pub enum SessionActionView {
    Send(ServerEventView),
    OpenChannels,
    Run,
    SendLast(ServerEventView),
    Close,
    Wait,
}

impl View for SessionAction {
    type V = SessionActionView;

    open spec fn view(&self) -> SessionActionView {
        match self {
            SessionAction::Send(event) => SessionActionView::Send(event@),
            SessionAction::OpenChannels => SessionActionView::OpenChannels,
            SessionAction::Run => SessionActionView::Run,
            SessionAction::SendLast(event) => SessionActionView::SendLast(event@),
            SessionAction::Close => SessionActionView::Close,
            SessionAction::Wait => SessionActionView::Wait,
        }
    }
}

/// A stream between a call and a client.
#[derive(Debug)]
pub struct Session {
    pub call_id: String,
    pub encoding: AudioEncoding,
    pub sample_rate: u32,
    pub phase: Phase,
}

pub struct SessionView {
    pub call_id: Seq<char>,
    pub encoding: AudioEncoding,
    pub sample_rate: u32,
    pub phase: Phase,
}

impl View for Session {
    type V = SessionView;

    open spec fn view(&self) -> SessionView {
        SessionView {
            call_id: self.call_id@,
            encoding: self.encoding,
            sample_rate: self.sample_rate,
            phase: self.phase,
        }
    }
}

/// The phase that an event leads to.
pub open spec fn next_phase(phase: Phase, event: SessionEvent) -> Phase {
    match (phase, event) {
        (Phase::Connecting, SessionEvent::Sent(ok)) => if ok {
            Phase::Starting
        } else {
            Phase::Closed
        },
        (Phase::Starting, SessionEvent::Sent(ok)) => if ok {
            Phase::Opening
        } else {
            Phase::Closed
        },
        (Phase::Opening, SessionEvent::Channels(ok)) => if ok {
            Phase::Streaming
        } else {
            Phase::Closed
        },
        (Phase::Streaming, SessionEvent::Ended) => Phase::Closed,
        _ => phase,
    }
}

/// What the stream does after an event.
pub open spec fn next_action(s: SessionView, event: SessionEvent) -> SessionActionView {
    match (s.phase, event) {
        (Phase::Connecting, SessionEvent::Sent(ok)) => if ok {
            SessionActionView::Send(ws::start_view(s.call_id, s.encoding, s.sample_rate))
        } else {
            SessionActionView::Close
        },
        (Phase::Starting, SessionEvent::Sent(ok)) => if ok {
            SessionActionView::OpenChannels
        } else {
            SessionActionView::Close
        },
        (Phase::Opening, SessionEvent::Channels(ok)) => if ok {
            SessionActionView::Run
        } else {
            SessionActionView::SendLast(ServerEventView::Stop { stream_sid: s.call_id })
        },
        (Phase::Streaming, SessionEvent::Ended) => SessionActionView::SendLast(
            ServerEventView::Stop { stream_sid: s.call_id },
        ),
        _ => SessionActionView::Wait,
    }
}

/// The clients that key presses are forwarded to: those of streams on which audio flows.
pub open spec fn next_senders(
    senders: Map<Seq<char>, ()>,
    s: SessionView,
    event: SessionEvent,
) -> Map<Seq<char>, ()> {
    if s.phase != Phase::Streaming && next_phase(s.phase, event) == Phase::Streaming {
        senders.insert(s.call_id, ())
    } else if s.phase == Phase::Streaming && next_phase(s.phase, event) != Phase::Streaming {
        senders.remove(s.call_id)
    } else {
        senders
    }
}

/// The metrics after an event: a stream that closes is no longer counted.
pub open spec fn next_metrics(m: MetricsView, s: SessionView, event: SessionEvent) -> MetricsView {
    if s.phase != Phase::Closed && next_phase(s.phase, event) == Phase::Closed {
        MetricsView { ws_connections: metrics::less(m.ws_connections), ..m }
    } else {
        m
    }
}

impl Session {
    /// A stream that has just been accepted. The event to send first comes with it.
    pub fn open(
        call_id: &str,
        encoding: AudioEncoding,
        sample_rate: u32,
        metrics: &mut Metrics,
    ) -> (res: (Session, SessionAction))
        requires
            old(metrics).wf(),
        ensures
            final(metrics).wf(),
            res.0@ == (SessionView {
                call_id: call_id@,
                encoding,
                sample_rate,
                phase: Phase::Connecting,
            }),
            res.1@ == SessionActionView::Send(ws::connected_view()),
            final(metrics)@ == (MetricsView {
                ws_connections: metrics::more(old(metrics)@.ws_connections),
                ..old(metrics)@
            }),
    {
        metrics.inc_ws_connections();
        let session = Session {
            call_id: call_id.to_owned(),
            encoding,
            sample_rate,
            phase: Phase::Connecting,
        };
        (session, SessionAction::Send(ws::connected_event()))
    }

    /// Takes an event, and says what to do next.
    pub fn step(
        &mut self,
        event: SessionEvent,
        senders: &mut Registry<()>,
        metrics: &mut Metrics,
    ) -> (res: SessionAction)
        requires
            old(senders).wf(),
            old(metrics).wf(),
        ensures
            final(senders).wf(),
            final(metrics).wf(),
            final(self)@ == (SessionView {
                phase: next_phase(old(self)@.phase, event),
                ..old(self)@
            }),
            res@ == next_action(old(self)@, event),
            final(senders)@ == next_senders(old(senders)@, old(self)@, event),
            final(metrics)@ == next_metrics(old(metrics)@, old(self)@, event),
    {
        match (self.phase, event) {
            (Phase::Connecting, SessionEvent::Sent(ok)) => {
                if ok {
                    self.phase = Phase::Starting;
                    SessionAction::Send(
                        ws::start_event(self.call_id.as_str(), self.encoding, self.sample_rate),
                    )
                } else {
                    self.phase = Phase::Closed;
                    metrics.dec_ws_connections();
                    SessionAction::Close
                }
            },
            (Phase::Starting, SessionEvent::Sent(ok)) => {
                if ok {
                    self.phase = Phase::Opening;
                    SessionAction::OpenChannels
                } else {
                    self.phase = Phase::Closed;
                    metrics.dec_ws_connections();
                    SessionAction::Close
                }
            },
            (Phase::Opening, SessionEvent::Channels(ok)) => {
                if ok {
                    self.phase = Phase::Streaming;
                    senders.insert(self.call_id.as_str(), ());
                    SessionAction::Run
                } else {
                    self.phase = Phase::Closed;
                    metrics.dec_ws_connections();
                    SessionAction::SendLast(ws::stop_event(self.call_id.as_str()))
                }
            },
            (Phase::Streaming, SessionEvent::Ended) => {
                self.phase = Phase::Closed;
                let _ = senders.remove(self.call_id.as_str());
                metrics.dec_ws_connections();
                SessionAction::SendLast(ws::stop_event(self.call_id.as_str()))
            },
            _ => SessionAction::Wait,
        }
    }
}

/// The phase after events one after the other.
pub open spec fn phase_after(events: Seq<SessionEvent>) -> Phase
    decreases events.len(),
{
    if events.len() == 0 {
        Phase::Connecting
    } else {
        next_phase(phase_after(events.drop_last()), events.last())
    }
}

/// The metrics after a stream is opened and goes through events.
pub open spec fn metrics_after(
    m: MetricsView,
    s: SessionView,
    events: Seq<SessionEvent>,
) -> MetricsView
    decreases events.len(),
{
    if events.len() == 0 {
        MetricsView { ws_connections: metrics::more(m.ws_connections), ..m }
    } else {
        next_metrics(
            metrics_after(m, s, events.drop_last()),
            SessionView { phase: phase_after(events.drop_last()), ..s },
            events.last(),
        )
    }
}

/// However a stream goes, it is counted as a connection until it closes, and not after
/// that; no other figure changes.
pub proof fn law_connections_balance(m: MetricsView, s: SessionView, events: Seq<SessionEvent>)
    ensures
        metrics_after(m, s, events) == (MetricsView {
            ws_connections: if phase_after(events) == Phase::Closed {
                m.ws_connections
            } else {
                metrics::more(m.ws_connections)
            },
            ..m
        }),
    decreases events.len(),
{
    if events.len() > 0 {
        law_connections_balance(m, s, events.drop_last());
    }
}

/// A closed stream stays closed.
pub proof fn law_closed_for_good(event: SessionEvent)
    ensures
        next_phase(Phase::Closed, event) == Phase::Closed,
{
}

// ── Playout ──

/// What waits to be played to the caller.
#[derive(Debug, PartialEq)]
pub enum QueueItem {
    /// Samples.
    Audio(Vec<i16>),
    /// A mark, to be echoed when it is reached.
    Mark { stream_sid: String, name: String },
}

#[verifier::ext_equal]
pub enum QueueItemView {
    Audio(Seq<i16>),
    Mark { stream_sid: Seq<char>, name: Seq<char> },
}

impl View for QueueItem {
    type V = QueueItemView;

    open spec fn view(&self) -> QueueItemView {
        match self {
            QueueItem::Audio(samples) => QueueItemView::Audio(samples@),
            QueueItem::Mark { stream_sid, name } => QueueItemView::Mark {
                stream_sid: stream_sid@,
                name: name@,
            },
        }
    }
}

/// The audio and the marks that wait, in order.
#[derive(Debug)]
pub struct PlayoutQueue {
    items: Vec<QueueItem>,
}

/// The items without the audio.
pub open spec fn marks_only(items: Seq<QueueItemView>) -> Seq<QueueItemView>
    decreases items.len(),
{
    if items.len() == 0 {
        Seq::empty()
    } else if items.last() is Mark {
        marks_only(items.drop_last()).push(items.last())
    } else {
        marks_only(items.drop_last())
    }
}

impl View for PlayoutQueue {
    type V = Seq<QueueItemView>;

    closed spec fn view(&self) -> Seq<QueueItemView> {
        Seq::new(self.items@.len(), |i: int| self.items@[i]@)
    }
}

/// What waits after an action of the client: audio and marks are put at the end, and a
/// clear drops the audio.
pub open spec fn queue_after(
    items: Seq<QueueItemView>,
    action: StreamActionView,
) -> Seq<QueueItemView> {
    match action {
        StreamActionView::Play(samples) => items.push(QueueItemView::Audio(samples)),
        StreamActionView::Mark { stream_sid, name } => items.push(
            QueueItemView::Mark { stream_sid, name },
        ),
        StreamActionView::Clear => marks_only(items),
        StreamActionView::Ignore => items,
        StreamActionView::Close => items,
    }
}

/// The event that echoes a mark.
pub open spec fn mark_echo(item: QueueItemView) -> Option<ServerEventView> {
    match item {
        QueueItemView::Mark { stream_sid, name } => Some(
            ServerEventView::Mark { stream_sid, name },
        ),
        QueueItemView::Audio(_) => None,
    }
}

/// How long an item takes to play at 8000 samples a second, in nanoseconds, as far as a
/// 64-bit number holds it.
pub open spec fn play_time(item: QueueItemView) -> u64 {
    match item {
        QueueItemView::Audio(samples) => if samples.len() * 125_000 <= u64::MAX {
            (samples.len() * 125_000) as u64
        } else {
            u64::MAX
        },
        QueueItemView::Mark { .. } => 0,
    }
}

impl QueueItem {
    /// How long the item takes to play, in nanoseconds.
    pub fn nanos(&self) -> (res: u64)
        ensures
            res == play_time(self@),
    {
        match self {
            QueueItem::Audio(samples) => {
                let count: u64 = samples.len() as u64;
                if count <= u64::MAX / 125_000 {
                    count * 125_000
                } else {
                    u64::MAX
                }
            },
            QueueItem::Mark { .. } => 0,
        }
    }

    /// The event that echoes the item, if it is a mark.
    pub fn echo(&self) -> (res: Option<ServerEvent>)
        ensures
            match res {
                Some(event) => mark_echo(self@) == Some(event@),
                None => mark_echo(self@) is None,
            },
    {
        match self {
            QueueItem::Audio(_) => None,
            QueueItem::Mark { stream_sid, name } => Some(
                ServerEvent::Mark {
                    stream_sid: stream_sid.clone(),
                    mark: ws::MarkPayload { name: name.clone() },
                },
            ),
        }
    }
}

impl PlayoutQueue {
    /// An empty queue.
    pub fn new() -> (q: Self)
        ensures
            q@ == Seq::<QueueItemView>::empty(),
    {
        let q = PlayoutQueue { items: Vec::new() };
        assert(q@ =~= Seq::<QueueItemView>::empty());
        q
    }

    /// Puts an item at the end.
    pub fn push(&mut self, item: QueueItem)
        ensures
            final(self)@ == old(self)@.push(item@),
    {
        self.items.push(item);
        assert(self@ =~= old(self)@.push(item@));
    }

    /// Drops the audio. The marks stay, as their place is then reached.
    pub fn clear(&mut self)
        ensures
            final(self)@ == marks_only(old(self)@),
    {
        let mut kept: Vec<QueueItem> = Vec::new();
        let ghost all = self@;
        let mut i: usize = 0;
        while i < self.items.len()
            invariant
                *self == *old(self),
                all == self@,
                i <= self.items@.len(),
                Seq::new(kept@.len(), |j: int| kept@[j]@) == marks_only(all.take(i as int)),
            decreases self.items@.len() - i,
        {
            let ghost before = Seq::new(kept@.len(), |j: int| kept@[j]@);
            proof {
                let next = all.take(i + 1);
                assert(next.drop_last() =~= all.take(i as int));
                assert(next.last() == self.items@[i as int]@);
            }
            match &self.items[i] {
                QueueItem::Mark { stream_sid, name } => {
                    kept.push(
                        QueueItem::Mark { stream_sid: stream_sid.clone(), name: name.clone() },
                    );
                    assert(Seq::new(kept@.len(), |j: int| kept@[j]@) =~= before.push(
                        all[i as int],
                    ));
                },
                QueueItem::Audio(_) => {},
            }
            i += 1;
        }
        assert(all.take(i as int) =~= all);
        self.items = kept;
        assert(self@ =~= marks_only(all));
    }

    /// Does what the client asked for. Says whether the connection stays.
    pub fn take(&mut self, action: StreamAction) -> (res: bool)
        ensures
            final(self)@ == queue_after(old(self)@, action@),
            res == !(action@ is Close),
    {
        match action {
            StreamAction::Play(samples) => self.push(QueueItem::Audio(samples)),
            StreamAction::Mark { stream_sid, name } => self.push(
                QueueItem::Mark { stream_sid, name },
            ),
            StreamAction::Clear => self.clear(),
            StreamAction::Ignore => {},
            StreamAction::Close => {
                return false;
            },
        }
        true
    }

    /// Takes the first item out.
    pub fn next(&mut self) -> (res: Option<QueueItem>)
        ensures
            match res {
                Some(item) => {
                    &&& old(self)@.len() > 0
                    &&& item@ == old(self)@[0]
                    &&& final(self)@ == old(self)@.drop_first()
                },
                None => old(self)@.len() == 0 && final(self)@ == old(self)@,
            },
    {
        if self.items.len() == 0 {
            return None;
        }
        let item: QueueItem = self.items.remove(0);
        assert(self@ =~= old(self)@.drop_first());
        Some(item)
    }
}

/// A mark comes out of the queue after everything that was put in before it, and clearing
/// the queue drops all audio and no mark.
pub proof fn law_marks_in_order(items: Seq<QueueItemView>, mark: QueueItemView)
    requires
        mark is Mark,
    ensures
        items.push(mark)[items.len() as int] == mark,
        marks_only(items.push(mark)) == marks_only(items).push(mark),
        forall|i: int| 0 <= i < marks_only(items).len() ==> (#[trigger] marks_only(items)[i]) is Mark,
    decreases items.len(),
{
    assert(items.push(mark).drop_last() =~= items);
    if items.len() > 0 {
        law_marks_in_order(items.drop_last(), mark);
    }
}

/// What happens to a queue.
pub enum QueueStep {
    /// The client asked for something.
    Take(StreamActionView),
    /// The first item is taken out.
    Next,
}

/// What waits after steps one after the other.
pub open spec fn queue_after_all(
    items: Seq<QueueItemView>,
    steps: Seq<QueueStep>,
) -> Seq<QueueItemView>
    decreases steps.len(),
{
    if steps.len() == 0 {
        items
    } else {
        let before = queue_after_all(items, steps.drop_last());
        match steps.last() {
            QueueStep::Take(action) => queue_after(before, action),
            QueueStep::Next => if before.len() > 0 {
                before.drop_first()
            } else {
                before
            },
        }
    }
}

/// The audio among the items, in order.
pub open spec fn audio_in(items: Seq<QueueItemView>) -> Seq<Seq<i16>>
    decreases items.len(),
{
    if items.len() == 0 {
        Seq::empty()
    } else {
        match items.last() {
            QueueItemView::Audio(samples) => audio_in(items.drop_last()).push(samples),
            QueueItemView::Mark { .. } => audio_in(items.drop_last()),
        }
    }
}

/// The audio that the client sent in the steps, in order.
pub open spec fn audio_sent(steps: Seq<QueueStep>) -> Seq<Seq<i16>>
    decreases steps.len(),
{
    if steps.len() == 0 {
        Seq::empty()
    } else {
        match steps.last() {
            QueueStep::Take(StreamActionView::Play(samples)) => audio_sent(
                steps.drop_last(),
            ).push(samples),
            _ => audio_sent(steps.drop_last()),
        }
    }
}

/// What was queued before a clear is never played: whatever happens after it, the audio
/// that waits is the last of what the client has sent since, in the same order.
pub proof fn law_cleared_is_not_played(items: Seq<QueueItemView>, steps: Seq<QueueStep>)
    ensures
        ({
            let cleared = queue_after(items, StreamActionView::Clear);
            let waiting = audio_in(queue_after_all(cleared, steps));
            let sent = audio_sent(steps);
            waiting.len() <= sent.len() && waiting == sent.skip(sent.len() - waiting.len())
        }),
    decreases steps.len(),
{
    let cleared = marks_only(items);
    let after = queue_after_all(cleared, steps);
    let sent = audio_sent(steps);
    if steps.len() == 0 {
        lemma_marks_have_no_audio(items);
        assert(audio_in(after) =~= sent.skip(0));
    } else {
        law_cleared_is_not_played(items, steps.drop_last());
        let before = queue_after_all(cleared, steps.drop_last());
        let earlier = audio_sent(steps.drop_last());
        let k = earlier.len() - audio_in(before).len();
        match steps.last() {
            QueueStep::Take(action) => match action {
                StreamActionView::Play(samples) => {
                    assert(after.drop_last() =~= before);
                    assert(audio_in(after) =~= sent.skip(k));
                },
                StreamActionView::Mark { .. } => {
                    assert(after.drop_last() =~= before);
                },
                StreamActionView::Clear => {
                    lemma_marks_have_no_audio(before);
                    assert(audio_in(after) =~= sent.skip(sent.len() as int));
                },
                _ => {},
            },
            QueueStep::Next => {
                if before.len() > 0 {
                    lemma_audio_without_first(before);
                    if before[0] is Audio {
                        assert(audio_in(after) =~= sent.skip(k + 1));
                    }
                }
            },
        }
    }
}

proof fn lemma_marks_have_no_audio(items: Seq<QueueItemView>)
    ensures
        audio_in(marks_only(items)) == Seq::<Seq<i16>>::empty(),
    decreases items.len(),
{
    if items.len() > 0 {
        lemma_marks_have_no_audio(items.drop_last());
        let earlier = marks_only(items.drop_last());
        assert(earlier.push(items.last()).drop_last() =~= earlier);
    }
}

proof fn lemma_audio_without_first(items: Seq<QueueItemView>)
    requires
        items.len() > 0,
    ensures
        audio_in(items.drop_first()) == if items[0] is Audio {
            audio_in(items).drop_first()
        } else {
            audio_in(items)
        },
        items[0] is Audio ==> audio_in(items).len() > 0,
    decreases items.len(),
{
    if items.len() == 1 {
        assert(items.drop_last() =~= Seq::empty());
        assert(items.drop_first() =~= Seq::empty());
        assert(audio_in(items.drop_last()) =~= Seq::empty());
        assert(items[0] is Audio ==> audio_in(items).drop_first() =~= Seq::empty());
    } else {
        let shorter = items.drop_last();
        lemma_audio_without_first(shorter);
        assert(items.drop_first().drop_last() =~= shorter.drop_first());
        assert(shorter[0] == items[0]);
        if items[0] is Audio && items.last() is Audio {
            let all = audio_in(shorter);
            let samples = items.last()->Audio_0;
            assert(all.push(samples).drop_first() =~= all.drop_first().push(samples));
        }
    }
}

// ── More laws ──

/// A stream greets the client, starts, opens the channels of its call and lets audio flow;
/// when a direction ends, or the call has no channels, it says so and closes. Where the
/// client cannot be reached any more it closes without a word.
pub proof fn law_session(s: SessionView)
    ensures
        ({
            let connecting = SessionView { phase: phase_after(seq![]), ..s };
            let starting = SessionView { phase: phase_after(seq![SessionEvent::Sent(true)]), ..s };
            let opening = SessionView {
                phase: phase_after(seq![SessionEvent::Sent(true), SessionEvent::Sent(true)]),
                ..s
            };
            let running = SessionView {
                phase: phase_after(
                    seq![
                        SessionEvent::Sent(true),
                        SessionEvent::Sent(true),
                        SessionEvent::Channels(true),
                    ],
                ),
                ..s
            };
            let stop = SessionActionView::SendLast(
                ServerEventView::Stop { stream_sid: s.call_id },
            );
            &&& next_action(connecting, SessionEvent::Sent(true)) == SessionActionView::Send(
                ws::start_view(s.call_id, s.encoding, s.sample_rate),
            )
            &&& next_action(connecting, SessionEvent::Sent(false)) == SessionActionView::Close
            &&& next_action(starting, SessionEvent::Sent(true)) == SessionActionView::OpenChannels
            &&& next_action(starting, SessionEvent::Sent(false)) == SessionActionView::Close
            &&& next_action(opening, SessionEvent::Channels(true)) == SessionActionView::Run
            &&& next_action(opening, SessionEvent::Channels(false)) == stop
            &&& next_action(running, SessionEvent::Ended) == stop
            &&& next_phase(connecting.phase, SessionEvent::Sent(false)) == Phase::Closed
            &&& next_phase(starting.phase, SessionEvent::Sent(false)) == Phase::Closed
            &&& next_phase(opening.phase, SessionEvent::Channels(false)) == Phase::Closed
            &&& next_phase(running.phase, SessionEvent::Ended) == Phase::Closed
        }),
{
    let sent = SessionEvent::Sent(true);
    let one = seq![sent];
    let two = seq![sent, sent];
    let three = seq![sent, sent, SessionEvent::Channels(true)];
    assert(one.drop_last() =~= seq![]);
    assert(two.drop_last() =~= one);
    assert(three.drop_last() =~= two);
    assert(phase_after(seq![]) == Phase::Connecting);
    assert(phase_after(one) == Phase::Starting);
    assert(phase_after(two) == Phase::Opening);
    assert(phase_after(three) == Phase::Streaming);
}

/// Whatever happens, a stream acts when it moves on or closes, and on nothing else; once it
/// has closed it does nothing.
pub proof fn law_session_acts(s: SessionView, event: SessionEvent)
    ensures
        next_action(s, event) is Wait <==> next_phase(s.phase, event) == s.phase,
        next_action(s, event) is Close || next_action(s, event) is SendLast <==> s.phase
            != Phase::Closed && next_phase(s.phase, event) == Phase::Closed,
        s.phase == Phase::Closed ==> next_action(s, event) is Wait,
{
}

/// The clients that key presses are forwarded to after a stream is opened and goes through
/// events.
pub open spec fn senders_after(
    senders: Map<Seq<char>, ()>,
    s: SessionView,
    events: Seq<SessionEvent>,
) -> Map<Seq<char>, ()>
    decreases events.len(),
{
    if events.len() == 0 {
        senders
    } else {
        next_senders(
            senders_after(senders, s, events.drop_last()),
            SessionView { phase: phase_after(events.drop_last()), ..s },
            events.last(),
        )
    }
}

/// However a stream goes, key presses of its call are forwarded to its client as long as
/// audio flows, and neither before nor after; those of other calls go on as before.
pub proof fn law_forwarding(
    senders: Map<Seq<char>, ()>,
    s: SessionView,
    events: Seq<SessionEvent>,
    other: Seq<char>,
)
    requires
        !senders.contains_key(s.call_id),
        other != s.call_id,
    ensures
        senders_after(senders, s, events).contains_key(s.call_id) <==> phase_after(events)
            == Phase::Streaming,
        senders_after(senders, s, events).contains_key(other) <==> senders.contains_key(other),
    decreases events.len(),
{
    if events.len() > 0 {
        law_forwarding(senders, s, events.drop_last(), other);
    }
}

/// Audio plays at 8000 samples a second, and a mark takes no time.
pub proof fn law_play_time(samples: Seq<i16>, stream_sid: Seq<char>, name: Seq<char>)
    requires
        samples.len() < 100_000_000_000_000,
    ensures
        play_time(QueueItemView::Audio(samples)) * 8000 == samples.len() * 1_000_000_000,
        play_time(QueueItemView::Mark { stream_sid, name }) == 0,
{
}

/// A mark is echoed with its name and stream, and audio is not echoed.
pub proof fn law_echo(item: QueueItemView)
    ensures
        mark_echo(item) is None <==> item is Audio,
        item matches QueueItemView::Mark { stream_sid, name } ==> mark_echo(item) == Some(
            ServerEventView::Mark { stream_sid, name },
        ),
{
}

/// What the client put into the queue in the steps, in order.
pub open spec fn put_in(steps: Seq<QueueStep>) -> Seq<QueueItemView>
    decreases steps.len(),
{
    if steps.len() == 0 {
        Seq::empty()
    } else {
        let earlier = put_in(steps.drop_last());
        match steps.last() {
            QueueStep::Take(StreamActionView::Play(samples)) => earlier.push(
                QueueItemView::Audio(samples),
            ),
            QueueStep::Take(StreamActionView::Mark { stream_sid, name }) => earlier.push(
                QueueItemView::Mark { stream_sid, name },
            ),
            _ => earlier,
        }
    }
}

/// What came out of the queue in the steps, in order.
pub open spec fn taken_out(items: Seq<QueueItemView>, steps: Seq<QueueStep>) -> Seq<QueueItemView>
    decreases steps.len(),
{
    if steps.len() == 0 {
        Seq::empty()
    } else {
        let earlier = taken_out(items, steps.drop_last());
        let waiting = queue_after_all(items, steps.drop_last());
        match steps.last() {
            QueueStep::Next => if waiting.len() > 0 {
                earlier.push(waiting[0])
            } else {
                earlier
            },
            QueueStep::Take(_) => earlier,
        }
    }
}

/// As long as the client clears nothing, everything that was put into the queue comes out
/// of it, in the same order, or waits.
pub proof fn law_played_in_order(items: Seq<QueueItemView>, steps: Seq<QueueStep>)
    requires
        forall|i: int|
            0 <= i < steps.len() ==> (#[trigger] steps[i]) != QueueStep::Take(
                StreamActionView::Clear,
            ),
    ensures
        taken_out(items, steps) + queue_after_all(items, steps) == items + put_in(steps),
    decreases steps.len(),
{
    if steps.len() == 0 {
        assert(taken_out(items, steps) + queue_after_all(items, steps) =~= items + put_in(steps));
    } else {
        let earlier = steps.drop_last();
        assert forall|i: int| 0 <= i < earlier.len() implies (#[trigger] earlier[i])
            != QueueStep::Take(StreamActionView::Clear) by {
            assert(earlier[i] == steps[i]);
        }
        law_played_in_order(items, earlier);
        assert(steps[steps.len() - 1] == steps.last());
        let out = taken_out(items, earlier);
        let waiting = queue_after_all(items, earlier);
        match steps.last() {
            QueueStep::Take(action) => {
                let item = queue_after(waiting, action);
                match action {
                    StreamActionView::Play(samples) => {
                        assert(out + item =~= (out + waiting).push(
                            QueueItemView::Audio(samples),
                        ));
                        assert(out + item =~= items + put_in(steps));
                    },
                    StreamActionView::Mark { stream_sid, name } => {
                        assert(out + item =~= (out + waiting).push(
                            QueueItemView::Mark { stream_sid, name },
                        ));
                        assert(out + item =~= items + put_in(steps));
                    },
                    _ => {},
                }
            },
            QueueStep::Next => {
                if waiting.len() > 0 {
                    assert(out.push(waiting[0]) + waiting.drop_first() =~= out + waiting);
                }
            },
        }
    }
}

/// A clear takes the audio out of the queue and leaves the marks, in their order.
pub proof fn law_clear(items: Seq<QueueItemView>, item: QueueItemView)
    ensures
        queue_after(seq![], StreamActionView::Clear) == Seq::<QueueItemView>::empty(),
        queue_after(items.push(item), StreamActionView::Clear) == if item is Mark {
            queue_after(items, StreamActionView::Clear).push(item)
        } else {
            queue_after(items, StreamActionView::Clear)
        },
{
    assert(items.push(item).drop_last() =~= items);
}

} // verus!
