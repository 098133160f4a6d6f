use xbridge::config::AudioEncoding;
use xbridge::metrics::Metrics;
use xbridge::registry::Registry;
use xbridge::stream::{
    Phase, PlayoutQueue, QueueItem, Session, SessionAction, SessionEvent,
};
use xbridge::ws::{MarkPayload, MediaFormat, ServerEvent, StartPayload, StreamAction};

fn stop(id: &str) -> ServerEvent {
    ServerEvent::Stop {
        stream_sid: id.into(),
    }
}

#[test]
fn session_runs_through() {
    let mut metrics = Metrics::new();
    let mut senders: Registry<()> = Registry::new();
    let (mut session, first) = Session::open("c1", AudioEncoding::Mulaw, 8000, &mut metrics);
    assert_eq!(
        first,
        SessionAction::Send(ServerEvent::Connected {
            protocol: "Call".into(),
            version: "1.0.0".into(),
        })
    );
    assert_eq!(metrics.ws_connections, 1);

    assert_eq!(
        session.step(SessionEvent::Sent(true), &mut senders, &mut metrics),
        SessionAction::Send(ServerEvent::Start {
            stream_sid: "c1".into(),
            start: StartPayload {
                call_sid: "c1".into(),
                tracks: vec!["inbound".into()],
                media_format: MediaFormat {
                    encoding: "audio/x-mulaw".into(),
                    sample_rate: 8000,
                    channels: 1,
                },
            },
        })
    );
    assert_eq!(
        session.step(SessionEvent::Sent(true), &mut senders, &mut metrics),
        SessionAction::OpenChannels
    );
    assert!(!senders.contains("c1"));
    assert_eq!(
        session.step(SessionEvent::Channels(true), &mut senders, &mut metrics),
        SessionAction::Run
    );
    assert!(senders.contains("c1"));
    assert_eq!(metrics.ws_connections, 1);
    assert_eq!(
        session.step(SessionEvent::Ended, &mut senders, &mut metrics),
        SessionAction::SendLast(stop("c1"))
    );
    assert!(!senders.contains("c1"));
    assert_eq!(metrics.ws_connections, 0);
    assert_eq!(session.phase, Phase::Closed);
}

#[test]
fn session_without_channels_is_stopped() {
    let mut metrics = Metrics::new();
    let mut senders: Registry<()> = Registry::new();
    let (mut session, _) = Session::open("c1", AudioEncoding::L16, 16000, &mut metrics);
    session.step(SessionEvent::Sent(true), &mut senders, &mut metrics);
    session.step(SessionEvent::Sent(true), &mut senders, &mut metrics);
    assert_eq!(
        session.step(SessionEvent::Channels(false), &mut senders, &mut metrics),
        SessionAction::SendLast(stop("c1"))
    );
    assert!(senders.is_empty());
    assert_eq!(metrics.ws_connections, 0);
}

#[test]
fn session_closes_when_the_client_is_gone() {
    for sent in 0..2 {
        let mut metrics = Metrics::new();
        let mut senders: Registry<()> = Registry::new();
        let (mut session, _) = Session::open("c1", AudioEncoding::Mulaw, 8000, &mut metrics);
        for _ in 0..sent {
            session.step(SessionEvent::Sent(true), &mut senders, &mut metrics);
        }
        assert_eq!(
            session.step(SessionEvent::Sent(false), &mut senders, &mut metrics),
            SessionAction::Close
        );
        assert_eq!(metrics.ws_connections, 0);
    }
}

#[test]
fn closed_session_stays_closed_and_is_counted_once() {
    let mut metrics = Metrics::new();
    metrics.inc_ws_connections();
    let mut senders: Registry<()> = Registry::new();
    let (mut session, _) = Session::open("c1", AudioEncoding::Mulaw, 8000, &mut metrics);
    session.step(SessionEvent::Sent(false), &mut senders, &mut metrics);
    for event in [
        SessionEvent::Sent(true),
        SessionEvent::Sent(false),
        SessionEvent::Channels(true),
        SessionEvent::Channels(false),
        SessionEvent::Ended,
    ] {
        assert_eq!(
            session.step(event, &mut senders, &mut metrics),
            SessionAction::Wait
        );
    }
    assert_eq!(metrics.ws_connections, 1);
    assert!(senders.is_empty());
}

fn mark(name: &str) -> QueueItem {
    QueueItem::Mark {
        stream_sid: "c1".into(),
        name: name.into(),
    }
}

#[test]
fn marks_come_out_behind_their_audio() {
    let mut queue = PlayoutQueue::new();
    queue.push(QueueItem::Audio(vec![1, 2]));
    queue.push(mark("a"));
    queue.push(QueueItem::Audio(vec![3]));
    assert_eq!(queue.next(), Some(QueueItem::Audio(vec![1, 2])));
    assert_eq!(queue.next(), Some(mark("a")));
    assert_eq!(queue.next(), Some(QueueItem::Audio(vec![3])));
    assert_eq!(queue.next(), None);
}

#[test]
fn clearing_drops_audio_and_keeps_marks() {
    let mut queue = PlayoutQueue::new();
    queue.push(QueueItem::Audio(vec![1, 2]));
    queue.push(mark("a"));
    queue.push(QueueItem::Audio(vec![3]));
    queue.push(mark("b"));
    queue.clear();
    assert_eq!(queue.next(), Some(mark("a")));
    assert_eq!(queue.next(), Some(mark("b")));
    assert_eq!(queue.next(), None);
    queue.clear();
    assert_eq!(queue.next(), None);
}

#[test]
fn only_marks_are_echoed() {
    assert_eq!(
        mark("a").echo(),
        Some(ServerEvent::Mark {
            stream_sid: "c1".into(),
            mark: MarkPayload { name: "a".into() },
        })
    );
    assert_eq!(QueueItem::Audio(vec![1]).echo(), None);
}

#[test]
fn audio_takes_its_time() {
    assert_eq!(QueueItem::Audio(vec![0; 160]).nanos(), 20_000_000);
    assert_eq!(QueueItem::Audio(Vec::new()).nanos(), 0);
    assert_eq!(mark("a").nanos(), 0);
}

#[test]
fn actions_of_the_client_reach_the_queue() {
    let asked = |name: &str| StreamAction::Mark {
        stream_sid: "c1".into(),
        name: name.into(),
    };
    let mut queue = PlayoutQueue::new();
    assert!(queue.take(StreamAction::Play(vec![1, 2])));
    assert!(queue.take(asked("a")));
    assert!(queue.take(StreamAction::Ignore));
    assert!(queue.take(StreamAction::Play(vec![3])));
    assert_eq!(queue.next(), Some(QueueItem::Audio(vec![1, 2])));
    assert!(queue.take(StreamAction::Clear));
    assert!(queue.take(StreamAction::Play(vec![4])));
    assert!(!queue.take(StreamAction::Close));
    assert_eq!(queue.next(), Some(mark("a")));
    assert_eq!(queue.next(), Some(QueueItem::Audio(vec![4])));
    assert_eq!(queue.next(), None);
}
