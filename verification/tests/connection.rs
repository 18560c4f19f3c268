use dynamo::tcp::control::{
    process_control_message, Arrival, CallHomeHandshake, ControlAction, ControlMessage, Frame,
    ResponseStreamPrologue,
};
use dynamo::tcp::receive::{Receiver, ReceiverAction, ReceiverEvent};
use dynamo::tcp::send::{sentinel_text, Sender, SenderAction, SenderEvent};
use dynamo::tcp::setup::{Setup, SetupAction, SetupEvent};
use dynamo::tcp::stream::StreamType;

fn frame(header: &str, data: &str) -> Arrival {
    Arrival::Frame(Frame { header: header.as_bytes().to_vec(), data: data.as_bytes().to_vec() })
}

fn handshake(stream_type: StreamType) -> SetupEvent {
    SetupEvent::Greeted(Ok(CallHomeHandshake { subject: "s".to_string(), stream_type }))
}

fn prologue(error: Option<&str>) -> SetupEvent {
    SetupEvent::Announced(Ok(ResponseStreamPrologue { error: error.map(|e| e.to_string()) }))
}

/// The last of the actions that follow from some events, each of which is awaited.
fn set_up(events: Vec<SetupEvent>) -> (Setup, SetupAction) {
    let mut setup = Setup::Opening;
    let mut last = None;
    for event in events {
        assert!(setup.awaits(&event), "{setup:?} {event:?}");
        last = Some(setup.step(event));
    }
    (setup, last.unwrap())
}

fn up_to_prologue() -> Vec<SetupEvent> {
    vec![
        SetupEvent::Arrived(frame("h", "")),
        handshake(StreamType::Response),
        SetupEvent::Claimed(Ok(())),
        SetupEvent::Arrived(frame("p", "")),
    ]
}

fn failure(events: Vec<SetupEvent>) -> String {
    match set_up(events) {
        (Setup::Done, SetupAction::Finish(Err(e))) => e,
        other => panic!("{other:?}"),
    }
}

#[test]
fn a_response_stream_is_set_up() {
    let mut setup = Setup::Opening;
    match setup.step(SetupEvent::Arrived(frame("hello", "ignored"))) {
        SetupAction::ReadHandshake(h) => assert_eq!(h, b"hello"),
        other => panic!("{other:?}"),
    }
    match setup.step(handshake(StreamType::Response)) {
        SetupAction::Claim(s) => assert_eq!(s, "s"),
        other => panic!("{other:?}"),
    }
    assert!(matches!(setup.step(SetupEvent::Claimed(Ok(()))), SetupAction::AwaitPrologue));
    match setup.step(SetupEvent::Arrived(frame("ready", ""))) {
        SetupAction::ReadPrologue(h) => assert_eq!(h, b"ready"),
        other => panic!("{other:?}"),
    }
    assert!(matches!(setup.step(prologue(None)), SetupAction::Offer));
    assert!(matches!(setup.step(SetupEvent::Answered(true)), SetupAction::Stream));
    assert!(matches!(
        setup.step(SetupEvent::Ended(Ok(()), Ok(()))),
        SetupAction::Finish(Ok(()))
    ));
    assert_eq!(setup, Setup::Done);
    assert!(!setup.awaits(&SetupEvent::Answered(true)));
}

#[test]
fn a_request_stream_needs_no_setup() {
    let (state, action) =
        set_up(vec![SetupEvent::Arrived(frame("h", "")), handshake(StreamType::Request)]);
    assert_eq!(state, Setup::Done);
    assert!(matches!(action, SetupAction::Finish(Ok(()))));
}

#[test]
fn failures_of_the_setup() {
    assert_eq!(
        failure(vec![SetupEvent::Arrived(Arrival::Closed)]),
        "Connection closed without a ControlMessage"
    );
    assert_eq!(
        failure(vec![SetupEvent::Arrived(Arrival::Broken("bad".to_string()))]),
        "bad"
    );
    assert_eq!(
        failure(vec![SetupEvent::Arrived(frame("", "data"))]),
        "Expected ControlMessage, got DataMessage"
    );
    assert_eq!(
        failure(vec![
            SetupEvent::Arrived(frame("h", "")),
            SetupEvent::Greeted(Err("eof".to_string()))
        ]),
        "Failed to deserialize the first message as a valid `CallHomeHandshake`: eof"
    );
    assert_eq!(
        failure(vec![
            SetupEvent::Arrived(frame("h", "")),
            handshake(StreamType::Response),
            SetupEvent::Claimed(Err("unknown".to_string()))
        ]),
        "unknown"
    );
    let claimed = || {
        vec![
            SetupEvent::Arrived(frame("h", "")),
            handshake(StreamType::Response),
            SetupEvent::Claimed(Ok(())),
        ]
    };
    let mut events = claimed();
    events.push(SetupEvent::Arrived(Arrival::Closed));
    assert_eq!(failure(events), "Connection closed without a ControlMessge");
    let mut events = claimed();
    events.push(SetupEvent::Arrived(Arrival::Broken("bad".to_string())));
    assert_eq!(failure(events), "bad");
    for (header, data) in [("", ""), ("", "d"), ("h", "d")] {
        let mut events = claimed();
        events.push(SetupEvent::Arrived(frame(header, data)));
        match set_up(events) {
            (Setup::Done, SetupAction::Abort(e)) => {
                assert_eq!(e, "Expected HeaderOnly ControlMessage; internally logic error")
            }
            other => panic!("{other:?}"),
        }
    }
    let mut events = up_to_prologue();
    events.push(SetupEvent::Announced(Err("eof".to_string())));
    assert_eq!(failure(events), "Failed to deserialize ControlMessage: eof");
    let mut events = up_to_prologue();
    events.push(prologue(None));
    events.push(SetupEvent::Answered(false));
    assert_eq!(
        failure(events),
        "The requester of the stream has been dropped before the connection was established"
    );
    for (w, r, e) in [
        (Err("w".to_string()), Err("r".to_string()), "w"),
        (Ok(()), Err("r".to_string()), "r"),
    ] {
        let mut events = up_to_prologue();
        events.push(prologue(None));
        events.push(SetupEvent::Answered(true));
        events.push(SetupEvent::Ended(w, r));
        assert_eq!(failure(events), e);
    }
}

#[test]
fn a_refusal_reaches_the_requester() {
    let mut events = up_to_prologue();
    events.push(prologue(Some("no capacity")));
    match set_up(events) {
        (Setup::Done, SetupAction::Refuse { reason, failure }) => {
            assert_eq!(reason, "no capacity");
            assert_eq!(failure, "Received error prologue: no capacity");
        }
        other => panic!("{other:?}"),
    }
}

#[test]
fn events_out_of_turn_are_not_awaited() {
    assert!(!Setup::Opening.awaits(&SetupEvent::Answered(true)));
    assert!(!Setup::Offering.awaits(&SetupEvent::Arrived(Arrival::Closed)));
    let (receiver, _) = Receiver::start();
    assert!(!receiver.awaits(&ReceiverEvent::Sent(true)));
    assert!(!Sender::Listening.awaits(&SenderEvent::Flushed(true)));
}

#[test]
fn only_the_sentinel_may_come_from_a_client() {
    assert_eq!(
        process_control_message(Ok(ControlMessage::Sentinel)),
        Ok(ControlAction::Shutdown)
    );
    for m in [ControlMessage::Kill, ControlMessage::Stop] {
        assert_eq!(
            process_control_message(Ok(m)).unwrap_err(),
            "fatal error - unexpected control message received - this should never happen"
        );
    }
    assert_eq!(process_control_message(Err("eof".to_string())).unwrap_err(), "eof");
}

/// What is done on the way through some events, each of which is awaited.
fn receive(events: Vec<ReceiverEvent>) -> Vec<ReceiverAction> {
    let (mut receiver, first) = Receiver::start();
    let mut actions = vec![first];
    for event in events {
        assert!(receiver.awaits(&event), "{receiver:?} {event:?}");
        let (next, action) = receiver.step(event);
        receiver = next;
        actions.push(action);
    }
    actions
}

fn told(actions: &[ReceiverAction]) -> Vec<ControlMessage> {
    actions
        .iter()
        .filter_map(|a| match a {
            ReceiverAction::Send(m) => Some(*m),
            _ => None,
        })
        .collect()
}

#[test]
fn data_is_forwarded_in_order() {
    let actions = receive(vec![
        ReceiverEvent::Arrived(frame("", "one")),
        ReceiverEvent::Forwarded(true),
        ReceiverEvent::Arrived(frame("", "")),
        ReceiverEvent::Stopped,
        ReceiverEvent::Sent(true),
        ReceiverEvent::Arrived(frame("", "two")),
        ReceiverEvent::Forwarded(true),
        ReceiverEvent::Arrived(frame("end", "")),
        ReceiverEvent::Steered(Ok(ControlMessage::Sentinel)),
    ]);
    let data: Vec<&[u8]> = actions
        .iter()
        .filter_map(|a| match a {
            ReceiverAction::Forward(d) => Some(d.as_slice()),
            _ => None,
        })
        .collect();
    assert_eq!(data, vec![b"one".as_slice(), b"two".as_slice()]);
    assert_eq!(told(&actions), vec![ControlMessage::Stop]);
    assert!(matches!(actions.last(), Some(ReceiverAction::Finish)));
    assert!(matches!(actions[0], ReceiverAction::Wait { stop: true }));
    assert!(matches!(actions[5], ReceiverAction::Wait { stop: false }));
}

#[test]
fn the_client_is_told_to_end() {
    for event in [ReceiverEvent::ResponseClosed, ReceiverEvent::Killed] {
        let actions = receive(vec![event, ReceiverEvent::Sent(true)]);
        assert_eq!(told(&actions), vec![ControlMessage::Kill]);
        assert!(matches!(actions.last(), Some(ReceiverAction::Finish)));
    }
    let actions = receive(vec![
        ReceiverEvent::Stopped,
        ReceiverEvent::Sent(true),
        ReceiverEvent::Arrived(frame("", "lost")),
        ReceiverEvent::Forwarded(false),
        ReceiverEvent::Sent(true),
    ]);
    assert_eq!(told(&actions), vec![ControlMessage::Stop, ControlMessage::Kill]);
    let (receiver, _) = Receiver::start();
    let (receiver, _) = receiver.step(ReceiverEvent::Stopped);
    let (receiver, _) = receiver.step(ReceiverEvent::Sent(true));
    assert!(!receiver.awaits(&ReceiverEvent::Stopped), "told once is enough");
}

fn abortion(events: Vec<ReceiverEvent>) -> String {
    match receive(events).pop() {
        Some(ReceiverAction::Abort(e)) => e,
        other => panic!("{other:?}"),
    }
}

#[test]
fn what_should_never_happen_ends_the_stream() {
    assert!(matches!(
        receive(vec![ReceiverEvent::Arrived(Arrival::Closed)]).pop(),
        Some(ReceiverAction::Finish)
    ));
    assert_eq!(
        abortion(vec![ReceiverEvent::Arrived(Arrival::Broken("x".to_string()))]),
        "invalid message issued over socket; this should never happen"
    );
    assert_eq!(
        abortion(vec![
            ReceiverEvent::Arrived(frame("end", "data")),
            ReceiverEvent::Steered(Ok(ControlMessage::Sentinel))
        ]),
        "received sentinel message with data; this should never happen"
    );
    assert_eq!(
        abortion(vec![
            ReceiverEvent::Arrived(frame("stop", "")),
            ReceiverEvent::Steered(Ok(ControlMessage::Stop))
        ]),
        "fatal error - unexpected control message received - this should never happen"
    );
    assert_eq!(
        abortion(vec![
            ReceiverEvent::Arrived(frame("?", "")),
            ReceiverEvent::Steered(Err("no message".to_string()))
        ]),
        "no message"
    );
    for event in [ReceiverEvent::Stopped, ReceiverEvent::Killed] {
        assert_eq!(
            abortion(vec![event, ReceiverEvent::Sent(false)]),
            "the control channel should not be closed"
        );
    }
}

#[test]
fn messages_are_written_before_the_end() {
    let mut sender = Sender::Listening;
    let mut actions = Vec::new();
    for event in [
        SenderEvent::Told(Some(ControlMessage::Stop)),
        SenderEvent::Written(false),
        SenderEvent::Told(Some(ControlMessage::Kill)),
        SenderEvent::Written(true),
        SenderEvent::Told(None),
        SenderEvent::Flushed(false),
        SenderEvent::Closed(true),
    ] {
        assert!(sender.awaits(&event));
        actions.push(sender.step(event));
    }
    assert_eq!(
        actions,
        vec![
            SenderAction::Write(ControlMessage::Stop),
            SenderAction::Listen,
            SenderAction::Write(ControlMessage::Kill),
            SenderAction::Listen,
            SenderAction::Flush,
            SenderAction::Close,
            SenderAction::Finish,
        ]
    );
    let mut sender = Sender::Listening;
    assert_eq!(
        sender.step(SenderEvent::Told(Some(ControlMessage::Sentinel))),
        SenderAction::Abort
    );
    assert_eq!(sentinel_text(), "received sentinel message; this should never happen");
}
