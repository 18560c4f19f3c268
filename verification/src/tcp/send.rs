//! The sending direction of a response stream: messages that steer the client are
//! written, and then the connection is shut down.
use crate::tcp::control::ControlMessage;
use vstd::prelude::*;
use vstd::string::*;

verus! {

/// What the sending direction waits for.
#[derive(Clone, Copy, Debug, PartialEq, Eq, Structural)]
pub enum Sender {
    /// A message of the receiving direction.
    Listening,
    /// A message to be written.
    Writing,
    /// The connection to be flushed.
    Flushing,
    /// The connection to be shut down.
    Closing,
    /// Nothing more.
    Done,
}

/// What happened.
#[derive(Clone, Copy, Debug, PartialEq, Eq, Structural)]
pub enum SenderEvent {
    /// A message of the receiving direction came, or its end.
    Told(Option<ControlMessage>),
    /// A message was written, or could not be.
    Written(bool),
    /// The connection was flushed, or could not be.
    Flushed(bool),
    /// The connection was shut down, or could not be.
    Closed(bool),
}

/// What is to be done.
#[derive(Clone, Copy, Debug, PartialEq, Eq, Structural)]
pub enum SenderAction {
    /// Await a message of the receiving direction.
    Listen,
    /// Write a message, as a header alone.
    Write(ControlMessage),
    /// Flush the connection.
    Flush,
    /// Shut the connection down.
    Close,
    /// End.
    Finish,
    /// End at once: the server itself never says that everything was sent.
    Abort,
}

/// An event is what the sending direction waits for.
pub open spec fn sender_awaits(state: Sender, event: SenderEvent) -> bool {
    match state {
        Sender::Listening => event is Told,
        Sender::Writing => event is Written,
        Sender::Flushing => event is Flushed,
        Sender::Closing => event is Closed,
        Sender::Done => false,
    }
}

/// What follows from an awaited event. What cannot be written, flushed or shut down
/// is passed over: the client is gone.
pub open spec fn sender_step(state: Sender, event: SenderEvent) -> (Sender, SenderAction) {
    match (state, event) {
        (Sender::Listening, SenderEvent::Told(Some(ControlMessage::Sentinel))) => (
            Sender::Done,
            SenderAction::Abort,
        ),
        (Sender::Listening, SenderEvent::Told(Some(m))) => (
            Sender::Writing,
            SenderAction::Write(m),
        ),
        (Sender::Listening, _) => (Sender::Flushing, SenderAction::Flush),
        (Sender::Writing, _) => (Sender::Listening, SenderAction::Listen),
        (Sender::Flushing, _) => (Sender::Closing, SenderAction::Close),
        (Sender::Closing, _) => (Sender::Done, SenderAction::Finish),
        (Sender::Done, _) => (Sender::Done, SenderAction::Finish),
    }
}

/// What is said where the server is about to say that everything was sent.
pub fn sentinel_text() -> (r: String)
    ensures
        r@ == "received sentinel message; this should never happen"@,
{
    "received sentinel message; this should never happen".to_owned()
}

impl Sender {
    /// Whether an event is what the sending direction waits for.
    pub fn awaits(&self, event: &SenderEvent) -> (b: bool)
        ensures
            b == sender_awaits(*self, *event),
    {
        match (self, event) {
            (Sender::Listening, SenderEvent::Told(_)) => true,
            (Sender::Writing, SenderEvent::Written(_)) => true,
            (Sender::Flushing, SenderEvent::Flushed(_)) => true,
            (Sender::Closing, SenderEvent::Closed(_)) => true,
            _ => false,
        }
    }

    /// What follows from an awaited event: what to wait for next, and what to do.
    pub fn step(&mut self, event: SenderEvent) -> (action: SenderAction)
        requires
            sender_awaits(*old(self), event),
        ensures
            (*final(self), action) == sender_step(*old(self), event),
    {
        match (*self, event) {
            (Sender::Listening, SenderEvent::Told(Some(m))) => match m {
                ControlMessage::Sentinel => {
                    *self = Sender::Done;
                    SenderAction::Abort
                },
                _ => {
                    *self = Sender::Writing;
                    SenderAction::Write(m)
                },
            },
            (Sender::Listening, _) => {
                *self = Sender::Flushing;
                SenderAction::Flush
            },
            (Sender::Writing, _) => {
                *self = Sender::Listening;
                SenderAction::Listen
            },
            (Sender::Flushing, _) => {
                *self = Sender::Closing;
                SenderAction::Close
            },
            _ => {
                *self = Sender::Done;
                SenderAction::Finish
            },
        }
    }
}

/// What the sending direction waits for after some events, and what was done on the
/// way.
pub open spec fn sender_run(events: Seq<SenderEvent>) -> (Sender, Seq<SenderAction>)
    decreases events.len(),
{
    if events.len() == 0 {
        (Sender::Listening, seq![SenderAction::Listen])
    } else {
        let (state, actions) = sender_run(events.drop_last());
        let (next, action) = sender_step(state, events.last());
        (next, actions.push(action))
    }
}

/// Each event is one that the sending direction waits for when it comes.
pub open spec fn sender_order(events: Seq<SenderEvent>) -> bool
    decreases events.len(),
{
    events.len() > 0 ==> {
        &&& sender_order(events.drop_last())
        &&& sender_awaits(sender_run(events.drop_last()).0, events.last())
    }
}

/// The messages that are written.
pub open spec fn written(actions: Seq<SenderAction>) -> Seq<ControlMessage>
    decreases actions.len(),
{
    if actions.len() == 0 {
        Seq::empty()
    } else {
        let before = written(actions.drop_last());
        match actions.last() {
            SenderAction::Write(m) => before.push(m),
            _ => before,
        }
    }
}

/// The messages that came from the receiving direction, but for one that says that
/// everything was sent.
pub open spec fn told(events: Seq<SenderEvent>) -> Seq<ControlMessage>
    decreases events.len(),
{
    if events.len() == 0 {
        Seq::empty()
    } else {
        let before = told(events.drop_last());
        match events.last() {
            SenderEvent::Told(Some(ControlMessage::Sentinel)) => before,
            SenderEvent::Told(Some(m)) => before.push(m),
            _ => before,
        }
    }
}

/// Every message of the receiving direction is written, in order, whether or not
/// one before it could be; none is made up.
pub proof fn messages_are_written_in_order(events: Seq<SenderEvent>)
    requires
        sender_order(events),
    ensures
        written(sender_run(events).1) == told(events),
    decreases events.len(),
{
    if events.len() == 0 {
        reveal_with_fuel(written, 2);
        assert(sender_run(events).1.drop_last() =~= Seq::empty());
    } else {
        messages_are_written_in_order(events.drop_last());
        let (state, actions) = sender_run(events.drop_last());
        let action = sender_step(state, events.last()).1;
        assert(actions.push(action).drop_last() =~= actions);
    }
}

/// The connection is flushed, then shut down, and only once the receiving direction
/// is gone: its end is followed by these three actions whatever comes of them.
pub proof fn end_is_orderly(flushed: bool, closed: bool)
    ensures
        sender_step(Sender::Listening, SenderEvent::Told(None)) == (
            Sender::Flushing,
            SenderAction::Flush,
        ),
        sender_step(Sender::Flushing, SenderEvent::Flushed(flushed)) == (
            Sender::Closing,
            SenderAction::Close,
        ),
        sender_step(Sender::Closing, SenderEvent::Closed(closed)) == (
            Sender::Done,
            SenderAction::Finish,
        ),
{
}

/// What the sending direction waits for goes with what it did last.
proof fn lemma_sender_in_step(events: Seq<SenderEvent>)
    requires
        sender_order(events),
    ensures
        ({
            let (state, actions) = sender_run(events);
            &&& actions.len() == events.len() + 1
            &&& match state {
                Sender::Listening => actions.last() is Listen,
                Sender::Writing => actions.last() is Write,
                Sender::Flushing => actions.last() is Flush,
                Sender::Closing => actions.last() is Close,
                Sender::Done => actions.last() is Finish || actions.last() is Abort,
            }
        }),
    decreases events.len(),
{
    if events.len() > 0 {
        lemma_sender_in_step(events.drop_last());
    }
}

/// Which events the sending direction is ready for goes by what it was told to do
/// last; after the end it is ready for nothing. It begins by listening.
pub proof fn sender_is_ready_for(events: Seq<SenderEvent>, event: SenderEvent)
    requires
        sender_order(events),
    ensures
        sender_order(events.push(event)) <==> match sender_run(events).1.last() {
            SenderAction::Listen => event is Told,
            SenderAction::Write(_) => event is Written,
            SenderAction::Flush => event is Flushed,
            SenderAction::Close => event is Closed,
            SenderAction::Finish => false,
            SenderAction::Abort => false,
        },
        events.len() == 0 ==> sender_run(events).1 == seq![SenderAction::Listen],
{
    lemma_sender_in_step(events);
    assert(events.push(event).drop_last() =~= events);
}

/// What the sending direction does goes by what happened last, and never by whether it
/// could be done: a message is written, then the next one listened for; the end of the
/// receiving direction brings the flush, the flush the shutdown, and that the end.
pub proof fn sender_answers_each_event(events: Seq<SenderEvent>)
    requires
        sender_order(events),
        events.len() > 0,
    ensures
        ({
            let action = sender_run(events).1.last();
            &&& sender_run(events).1 == sender_run(events.drop_last()).1.push(action)
            &&& match events.last() {
                SenderEvent::Told(Some(m)) => if m == ControlMessage::Sentinel {
                    action == SenderAction::Abort
                } else {
                    action == SenderAction::Write(m)
                },
                SenderEvent::Told(None) => action == SenderAction::Flush,
                SenderEvent::Written(_) => action == SenderAction::Listen,
                SenderEvent::Flushed(_) => action == SenderAction::Close,
                SenderEvent::Closed(_) => action == SenderAction::Finish,
            }
        }),
{
    lemma_sender_in_step(events.drop_last());
}

} // verus!
