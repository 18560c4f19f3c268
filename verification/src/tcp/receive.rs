//! The receiving direction of a response stream: data is forwarded to whoever
//! awaits it, and the client is told when it should stop.
use crate::tcp::control::{
    control_action, outcome_view, process_control_message, Arrival, ArrivalView, ControlAction,
    ControlMessage,
};
use vstd::prelude::*;
use vstd::string::*;

verus! {

/// What the receiving direction waits for. `can_stop` says that the client was not
/// told to stop yet.
#[derive(Debug)]
pub enum Receiver {
    /// A frame, or the end of whoever awaits the data.
    Waiting {
        /// The client was not told to stop yet.
        can_stop: bool,
    },
    /// The message out of a header, with the data of the same frame.
    Steering {
        /// The client was not told to stop yet.
        can_stop: bool,
        /// The data of the frame.
        data: Vec<u8>,
    },
    /// Data to be forwarded.
    Forwarding {
        /// The client was not told to stop yet.
        can_stop: bool,
    },
    /// The message that the client should stop to be handed on.
    Stopping,
    /// The message that the client should end at once to be handed on.
    Killing,
    /// Nothing more.
    Done,
}

/// What happened.
#[derive(Debug)]
pub enum ReceiverEvent {
    /// Nobody awaits the data any more.
    ResponseClosed,
    /// The context was killed.
    Killed,
    /// The context was stopped.
    Stopped,
    /// A frame was awaited.
    Arrived(Arrival),
    /// A header was read.
    Steered(Result<ControlMessage, String>),
    /// Data was forwarded, or there was nobody to forward it to.
    Forwarded(bool),
    /// A message was handed on to the sending direction, or that was gone.
    Sent(bool),
}

/// What is to be done.
#[derive(Debug)]
pub enum ReceiverAction {
    /// Wait, in this order of precedence, for nobody to await the data any more,
    /// for the context to be killed, for it to be stopped, if `stop` says so, and
    /// for a frame.
    Wait {
        /// Wait for the context to be stopped too.
        stop: bool,
    },
    /// Read the message out of a header.
    ReadControl(Vec<u8>),
    /// Forward data.
    Forward(Vec<u8>),
    /// Hand a message on to the sending direction.
    Send(ControlMessage),
    /// End.
    Finish,
    /// End at once: something happened that never should.
    Abort(String),
}

/// What a `Receiver` holds.
pub enum ReceiverView {
    /// A frame, or the end of whoever awaits the data.
    Waiting { can_stop: bool },
    /// The message out of a header.
    Steering { can_stop: bool, data: Seq<u8> },
    /// Data to be forwarded.
    Forwarding { can_stop: bool },
    /// The message that the client should stop to be handed on.
    Stopping,
    /// The message that the client should end at once to be handed on.
    Killing,
    /// Nothing more.
    Done,
}

/// What a `ReceiverEvent` holds.
pub enum ReceiverEventView {
    /// Nobody awaits the data any more.
    ResponseClosed,
    /// The context was killed.
    Killed,
    /// The context was stopped.
    Stopped,
    /// A frame was awaited.
    Arrived(ArrivalView),
    /// A header was read.
    Steered(Result<ControlMessage, Seq<char>>),
    /// Data was forwarded, or there was nobody to forward it to.
    Forwarded(bool),
    /// A message was handed on to the sending direction, or that was gone.
    Sent(bool),
}

/// What a `ReceiverAction` holds.
pub enum ReceiverActionView {
    /// Wait.
    Wait { stop: bool },
    /// Read the message out of a header.
    ReadControl(Seq<u8>),
    /// Forward data.
    Forward(Seq<u8>),
    /// Hand a message on to the sending direction.
    Send(ControlMessage),
    /// End.
    Finish,
    /// End at once.
    Abort(Seq<char>),
}

impl View for Receiver {
    type V = ReceiverView;

    open spec fn view(&self) -> ReceiverView {
        match self {
            Receiver::Waiting { can_stop } => ReceiverView::Waiting { can_stop: *can_stop },
            Receiver::Steering { can_stop, data } => ReceiverView::Steering {
                can_stop: *can_stop,
                data: data@,
            },
            Receiver::Forwarding { can_stop } => ReceiverView::Forwarding { can_stop: *can_stop },
            Receiver::Stopping => ReceiverView::Stopping,
            Receiver::Killing => ReceiverView::Killing,
            Receiver::Done => ReceiverView::Done,
        }
    }
}

impl View for ReceiverEvent {
    type V = ReceiverEventView;

    open spec fn view(&self) -> ReceiverEventView {
        match self {
            ReceiverEvent::ResponseClosed => ReceiverEventView::ResponseClosed,
            ReceiverEvent::Killed => ReceiverEventView::Killed,
            ReceiverEvent::Stopped => ReceiverEventView::Stopped,
            ReceiverEvent::Arrived(a) => ReceiverEventView::Arrived(a@),
            ReceiverEvent::Steered(r) => ReceiverEventView::Steered(outcome_view(*r)),
            ReceiverEvent::Forwarded(b) => ReceiverEventView::Forwarded(*b),
            ReceiverEvent::Sent(b) => ReceiverEventView::Sent(*b),
        }
    }
}

impl View for ReceiverAction {
    type V = ReceiverActionView;

    open spec fn view(&self) -> ReceiverActionView {
        match self {
            ReceiverAction::Wait { stop } => ReceiverActionView::Wait { stop: *stop },
            ReceiverAction::ReadControl(h) => ReceiverActionView::ReadControl(h@),
            ReceiverAction::Forward(d) => ReceiverActionView::Forward(d@),
            ReceiverAction::Send(m) => ReceiverActionView::Send(*m),
            ReceiverAction::Finish => ReceiverActionView::Finish,
            ReceiverAction::Abort(e) => ReceiverActionView::Abort(e@),
        }
    }
}

/// An event is what the receiving direction waits for.
pub open spec fn receiver_awaits(state: ReceiverView, event: ReceiverEventView) -> bool {
    match state {
        ReceiverView::Waiting { can_stop } => match event {
            ReceiverEventView::ResponseClosed => true,
            ReceiverEventView::Killed => true,
            ReceiverEventView::Stopped => can_stop,
            ReceiverEventView::Arrived(_) => true,
            _ => false,
        },
        ReceiverView::Steering { .. } => event is Steered,
        ReceiverView::Forwarding { .. } => event is Forwarded,
        ReceiverView::Stopping => event is Sent,
        ReceiverView::Killing => event is Sent,
        ReceiverView::Done => false,
    }
}

/// The end at once, with the given words.
pub open spec fn aborting(e: Seq<char>) -> (ReceiverView, ReceiverActionView) {
    (ReceiverView::Done, ReceiverActionView::Abort(e))
}

/// The wait for what comes next.
pub open spec fn waiting(can_stop: bool) -> (ReceiverView, ReceiverActionView) {
    (ReceiverView::Waiting { can_stop }, ReceiverActionView::Wait { stop: can_stop })
}

/// The end of the stream, of which the client is told.
pub open spec fn killing() -> (ReceiverView, ReceiverActionView) {
    (ReceiverView::Killing, ReceiverActionView::Send(ControlMessage::Kill))
}

/// The data of a frame goes to whoever awaits it; there may be none.
pub open spec fn forwarding(can_stop: bool, data: Seq<u8>) -> (ReceiverView, ReceiverActionView) {
    if data.len() > 0 {
        (ReceiverView::Forwarding { can_stop }, ReceiverActionView::Forward(data))
    } else {
        waiting(can_stop)
    }
}

/// What follows from an awaited event.
pub open spec fn receiver_step(state: ReceiverView, event: ReceiverEventView) -> (
    ReceiverView,
    ReceiverActionView,
) {
    match (state, event) {
        (ReceiverView::Waiting { .. }, ReceiverEventView::ResponseClosed) => killing(),
        (ReceiverView::Waiting { .. }, ReceiverEventView::Killed) => killing(),
        (ReceiverView::Waiting { .. }, ReceiverEventView::Stopped) => (
            ReceiverView::Stopping,
            ReceiverActionView::Send(ControlMessage::Stop),
        ),
        (ReceiverView::Waiting { can_stop }, ReceiverEventView::Arrived(a)) => match a {
            ArrivalView::Frame { header, data } => if header.len() > 0 {
                (
                    ReceiverView::Steering { can_stop, data },
                    ReceiverActionView::ReadControl(header),
                )
            } else {
                forwarding(can_stop, data)
            },
            ArrivalView::Broken(_) => aborting(
                "invalid message issued over socket; this should never happen"@,
            ),
            ArrivalView::Closed => (ReceiverView::Done, ReceiverActionView::Finish),
        },
        (ReceiverView::Steering { can_stop, data }, ReceiverEventView::Steered(r)) => {
            match control_action(r) {
                Ok(ControlAction::Continue) => forwarding(can_stop, data),
                Ok(ControlAction::Shutdown) => if data.len() > 0 {
                    aborting("received sentinel message with data; this should never happen"@)
                } else {
                    (ReceiverView::Done, ReceiverActionView::Finish)
                },
                Err(e) => aborting(e),
            }
        },
        (ReceiverView::Forwarding { can_stop }, ReceiverEventView::Forwarded(true)) => waiting(
            can_stop,
        ),
        (ReceiverView::Forwarding { .. }, ReceiverEventView::Forwarded(false)) => killing(),
        (ReceiverView::Stopping, ReceiverEventView::Sent(true)) => waiting(false),
        (ReceiverView::Killing, ReceiverEventView::Sent(true)) => (
            ReceiverView::Done,
            ReceiverActionView::Finish,
        ),
        _ => aborting("the control channel should not be closed"@),
    }
}

/// The data of a frame goes to whoever awaits it; there may be none.
fn forward(can_stop: bool, data: Vec<u8>) -> (r: (Receiver, ReceiverAction))
    ensures
        (r.0@, r.1@) == forwarding(can_stop, data@),
{
    if data.len() > 0 {
        (Receiver::Forwarding { can_stop }, ReceiverAction::Forward(data))
    } else {
        (Receiver::Waiting { can_stop }, ReceiverAction::Wait { stop: can_stop })
    }
}

/// The end at once, with the given words.
fn abort(e: &str) -> (r: (Receiver, ReceiverAction))
    ensures
        (r.0@, r.1@) == aborting(e@),
{
    (Receiver::Done, ReceiverAction::Abort(e.to_owned()))
}

/// The end of the stream, of which the client is told.
fn kill() -> (r: (Receiver, ReceiverAction))
    ensures
        (r.0@, r.1@) == killing(),
{
    (Receiver::Killing, ReceiverAction::Send(ControlMessage::Kill))
}

impl Receiver {
    /// The receiving direction at its start, and what to do first.
    pub fn start() -> (r: (Receiver, ReceiverAction))
        ensures
            (r.0@, r.1@) == waiting(true),
            (r.0@, seq![r.1@]) == receiver_run(Seq::empty()),
    {
        (Receiver::Waiting { can_stop: true }, ReceiverAction::Wait { stop: true })
    }

    /// Whether an event is what the receiving direction waits for.
    pub fn awaits(&self, event: &ReceiverEvent) -> (b: bool)
        ensures
            b == receiver_awaits(self@, event@),
    {
        match (self, event) {
            (Receiver::Waiting { .. }, ReceiverEvent::ResponseClosed) => true,
            (Receiver::Waiting { .. }, ReceiverEvent::Killed) => true,
            (Receiver::Waiting { can_stop }, ReceiverEvent::Stopped) => *can_stop,
            (Receiver::Waiting { .. }, ReceiverEvent::Arrived(_)) => true,
            (Receiver::Steering { .. }, ReceiverEvent::Steered(_)) => true,
            (Receiver::Forwarding { .. }, ReceiverEvent::Forwarded(_)) => true,
            (Receiver::Stopping, ReceiverEvent::Sent(_)) => true,
            (Receiver::Killing, ReceiverEvent::Sent(_)) => true,
            _ => false,
        }
    }

    /// What follows from an awaited event: what to wait for next, and what to do.
    pub fn step(self, event: ReceiverEvent) -> (r: (Receiver, ReceiverAction))
        requires
            receiver_awaits(self@, event@),
        ensures
            (r.0@, r.1@) == receiver_step(self@, event@),
    {
        match (self, event) {
            (Receiver::Waiting { .. }, ReceiverEvent::ResponseClosed) => kill(),
            (Receiver::Waiting { .. }, ReceiverEvent::Killed) => kill(),
            (Receiver::Waiting { .. }, ReceiverEvent::Stopped) => (
                Receiver::Stopping,
                ReceiverAction::Send(ControlMessage::Stop),
            ),
            (Receiver::Waiting { can_stop }, ReceiverEvent::Arrived(a)) => match a {
                Arrival::Frame(f) => if f.header.len() > 0 {
                    (
                        Receiver::Steering { can_stop, data: f.data },
                        ReceiverAction::ReadControl(f.header),
                    )
                } else {
                    forward(can_stop, f.data)
                },
                Arrival::Broken(_) => abort(
                    "invalid message issued over socket; this should never happen",
                ),
                Arrival::Closed => (Receiver::Done, ReceiverAction::Finish),
            },
            (Receiver::Steering { can_stop, data }, ReceiverEvent::Steered(r)) => {
                match process_control_message(r) {
                    Ok(ControlAction::Continue) => forward(can_stop, data),
                    Ok(ControlAction::Shutdown) => if data.len() > 0 {
                        abort("received sentinel message with data; this should never happen")
                    } else {
                        (Receiver::Done, ReceiverAction::Finish)
                    },
                    Err(e) => (Receiver::Done, ReceiverAction::Abort(e)),
                }
            },
            (Receiver::Forwarding { can_stop }, ReceiverEvent::Forwarded(taken)) => if taken {
                (Receiver::Waiting { can_stop }, ReceiverAction::Wait { stop: can_stop })
            } else {
                kill()
            },
            (Receiver::Stopping, ReceiverEvent::Sent(true)) => (
                Receiver::Waiting { can_stop: false },
                ReceiverAction::Wait { stop: false },
            ),
            (Receiver::Killing, ReceiverEvent::Sent(true)) => (
                Receiver::Done,
                ReceiverAction::Finish,
            ),
            _ => abort("the control channel should not be closed"),
        }
    }
}

/// What the receiving direction waits for after some events, and what was done on
/// the way.
pub open spec fn receiver_run(events: Seq<ReceiverEventView>) -> (
    ReceiverView,
    Seq<ReceiverActionView>,
)
    decreases events.len(),
{
    if events.len() == 0 {
        (waiting(true).0, seq![waiting(true).1])
    } else {
        let (state, actions) = receiver_run(events.drop_last());
        let (next, action) = receiver_step(state, events.last());
        (next, actions.push(action))
    }
}

/// Each event is one that the receiving direction waits for when it comes.
pub open spec fn receiver_order(events: Seq<ReceiverEventView>) -> bool
    decreases events.len(),
{
    events.len() > 0 ==> {
        &&& receiver_order(events.drop_last())
        &&& receiver_awaits(receiver_run(events.drop_last()).0, events.last())
    }
}

/// How often the client is told a message.
pub open spec fn times_sent(actions: Seq<ReceiverActionView>, m: ControlMessage) -> nat
    decreases actions.len(),
{
    if actions.len() == 0 {
        0
    } else {
        times_sent(actions.drop_last(), m) + if actions.last() == ReceiverActionView::Send(m) {
            1nat
        } else {
            0nat
        }
    }
}

/// What is forwarded, piece by piece.
pub open spec fn forwarded(actions: Seq<ReceiverActionView>) -> Seq<Seq<u8>>
    decreases actions.len(),
{
    if actions.len() == 0 {
        Seq::empty()
    } else {
        let before = forwarded(actions.drop_last());
        match actions.last() {
            ReceiverActionView::Forward(data) => before.push(data),
            _ => before,
        }
    }
}

/// The data of the frames without a header, leaving out frames without data.
pub open spec fn received(events: Seq<ReceiverEventView>) -> Seq<Seq<u8>>
    decreases events.len(),
{
    if events.len() == 0 {
        Seq::empty()
    } else {
        let before = received(events.drop_last());
        match events.last() {
            ReceiverEventView::Arrived(ArrivalView::Frame { header, data }) => if header.len() == 0
                && data.len() > 0 {
                before.push(data)
            } else {
                before
            },
            _ => before,
        }
    }
}

/// Whoever awaits the data gets all that was received, in order and unchanged, and
/// nothing else.
pub proof fn data_is_forwarded_in_order(events: Seq<ReceiverEventView>)
    requires
        receiver_order(events),
    ensures
        forwarded(receiver_run(events).1) == received(events),
    decreases events.len(),
{
    if events.len() == 0 {
        reveal_with_fuel(forwarded, 2);
        assert(receiver_run(events).1.drop_last() =~= Seq::empty());
    } else {
        data_is_forwarded_in_order(events.drop_last());
        let (state, actions) = receiver_run(events.drop_last());
        let action = receiver_step(state, events.last()).1;
        assert(actions.push(action).drop_last() =~= actions);
    }
}

/// The client was not told to stop yet, as far as it matters still.
pub open spec fn may_stop(state: ReceiverView) -> bool {
    match state {
        ReceiverView::Waiting { can_stop } => can_stop,
        ReceiverView::Steering { can_stop, .. } => can_stop,
        ReceiverView::Forwarding { can_stop } => can_stop,
        _ => false,
    }
}

/// The client is told to stop at most once, and to end at once at most once; it is
/// never told that everything was sent.
pub proof fn client_is_told_once(events: Seq<ReceiverEventView>)
    requires
        receiver_order(events),
    ensures
        times_sent(receiver_run(events).1, ControlMessage::Stop) <= 1,
        times_sent(receiver_run(events).1, ControlMessage::Kill) <= 1,
        times_sent(receiver_run(events).1, ControlMessage::Sentinel) == 0,
        may_stop(receiver_run(events).0) ==> times_sent(
            receiver_run(events).1,
            ControlMessage::Stop,
        ) == 0,
        !(receiver_run(events).0 is Killing || receiver_run(events).0 is Done) ==> times_sent(
            receiver_run(events).1,
            ControlMessage::Kill,
        ) == 0,
    decreases events.len(),
{
    if events.len() == 0 {
        reveal_with_fuel(times_sent, 2);
        assert(receiver_run(events).1.drop_last() =~= Seq::empty());
    } else {
        client_is_told_once(events.drop_last());
        let (state, actions) = receiver_run(events.drop_last());
        let action = receiver_step(state, events.last()).1;
        assert(actions.push(action).drop_last() =~= actions);
    }
}

/// Nothing happens after the end: once the client was told to end at once, the
/// stream ends, and after the end no event is awaited.
pub proof fn kill_ends_the_stream(state: ReceiverView, event: ReceiverEventView)
    requires
        receiver_awaits(state, event),
    ensures
        !(state is Done),
        state is Killing ==> receiver_step(state, event).0 is Done,
        receiver_step(state, event).1 == ReceiverActionView::Send(ControlMessage::Kill) ==>
            receiver_step(state, event).0 is Killing,
        (receiver_step(state, event).1 is Finish || receiver_step(state, event).1 is Abort) <==>
            receiver_step(state, event).0 is Done,
{
}

/// The context was stopped at some time.
pub open spec fn was_stopped(events: Seq<ReceiverEventView>) -> bool {
    exists|i: int| 0 <= i < events.len() && (#[trigger] events[i]) is Stopped
}

/// One more event: the context was stopped before, or is stopped by it.
proof fn lemma_was_stopped(events: Seq<ReceiverEventView>)
    requires
        events.len() > 0,
    ensures
        was_stopped(events) <==> was_stopped(events.drop_last()) || events.last() is Stopped,
{
    let before = events.drop_last();
    if was_stopped(before) {
        let i = choose|i: int| 0 <= i < before.len() && (#[trigger] before[i]) is Stopped;
        assert(events[i] is Stopped);
    }
    if events.last() is Stopped {
        assert(events[events.len() - 1] is Stopped);
    }
    if was_stopped(events) && !(events.last() is Stopped) {
        let i = choose|i: int| 0 <= i < events.len() && (#[trigger] events[i]) is Stopped;
        assert(before[i] is Stopped);
    }
}

/// What the receiving direction waits for goes with what it did last.
proof fn lemma_receiver_in_step(events: Seq<ReceiverEventView>)
    requires
        receiver_order(events),
    ensures
        ({
            let (state, actions) = receiver_run(events);
            &&& actions.len() == events.len() + 1
            &&& match state {
                ReceiverView::Waiting { can_stop } => {
                    &&& actions.last() == ReceiverActionView::Wait { stop: can_stop }
                    &&& can_stop == !was_stopped(events)
                },
                ReceiverView::Steering { can_stop, data } => {
                    &&& actions.last() matches ReceiverActionView::ReadControl(header)
                    &&& events.len() > 0
                    &&& events.last() == ReceiverEventView::Arrived(
                        ArrivalView::Frame { header, data },
                    )
                    &&& can_stop == !was_stopped(events)
                },
                ReceiverView::Forwarding { can_stop } => {
                    &&& actions.last() is Forward
                    &&& can_stop == !was_stopped(events)
                },
                ReceiverView::Stopping => {
                    &&& actions.last() == ReceiverActionView::Send(ControlMessage::Stop)
                    &&& was_stopped(events)
                },
                ReceiverView::Killing => actions.last() == ReceiverActionView::Send(
                    ControlMessage::Kill,
                ),
                ReceiverView::Done => actions.last() is Finish || actions.last() is Abort,
            }
        }),
    decreases events.len(),
{
    if events.len() > 0 {
        lemma_receiver_in_step(events.drop_last());
        lemma_was_stopped(events);
    }
}

/// Which events the receiving direction is ready for goes by what it was told to do
/// last: to wait, and then it always listens for the end of whoever awaits the data,
/// for the context to be killed and for a frame, and until the context was stopped
/// once also for that; or to do something, and then for what came of it. After the end
/// it is ready for nothing.
pub proof fn receiver_is_ready_for(events: Seq<ReceiverEventView>, event: ReceiverEventView)
    requires
        receiver_order(events),
    ensures
        receiver_order(events.push(event)) <==> match receiver_run(events).1.last() {
            ReceiverActionView::Wait { .. } => match event {
                ReceiverEventView::ResponseClosed => true,
                ReceiverEventView::Killed => true,
                ReceiverEventView::Arrived(_) => true,
                ReceiverEventView::Stopped => !was_stopped(events),
                _ => false,
            },
            ReceiverActionView::ReadControl(_) => event is Steered,
            ReceiverActionView::Forward(_) => event is Forwarded,
            ReceiverActionView::Send(_) => event is Sent,
            ReceiverActionView::Finish => false,
            ReceiverActionView::Abort(_) => false,
        },
        receiver_run(events).1.last() matches ReceiverActionView::Wait { stop } ==> stop
            == !was_stopped(events),
        events.len() == 0 ==> receiver_run(events).1 == seq![
            ReceiverActionView::Wait { stop: true },
        ],
{
    lemma_receiver_in_step(events);
    assert(events.push(event).drop_last() =~= events);
}

/// Whenever the receiving direction waits and the context is killed, or nobody awaits
/// the data any more, the client is told to end at once, whatever happened before,
/// whether or not it was told to stop; and so it is when there is nobody to forward
/// data to. Whenever it waits and the context is stopped for the first time, the
/// client is told to stop.
pub proof fn end_of_interest_is_passed_on(events: Seq<ReceiverEventView>, event: ReceiverEventView)
    requires
        receiver_order(events),
    ensures
        receiver_run(events).1.last() is Wait && (event is Killed || event is ResponseClosed) ==> {
            &&& receiver_order(events.push(event))
            &&& receiver_run(events.push(event)).1 == receiver_run(events).1.push(
                ReceiverActionView::Send(ControlMessage::Kill),
            )
        },
        receiver_run(events).1.last() is Forward && event == ReceiverEventView::Forwarded(false)
            ==> {
            &&& receiver_order(events.push(event))
            &&& receiver_run(events.push(event)).1 == receiver_run(events).1.push(
                ReceiverActionView::Send(ControlMessage::Kill),
            )
        },
        receiver_run(events).1.last() is Wait && event is Stopped && !was_stopped(events) ==> {
            &&& receiver_order(events.push(event))
            &&& receiver_run(events.push(event)).1 == receiver_run(events).1.push(
                ReceiverActionView::Send(ControlMessage::Stop),
            )
        },
{
    lemma_receiver_in_step(events);
    assert(events.push(event).drop_last() =~= events);
}

/// What the receiving direction does goes by what happened last, and for a message
/// that was handed on or a header that was read also by what it did just before. A
/// frame without a header is data; a header is read first, and may only say that
/// everything was sent, in a frame without data.
pub proof fn receiver_answers_each_event(events: Seq<ReceiverEventView>)
    requires
        receiver_order(events),
        events.len() > 0,
    ensures
        ({
            let before = receiver_run(events.drop_last()).1;
            let action = receiver_run(events).1.last();
            &&& receiver_run(events).1 == before.push(action)
            &&& match events.last() {
                ReceiverEventView::ResponseClosed => action == ReceiverActionView::Send(
                    ControlMessage::Kill,
                ),
                ReceiverEventView::Killed => action == ReceiverActionView::Send(
                    ControlMessage::Kill,
                ),
                ReceiverEventView::Stopped => action == ReceiverActionView::Send(
                    ControlMessage::Stop,
                ),
                ReceiverEventView::Arrived(ArrivalView::Closed) => action
                    == ReceiverActionView::Finish,
                ReceiverEventView::Arrived(ArrivalView::Broken(_)) => action
                    == ReceiverActionView::Abort(
                    "invalid message issued over socket; this should never happen"@,
                ),
                ReceiverEventView::Arrived(ArrivalView::Frame { header, data }) => {
                    &&& header.len() > 0 ==> action == ReceiverActionView::ReadControl(header)
                    &&& header.len() == 0 && data.len() > 0 ==> action
                        == ReceiverActionView::Forward(data)
                    &&& header.len() == 0 && data.len() == 0 ==> action
                        == ReceiverActionView::Wait { stop: !was_stopped(events) }
                },
                ReceiverEventView::Steered(Ok(ControlMessage::Sentinel)) => {
                    &&& events.len() >= 2
                    &&& events[events.len() - 2] matches ReceiverEventView::Arrived(
                        ArrivalView::Frame { data, .. },
                    )
                    &&& data.len() == 0 ==> action == ReceiverActionView::Finish
                    &&& data.len() > 0 ==> action == ReceiverActionView::Abort(
                        "received sentinel message with data; this should never happen"@,
                    )
                },
                ReceiverEventView::Steered(Ok(_)) => action == ReceiverActionView::Abort(
                    "fatal error - unexpected control message received - this should never happen"@,
                ),
                ReceiverEventView::Steered(Err(e)) => action == ReceiverActionView::Abort(e),
                ReceiverEventView::Forwarded(taken) => if taken {
                    action == ReceiverActionView::Wait { stop: !was_stopped(events) }
                } else {
                    action == ReceiverActionView::Send(ControlMessage::Kill)
                },
                ReceiverEventView::Sent(handed_on) => if !handed_on {
                    action == ReceiverActionView::Abort("the control channel should not be closed"@)
                } else if before.last() == ReceiverActionView::Send(ControlMessage::Stop) {
                    action == ReceiverActionView::Wait { stop: false }
                } else {
                    action == ReceiverActionView::Finish
                },
            }
        }),
{
    lemma_receiver_in_step(events.drop_last());
    lemma_receiver_in_step(events);
    lemma_was_stopped(events);
}

/// A call with which a receiving direction that waits learns that the context was
/// killed, or that nobody awaits the data any more, tells the client to end at once,
/// whether or not it was told to stop before; and there is such a call to make, since
/// both are awaited.
pub proof fn call_passes_the_end_on(
    receiver: Receiver,
    event: ReceiverEvent,
    r: (Receiver, ReceiverAction),
    ready: bool,
)
    requires
        receiver is Waiting,
        event is Killed || event is ResponseClosed,
        call_ensures(Receiver::awaits, (&receiver, &event), ready),
        call_ensures(Receiver::step, (receiver, event), r),
    ensures
        ready,
        call_requires(Receiver::step, (receiver, event)),
        r.1 == ReceiverAction::Send(ControlMessage::Kill),
        r.0 is Killing,
{
}

} // verus!
