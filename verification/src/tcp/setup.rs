//! How a connection is set up: the client says which stream it opens, whoever
//! awaits the stream is found, and the client says whether responses will come.
use crate::tcp::control::{
    outcome_view, Arrival, ArrivalView, CallHomeHandshake, ResponseStreamPrologue,
};
use crate::tcp::stream::StreamType;
use crate::text::joined;
use vstd::prelude::*;
use vstd::string::*;

verus! {

/// What the setup of a connection waits for.
#[derive(Clone, Copy, Debug, PartialEq, Eq, Structural)]
pub enum Setup {
    /// The first frame.
    Opening,
    /// The handshake out of the first frame.
    Greeting,
    /// Whoever awaits the stream.
    Claiming,
    /// The second frame.
    Announcing,
    /// The prologue out of the second frame.
    Reading,
    /// The answer of whoever awaits the stream.
    Offering,
    /// The end of the stream.
    Streaming,
    /// Nothing more.
    Done,
}

/// What happened.
#[derive(Debug)]
pub enum SetupEvent {
    /// A frame was awaited.
    Arrived(Arrival),
    /// The header of the first frame was read.
    Greeted(Result<CallHomeHandshake, String>),
    /// Whoever awaits the stream was looked for.
    Claimed(Result<(), String>),
    /// The header of the second frame was read.
    Announced(Result<ResponseStreamPrologue, String>),
    /// The stream was offered, and taken or not.
    Answered(bool),
    /// Both directions of the stream came to an end: writing, then reading.
    Ended(Result<(), String>, Result<(), String>),
}

/// What is to be done.
#[derive(Debug)]
pub enum SetupAction {
    /// Read the handshake out of a header.
    ReadHandshake(Vec<u8>),
    /// Look for whoever awaits the stream of a subject.
    Claim(String),
    /// Await the second frame.
    AwaitPrologue,
    /// Read the prologue out of a header.
    ReadPrologue(Vec<u8>),
    /// Tell whoever awaits the stream why it does not come; then end with a failure.
    Refuse {
        /// What to tell.
        reason: String,
        /// The failure.
        failure: String,
    },
    /// Offer the stream to whoever awaits it.
    Offer,
    /// Run both directions of the stream.
    Stream,
    /// End, with success or a failure.
    Finish(Result<(), String>),
    /// End at once: the peer broke the protocol.
    Abort(String),
}

/// What a `SetupEvent` holds.
pub enum SetupEventView {
    /// A frame was awaited.
    Arrived(ArrivalView),
    /// The header of the first frame was read.
    Greeted(Result<(Seq<char>, StreamType), Seq<char>>),
    /// Whoever awaits the stream was looked for.
    Claimed(Result<(), Seq<char>>),
    /// The header of the second frame was read; the reason for no responses, if any.
    Announced(Result<Option<Seq<char>>, Seq<char>>),
    /// The stream was offered, and taken or not.
    Answered(bool),
    /// Both directions of the stream came to an end.
    Ended(Result<(), Seq<char>>, Result<(), Seq<char>>),
}

/// What a `SetupAction` holds.
pub enum SetupActionView {
    /// Read the handshake out of a header.
    ReadHandshake(Seq<u8>),
    /// Look for whoever awaits the stream of a subject.
    Claim(Seq<char>),
    /// Await the second frame.
    AwaitPrologue,
    /// Read the prologue out of a header.
    ReadPrologue(Seq<u8>),
    /// Tell whoever awaits the stream why it does not come; then end with a failure.
    Refuse { reason: Seq<char>, failure: Seq<char> },
    /// Offer the stream to whoever awaits it.
    Offer,
    /// Run both directions of the stream.
    Stream,
    /// End, with success or a failure.
    Finish(Result<(), Seq<char>>),
    /// End at once.
    Abort(Seq<char>),
}

impl View for SetupEvent {
    type V = SetupEventView;

    open spec fn view(&self) -> SetupEventView {
        match self {
            SetupEvent::Arrived(a) => SetupEventView::Arrived(a@),
            SetupEvent::Greeted(Ok(h)) => SetupEventView::Greeted(Ok((h.subject@, h.stream_type))),
            SetupEvent::Greeted(Err(e)) => SetupEventView::Greeted(Err(e@)),
            SetupEvent::Claimed(r) => SetupEventView::Claimed(outcome_view(*r)),
            SetupEvent::Announced(Ok(p)) => SetupEventView::Announced(
                Ok(
                    match p.error {
                        Some(e) => Some(e@),
                        None => None,
                    },
                ),
            ),
            SetupEvent::Announced(Err(e)) => SetupEventView::Announced(Err(e@)),
            SetupEvent::Answered(b) => SetupEventView::Answered(*b),
            SetupEvent::Ended(w, r) => SetupEventView::Ended(outcome_view(*w), outcome_view(*r)),
        }
    }
}

impl View for SetupAction {
    type V = SetupActionView;

    open spec fn view(&self) -> SetupActionView {
        match self {
            SetupAction::ReadHandshake(h) => SetupActionView::ReadHandshake(h@),
            SetupAction::Claim(s) => SetupActionView::Claim(s@),
            SetupAction::AwaitPrologue => SetupActionView::AwaitPrologue,
            SetupAction::ReadPrologue(h) => SetupActionView::ReadPrologue(h@),
            SetupAction::Refuse { reason, failure } => SetupActionView::Refuse {
                reason: reason@,
                failure: failure@,
            },
            SetupAction::Offer => SetupActionView::Offer,
            SetupAction::Stream => SetupActionView::Stream,
            SetupAction::Finish(r) => SetupActionView::Finish(outcome_view(*r)),
            SetupAction::Abort(e) => SetupActionView::Abort(e@),
        }
    }
}

/// An event is what the setup waits for.
pub open spec fn awaited(state: Setup, event: SetupEventView) -> bool {
    match state {
        Setup::Opening => event is Arrived,
        Setup::Greeting => event is Greeted,
        Setup::Claiming => event is Claimed,
        Setup::Announcing => event is Arrived,
        Setup::Reading => event is Announced,
        Setup::Offering => event is Answered,
        Setup::Streaming => event is Ended,
        Setup::Done => false,
    }
}

/// The end of the setup with a failure.
pub open spec fn failing(e: Seq<char>) -> (Setup, SetupActionView) {
    (Setup::Done, SetupActionView::Finish(Err(e)))
}

/// What follows from the first frame: its header holds the handshake.
pub open spec fn after_first_frame(a: ArrivalView) -> (Setup, SetupActionView) {
    match a {
        ArrivalView::Closed => failing("Connection closed without a ControlMessage"@),
        ArrivalView::Broken(e) => failing(e),
        ArrivalView::Frame { header, .. } => if header.len() == 0 {
            failing("Expected ControlMessage, got DataMessage"@)
        } else {
            (Setup::Greeting, SetupActionView::ReadHandshake(header))
        },
    }
}

/// What follows from the handshake: nothing for a stream of requests, and the
/// search for whoever awaits a stream of responses.
pub open spec fn after_handshake(r: Result<(Seq<char>, StreamType), Seq<char>>) -> (
    Setup,
    SetupActionView,
) {
    match r {
        Ok((_, StreamType::Request)) => (Setup::Done, SetupActionView::Finish(Ok(()))),
        Ok((subject, StreamType::Response)) => (Setup::Claiming, SetupActionView::Claim(subject)),
        Err(e) => failing(
            "Failed to deserialize the first message as a valid `CallHomeHandshake`: "@ + e,
        ),
    }
}

/// What follows from the second frame: it is a header alone, with the prologue.
pub open spec fn after_second_frame(a: ArrivalView) -> (Setup, SetupActionView) {
    match a {
        ArrivalView::Closed => failing("Connection closed without a ControlMessge"@),
        ArrivalView::Broken(e) => failing(e),
        ArrivalView::Frame { header, data } => if header.len() > 0 && data.len() == 0 {
            (Setup::Reading, SetupActionView::ReadPrologue(header))
        } else {
            (
                Setup::Done,
                SetupActionView::Abort(
                    "Expected HeaderOnly ControlMessage; internally logic error"@,
                ),
            )
        },
    }
}

/// What follows from the prologue: the stream is offered, unless no responses will
/// come.
pub open spec fn after_prologue(r: Result<Option<Seq<char>>, Seq<char>>) -> (
    Setup,
    SetupActionView,
) {
    match r {
        Ok(Some(e)) => (
            Setup::Done,
            SetupActionView::Refuse { reason: e, failure: "Received error prologue: "@ + e },
        ),
        Ok(None) => (Setup::Offering, SetupActionView::Offer),
        Err(e) => failing("Failed to deserialize ControlMessage: "@ + e),
    }
}

/// What follows from an awaited event.
pub open spec fn setup_step(state: Setup, event: SetupEventView) -> (Setup, SetupActionView) {
    match (state, event) {
        (Setup::Opening, SetupEventView::Arrived(a)) => after_first_frame(a),
        (Setup::Greeting, SetupEventView::Greeted(r)) => after_handshake(r),
        (Setup::Claiming, SetupEventView::Claimed(Ok(_))) => (
            Setup::Announcing,
            SetupActionView::AwaitPrologue,
        ),
        (Setup::Claiming, SetupEventView::Claimed(Err(e))) => failing(e),
        (Setup::Announcing, SetupEventView::Arrived(a)) => after_second_frame(a),
        (Setup::Reading, SetupEventView::Announced(r)) => after_prologue(r),
        (Setup::Offering, SetupEventView::Answered(true)) => (
            Setup::Streaming,
            SetupActionView::Stream,
        ),
        (Setup::Offering, SetupEventView::Answered(false)) => failing(
            "The requester of the stream has been dropped before the connection was established"@,
        ),
        (Setup::Streaming, SetupEventView::Ended(Err(e), _)) => failing(e),
        (Setup::Streaming, SetupEventView::Ended(Ok(_), r)) => (
            Setup::Done,
            SetupActionView::Finish(r),
        ),
        _ => (Setup::Done, SetupActionView::Finish(Ok(()))),
    }
}

/// The failure with the given words.
fn fail(e: &str) -> (a: SetupAction)
    ensures
        a@ == SetupActionView::Finish(Err(e@)),
{
    SetupAction::Finish(Err(e.to_owned()))
}

impl Setup {
    /// Whether an event is what the setup waits for.
    pub fn awaits(&self, event: &SetupEvent) -> (b: bool)
        ensures
            b == awaited(*self, event@),
    {
        match (self, event) {
            (Setup::Opening, SetupEvent::Arrived(_)) => true,
            (Setup::Greeting, SetupEvent::Greeted(_)) => true,
            (Setup::Claiming, SetupEvent::Claimed(_)) => true,
            (Setup::Announcing, SetupEvent::Arrived(_)) => true,
            (Setup::Reading, SetupEvent::Announced(_)) => true,
            (Setup::Offering, SetupEvent::Answered(_)) => true,
            (Setup::Streaming, SetupEvent::Ended(_, _)) => true,
            _ => false,
        }
    }

    /// What follows from an awaited event: what to wait for next, and what to do.
    pub fn step(&mut self, event: SetupEvent) -> (action: SetupAction)
        requires
            awaited(*old(self), event@),
        ensures
            (*final(self), action@) == setup_step(*old(self), event@),
    {
        let state = *self;
        *self = Setup::Done;
        match (state, event) {
            (Setup::Opening, SetupEvent::Arrived(a)) => match a {
                Arrival::Closed => fail("Connection closed without a ControlMessage"),
                Arrival::Broken(e) => SetupAction::Finish(Err(e)),
                Arrival::Frame(f) => if f.header.len() == 0 {
                    fail("Expected ControlMessage, got DataMessage")
                } else {
                    *self = Setup::Greeting;
                    SetupAction::ReadHandshake(f.header)
                },
            },
            (Setup::Greeting, SetupEvent::Greeted(r)) => match r {
                Ok(h) => match h.stream_type {
                    StreamType::Request => SetupAction::Finish(Ok(())),
                    StreamType::Response => {
                        *self = Setup::Claiming;
                        SetupAction::Claim(h.subject)
                    },
                },
                Err(e) => SetupAction::Finish(
                    Err(
                        joined(
                            "Failed to deserialize the first message as a valid `CallHomeHandshake`: ",
                            e.as_str(),
                        ),
                    ),
                ),
            },
            (Setup::Claiming, SetupEvent::Claimed(r)) => match r {
                Ok(_) => {
                    *self = Setup::Announcing;
                    SetupAction::AwaitPrologue
                },
                Err(e) => SetupAction::Finish(Err(e)),
            },
            (Setup::Announcing, SetupEvent::Arrived(a)) => match a {
                Arrival::Closed => fail("Connection closed without a ControlMessge"),
                Arrival::Broken(e) => SetupAction::Finish(Err(e)),
                Arrival::Frame(f) => if f.header.len() > 0 && f.data.len() == 0 {
                    *self = Setup::Reading;
                    SetupAction::ReadPrologue(f.header)
                } else {
                    SetupAction::Abort(
                        "Expected HeaderOnly ControlMessage; internally logic error".to_owned(),
                    )
                },
            },
            (Setup::Reading, SetupEvent::Announced(r)) => match r {
                Ok(p) => match p.error {
                    Some(e) => {
                        let failure = joined("Received error prologue: ", e.as_str());
                        SetupAction::Refuse { reason: e, failure }
                    },
                    None => {
                        *self = Setup::Offering;
                        SetupAction::Offer
                    },
                },
                Err(e) => SetupAction::Finish(
                    Err(joined("Failed to deserialize ControlMessage: ", e.as_str())),
                ),
            },
            (Setup::Offering, SetupEvent::Answered(taken)) => if taken {
                *self = Setup::Streaming;
                SetupAction::Stream
            } else {
                fail(
                    "The requester of the stream has been dropped before the connection was established",
                )
            },
            (Setup::Streaming, SetupEvent::Ended(w, r)) => match w {
                Ok(_) => SetupAction::Finish(r),
                Err(e) => SetupAction::Finish(Err(e)),
            },
            _ => SetupAction::Finish(Ok(())),
        }
    }
}

/// What the setup waits for after some events, and what was done on the way.
pub open spec fn setup_run(events: Seq<SetupEventView>) -> (Setup, Seq<SetupActionView>)
    decreases events.len(),
{
    if events.len() == 0 {
        (Setup::Opening, Seq::empty())
    } else {
        let (state, actions) = setup_run(events.drop_last());
        let (next, action) = setup_step(state, events.last());
        (next, actions.push(action))
    }
}

/// Each event is one that the setup waits for when it comes.
pub open spec fn setup_order(events: Seq<SetupEventView>) -> bool
    decreases events.len(),
{
    events.len() > 0 ==> {
        &&& setup_order(events.drop_last())
        &&& awaited(setup_run(events.drop_last()).0, events.last())
    }
}

/// How often whoever awaits the stream is looked for.
pub open spec fn claims(actions: Seq<SetupActionView>) -> nat
    decreases actions.len(),
{
    if actions.len() == 0 {
        0
    } else {
        claims(actions.drop_last()) + if actions.last() is Claim {
            1nat
        } else {
            0nat
        }
    }
}

/// How often whoever awaits the stream is told of it: that it is there, or why it
/// does not come.
pub open spec fn answers(actions: Seq<SetupActionView>) -> nat
    decreases actions.len(),
{
    if actions.len() == 0 {
        0
    } else {
        answers(actions.drop_last()) + if actions.last() is Offer || actions.last() is Refuse {
            1nat
        } else {
            0nat
        }
    }
}

/// How far the setup has come.
pub open spec fn progress(state: Setup) -> nat {
    match state {
        Setup::Opening => 0,
        Setup::Greeting => 1,
        Setup::Claiming => 2,
        Setup::Announcing => 3,
        Setup::Reading => 4,
        Setup::Offering => 5,
        Setup::Streaming => 6,
        Setup::Done => 7,
    }
}

/// Whoever awaits a stream is told of it at most once, and only after they were
/// looked for, which also happens at most once.
pub proof fn requester_is_answered_once(events: Seq<SetupEventView>)
    requires
        setup_order(events),
    ensures
        answers(setup_run(events).1) <= claims(setup_run(events).1) <= 1,
        setup_run(events).0 == Setup::Streaming ==> answers(setup_run(events).1) == 1,
{
    lemma_counts(events);
}

/// How often whoever awaits the stream was looked for and told, by what the setup
/// waits for.
proof fn lemma_counts(events: Seq<SetupEventView>)
    requires
        setup_order(events),
    ensures
        ({
            let (state, actions) = setup_run(events);
            let n = progress(state);
            &&& n < 2 ==> claims(actions) == 0
            &&& 2 <= n < 7 ==> claims(actions) == 1
            &&& claims(actions) <= 1
            &&& n < 5 ==> answers(actions) == 0
            &&& 5 <= n < 7 ==> answers(actions) == 1
            &&& answers(actions) <= claims(actions)
        }),
    decreases events.len(),
{
    if events.len() > 0 {
        lemma_counts(events.drop_last());
        let (state, actions) = setup_run(events.drop_last());
        let action = setup_step(state, events.last()).1;
        assert(actions.push(action).drop_last() =~= actions);
    }
}

/// The setup comes to an end: each event brings it forward, and there are at most
/// seven.
pub proof fn setup_comes_to_an_end(events: Seq<SetupEventView>)
    requires
        setup_order(events),
    ensures
        events.len() <= progress(setup_run(events).0) <= 7,
    decreases events.len(),
{
    if events.len() > 0 {
        setup_comes_to_an_end(events.drop_last());
    }
}

/// The reason why no responses will come reaches whoever awaits them, word for
/// word, and the connection ends with a failure.
pub proof fn refusal_reaches_the_requester(reason: Seq<char>)
    ensures
        setup_step(Setup::Reading, SetupEventView::Announced(Ok(Some(reason)))) == (
            Setup::Done,
            SetupActionView::Refuse { reason, failure: "Received error prologue: "@ + reason },
        ),
{
}

/// Where nobody awaits the stream, or what the client sends cannot be read, the
/// connection ends with a failure and nobody is told.
pub proof fn failures_end_the_setup(state: Setup, e: Seq<char>)
    ensures
        setup_step(Setup::Claiming, SetupEventView::Claimed(Err(e))) == failing(e),
        state == Setup::Opening || state == Setup::Announcing ==> setup_step(
            state,
            SetupEventView::Arrived(ArrivalView::Broken(e)),
        ) == failing(e),
        setup_step(Setup::Greeting, SetupEventView::Greeted(Err(e))).0 == Setup::Done,
        setup_step(Setup::Greeting, SetupEventView::Greeted(Err(e))).1 is Finish,
        setup_step(Setup::Reading, SetupEventView::Announced(Err(e))).0 == Setup::Done,
        setup_step(Setup::Reading, SetupEventView::Announced(Err(e))).1 is Finish,
{
}

/// What the setup waits for goes with what it did last.
proof fn lemma_setup_in_step(events: Seq<SetupEventView>)
    requires
        setup_order(events),
    ensures
        ({
            let (state, actions) = setup_run(events);
            &&& actions.len() == events.len()
            &&& match state {
                Setup::Opening => events.len() == 0,
                Setup::Greeting => events.len() > 0 && actions.last() is ReadHandshake,
                Setup::Claiming => events.len() > 0 && actions.last() is Claim,
                Setup::Announcing => events.len() > 0 && actions.last() is AwaitPrologue,
                Setup::Reading => events.len() > 0 && actions.last() is ReadPrologue,
                Setup::Offering => events.len() > 0 && actions.last() is Offer,
                Setup::Streaming => events.len() > 0 && actions.last() is Stream,
                Setup::Done => {
                    &&& events.len() > 0
                    &&& actions.last() is Refuse || actions.last() is Finish || actions.last()
                        is Abort
                },
            }
        }),
    decreases events.len(),
{
    if events.len() > 0 {
        lemma_setup_in_step(events.drop_last());
    }
}

/// Which events the setup is ready for goes by what it was told to do last: first for a
/// frame, then for what came of what was to be done; after the end for nothing.
pub proof fn setup_is_ready_for(events: Seq<SetupEventView>, event: SetupEventView)
    requires
        setup_order(events),
    ensures
        setup_order(events.push(event)) <==> if events.len() == 0 {
            event is Arrived
        } else {
            match setup_run(events).1.last() {
                SetupActionView::ReadHandshake(_) => event is Greeted,
                SetupActionView::Claim(_) => event is Claimed,
                SetupActionView::AwaitPrologue => event is Arrived,
                SetupActionView::ReadPrologue(_) => event is Announced,
                SetupActionView::Offer => event is Answered,
                SetupActionView::Stream => event is Ended,
                SetupActionView::Refuse { .. } => false,
                SetupActionView::Finish(_) => false,
                SetupActionView::Abort(_) => false,
            }
        },
{
    lemma_setup_in_step(events);
    assert(events.push(event).drop_last() =~= events);
}

/// What the setup does goes by what happened last, and for a frame also by whether it
/// is the first. The header of the first frame holds the handshake, and that the
/// subject that is looked for; the header of the second, which has no data, holds the
/// prologue; the stream is offered only where that has no error, and run only where it
/// was taken. Every failure ends the setup in the words that belong to it.
pub proof fn setup_answers_each_event(events: Seq<SetupEventView>)
    requires
        setup_order(events),
        events.len() > 0,
    ensures
        ({
            let action = setup_run(events).1.last();
            let first = events.len() == 1;
            &&& setup_run(events).1 == setup_run(events.drop_last()).1.push(action)
            &&& match events.last() {
                SetupEventView::Arrived(ArrivalView::Closed) => action == SetupActionView::Finish(
                    Err(
                        if first {
                            "Connection closed without a ControlMessage"@
                        } else {
                            "Connection closed without a ControlMessge"@
                        },
                    ),
                ),
                SetupEventView::Arrived(ArrivalView::Broken(e)) => action
                    == SetupActionView::Finish(Err(e)),
                SetupEventView::Arrived(ArrivalView::Frame { header, data }) => {
                    &&& first && header.len() > 0 ==> action == SetupActionView::ReadHandshake(
                        header,
                    )
                    &&& first && header.len() == 0 ==> action == SetupActionView::Finish(
                        Err("Expected ControlMessage, got DataMessage"@),
                    )
                    &&& !first && header.len() > 0 && data.len() == 0 ==> action
                        == SetupActionView::ReadPrologue(header)
                    &&& !first && (header.len() == 0 || data.len() > 0) ==> action
                        == SetupActionView::Abort(
                        "Expected HeaderOnly ControlMessage; internally logic error"@,
                    )
                },
                SetupEventView::Greeted(Ok((subject, stream_type))) => action == if stream_type
                    == StreamType::Response {
                    SetupActionView::Claim(subject)
                } else {
                    SetupActionView::Finish(Ok(()))
                },
                SetupEventView::Greeted(Err(e)) => action == SetupActionView::Finish(
                    Err(
                        "Failed to deserialize the first message as a valid `CallHomeHandshake`: "@
                            + e,
                    ),
                ),
                SetupEventView::Claimed(Ok(_)) => action == SetupActionView::AwaitPrologue,
                SetupEventView::Claimed(Err(e)) => action == SetupActionView::Finish(Err(e)),
                SetupEventView::Announced(Ok(None)) => action == SetupActionView::Offer,
                SetupEventView::Announced(Ok(Some(e))) => action == SetupActionView::Refuse {
                    reason: e,
                    failure: "Received error prologue: "@ + e,
                },
                SetupEventView::Announced(Err(e)) => action == SetupActionView::Finish(
                    Err("Failed to deserialize ControlMessage: "@ + e),
                ),
                SetupEventView::Answered(true) => action == SetupActionView::Stream,
                SetupEventView::Answered(false) => action == SetupActionView::Finish(
                    Err(
                        "The requester of the stream has been dropped before the connection was established"@,
                    ),
                ),
                SetupEventView::Ended(Err(e), _) => action == SetupActionView::Finish(Err(e)),
                SetupEventView::Ended(Ok(_), Err(e)) => action == SetupActionView::Finish(Err(e)),
                SetupEventView::Ended(Ok(_), Ok(_)) => action == SetupActionView::Finish(Ok(())),
            }
        }),
{
    lemma_setup_in_step(events.drop_last());
    let state = setup_run(events.drop_last()).0;
    match events.last() {
        SetupEventView::Arrived(_) => {
            assert(events.len() > 1 <==> state == Setup::Announcing);
        },
        SetupEventView::Ended(Ok(_), Ok(read)) => {
            assert(read == ());
        },
        _ => {},
    }
}

} // verus!
