//! What travels over a connection: frames of a header and data, and the messages
//! that headers hold.
use crate::tcp::stream::StreamType;
use vstd::prelude::*;
use vstd::string::*;

verus! {

/// A frame: a header and data, either of which may be empty.
#[derive(Debug)]
pub struct Frame {
    /// The header.
    pub header: Vec<u8>,
    /// The data.
    pub data: Vec<u8>,
}

/// What comes when a frame is awaited.
#[derive(Debug)]
pub enum Arrival {
    /// The peer closed the connection.
    Closed,
    /// What came is no frame, for a reason in words.
    Broken(String),
    /// A frame.
    Frame(Frame),
}

/// What an `Arrival` holds.
pub enum ArrivalView {
    /// The peer closed the connection.
    Closed,
    /// What came is no frame.
    Broken(Seq<char>),
    /// A frame.
    Frame { header: Seq<u8>, data: Seq<u8> },
}

impl View for Arrival {
    type V = ArrivalView;

    open spec fn view(&self) -> ArrivalView {
        match self {
            Arrival::Closed => ArrivalView::Closed,
            Arrival::Broken(e) => ArrivalView::Broken(e@),
            Arrival::Frame(f) => ArrivalView::Frame { header: f.header@, data: f.data@ },
        }
    }
}

/// The first message of a client: which stream it opens.
#[derive(Debug)]
pub struct CallHomeHandshake {
    /// The subject of the stream.
    pub subject: String,
    /// The direction of the stream.
    pub stream_type: StreamType,
}

/// The second message of a client that opens a response stream: whether responses
/// will come.
#[derive(Debug)]
pub struct ResponseStreamPrologue {
    /// Why no responses will come.
    pub error: Option<String>,
}

/// A message that steers a stream.
#[derive(Clone, Copy, Debug, PartialEq, Eq, Structural)]
pub enum ControlMessage {
    /// The peer should come to an end.
    Stop,
    /// The peer should end at once.
    Kill,
    /// The sender has sent everything.
    Sentinel,
}

/// What follows from a message that steers a stream.
#[derive(Clone, Copy, Debug, PartialEq, Eq, Structural)]
pub enum ControlAction {
    /// Go on.
    Continue,
    /// The stream is complete.
    Shutdown,
}

/// The value or the reason in words for there being none.
pub open spec fn outcome_view<T>(r: Result<T, String>) -> Result<T, Seq<char>> {
    match r {
        Ok(v) => Ok(v),
        Err(e) => Err(e@),
    }
}

/// What is said of a message that a client must not send.
pub open spec fn unexpected_control_text() -> Seq<char> {
    "fatal error - unexpected control message received - this should never happen"@
}

/// What follows from the message in a header, or from there being none: a client
/// may only say that it has sent everything.
pub open spec fn control_action(message: Result<ControlMessage, Seq<char>>) -> Result<
    ControlAction,
    Seq<char>,
> {
    match message {
        Ok(ControlMessage::Sentinel) => Ok(ControlAction::Shutdown),
        Ok(_) => Err(unexpected_control_text()),
        Err(e) => Err(e),
    }
}

/// What follows from the message in a header, or from there being none.
pub fn process_control_message(message: Result<ControlMessage, String>) -> (r: Result<
    ControlAction,
    String,
>)
    ensures
        outcome_view(r) == control_action(outcome_view(message)),
{
    match message {
        Ok(ControlMessage::Sentinel) => Ok(ControlAction::Shutdown),
        Ok(_) => Err(
            "fatal error - unexpected control message received - this should never happen".to_owned(),
        ),
        Err(e) => Err(e),
    }
}

/// A client may only say that it has sent everything, which completes the stream; any
/// other message is a fatal error, and a header that cannot be read is reported as such.
pub proof fn only_the_sentinel_is_expected(
    message: Result<ControlMessage, String>,
    r: Result<ControlAction, String>,
)
    requires
        call_ensures(process_control_message, (message,), r),
    ensures
        r is Ok <==> message matches Ok(ControlMessage::Sentinel),
        r matches Ok(action) ==> action == ControlAction::Shutdown,
        message is Ok && r is Err ==> r->Err_0@
            == "fatal error - unexpected control message received - this should never happen"@,
        message matches Err(e) ==> r is Err && r->Err_0@ == e@,
{
}

} // verus!
