//! Registration of streams: what is asked for, and what a client needs to open a
//! stream.
use vstd::prelude::*;

verus! {

/// The direction of a stream.
#[derive(Clone, Copy, Debug, PartialEq, Eq, Structural)]
pub enum StreamType {
    /// Requests, from the server to the client.
    Request,
    /// Responses, from the client to the server.
    Response,
}

/// The streams that someone asks for.
#[derive(Debug)]
pub struct StreamOptions {
    /// The identifier of the context that the streams belong to.
    pub context: String,
    /// A stream of requests is asked for.
    pub enable_request_stream: bool,
    /// A stream of responses is asked for.
    pub enable_response_stream: bool,
}

/// What a client needs to open a stream.
#[derive(Debug)]
pub struct TcpStreamConnectionInfo {
    /// Where the server listens.
    pub address: String,
    /// The subject of the stream.
    pub subject: String,
    /// The identifier of the context that the stream belongs to.
    pub context: String,
    /// The direction of the stream.
    pub stream_type: StreamType,
}

/// What a `TcpStreamConnectionInfo` holds.
#[verifier::ext_equal]
pub struct ConnectionInfoView {
    /// Where the server listens.
    pub address: Seq<char>,
    /// The subject of the stream.
    pub subject: Seq<char>,
    /// The identifier of the context that the stream belongs to.
    pub context: Seq<char>,
    /// The direction of the stream.
    pub stream_type: StreamType,
}

impl View for TcpStreamConnectionInfo {
    type V = ConnectionInfoView;

    open spec fn view(&self) -> ConnectionInfoView {
        ConnectionInfoView {
            address: self.address@,
            subject: self.subject@,
            context: self.context@,
            stream_type: self.stream_type,
        }
    }
}

/// The streams that were registered.
#[derive(Debug)]
pub struct PendingConnections {
    /// The stream of requests, if one was asked for.
    pub send_stream: Option<TcpStreamConnectionInfo>,
    /// The stream of responses, if one was asked for.
    pub recv_stream: Option<TcpStreamConnectionInfo>,
}

/// What a client needs to open a stream, where there is one.
pub open spec fn info_view(info: Option<TcpStreamConnectionInfo>) -> Option<ConnectionInfoView> {
    match info {
        Some(info) => Some(info@),
        None => None,
    }
}

/// A hexadecimal digit in lower case.
pub open spec fn hex_digit(c: char) -> bool {
    '0' <= c <= '9' || 'a' <= c <= 'f'
}

/// A subject: a UUID of version 4, in five groups of hexadecimal digits.
pub open spec fn subject_text(s: Seq<char>) -> bool {
    &&& s.len() == 36
    &&& forall|i: int|
        0 <= i < 36 ==> if i == 8 || i == 13 || i == 18 || i == 23 {
            #[trigger] s[i] == '-'
        } else {
            hex_digit(s[i])
        }
    &&& s[14] == '4'
    &&& s[19] == '8' || s[19] == '9' || s[19] == 'a' || s[19] == 'b'
}

/// Calls `uuid::Uuid::new_v4`, for a subject. Which one it is rests on chance; it is
/// written as a UUID of version 4.
#[verifier::external_body]
pub(crate) fn new_subject() -> (subject: String)
    ensures
        subject_text(subject@),
{
    uuid::Uuid::new_v4().to_string()
}

/// A subject came out of a draw of `new_subject`.
pub closed spec fn drawn(subject: String) -> bool {
    call_ensures(new_subject, (), subject)
}

/// A subject that was drawn for this call.
pub(crate) fn draw_subject() -> (subject: String)
    ensures
        drawn(subject),
        subject_text(subject@),
{
    new_subject()
}

} // verus!
