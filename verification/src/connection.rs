//! What is decided for one connection, between the one read and the one
//! write: the bytes that came are decoded and parsed, and a request that
//! parses is answered.

use vstd::prelude::*;
use crate::request::{HttpRequest, ParseError, RequestModel, parse_spec};
use crate::response::{response, response_text};
use vstd::slice::slice_subrange;
use vstd::utf8::{decode_utf8, valid_utf8};

verus! {

/// The number of bytes that the one read of a connection can take.
pub const READ_CAPACITY: usize = 1024;

/// Why a connection got no answer.
#[derive(Clone, Copy, Debug, PartialEq, Eq, Structural)]
pub enum HandlingError {
    /// The transport failed.
    Transport,
    /// The peer closed the connection before it sent a byte.
    Closed,
    /// What the peer sent is not the head of a request.
    Parse(ParseError),
}

impl HandlingError {
    /// The words that describe the error.
    pub open spec fn message_text(self) -> Seq<char> {
        match self {
            HandlingError::Transport => "Transport failure"@,
            HandlingError::Closed => "Connection closed before a request"@,
            HandlingError::Parse(e) => e.message_text(),
        }
    }

    /// Describes the error in words.
    pub fn message(&self) -> (r: String)
        ensures
            r@ == self.message_text(),
    {
        match self {
            HandlingError::Transport => "Transport failure".to_owned(),
            HandlingError::Closed => "Connection closed before a request".to_owned(),
            HandlingError::Parse(e) => e.message(),
        }
    }
}

/// A request together with the response to send for it.
#[derive(Debug)]
pub struct Reply {
    pub request: HttpRequest,
    pub response: String,
}

/// The text that `String::from_utf8_lossy` reads from `bytes`.
pub uninterp spec fn utf8_lossy(bytes: Seq<u8>) -> Seq<char>;

/// `String::from_utf8_lossy` decodes bytes as UTF-8 and puts U+FFFD in the
/// place of what is no valid encoding; it never fails. The contract claims
/// that the text is a function of the bytes, and that bytes which are valid
/// UTF-8 give the text that they encode.
#[verifier::external_body]
fn decode_lossy(bytes: &[u8]) -> (text: String)
    ensures
        text@ == utf8_lossy(bytes@),
        valid_utf8(bytes@) ==> text@ == decode_utf8(bytes@),
{
    String::from_utf8_lossy(bytes).into_owned()
}

/// What a reply holds: the request and the text of the response.
pub type ReplyModel = (RequestModel, Seq<char>);

/// A result with the reply in it taken by its model.
pub open spec fn outcome<E>(r: Result<Reply, E>) -> Result<ReplyModel, E> {
    match r {
        Ok(reply) => Ok((reply.request@, reply.response@)),
        Err(e) => Err(e),
    }
}

/// What a received text leads to: the parsed request with the fixed
/// response, or the error of the parser.
pub open spec fn answer_spec(text: Seq<char>) -> Result<ReplyModel, ParseError> {
    match parse_spec(text) {
        Ok(request) => Ok((request, response_text())),
        Err(e) => Err(e),
    }
}

/// Answers the decoded text of a connection: a request that parses gets the
/// fixed response, anything else gets none.
pub fn answer(text: &str) -> (r: Result<Reply, ParseError>)
    ensures
        outcome(r) == answer_spec(text@),
        r matches Ok(reply) ==> reply.request@.well_formed(),
{
    match HttpRequest::parse(text) {
        Ok(request) => Ok(Reply { request, response: response() }),
        Err(e) => Err(e),
    }
}

/// What a read that brought bytes leads to, given the text that the bytes
/// decode to: no answer where no byte came, and else what the text leads to.
pub open spec fn received_spec(bytes: Seq<u8>, text: Seq<char>) -> Result<
    ReplyModel,
    HandlingError,
> {
    if bytes.len() == 0 {
        Err(HandlingError::Closed)
    } else {
        match answer_spec(text) {
            Ok(reply) => Ok(reply),
            Err(e) => Err(HandlingError::Parse(e)),
        }
    }
}

/// The bytes that the one read takes of `bytes`: no more than its capacity.
pub open spec fn first_read(bytes: Seq<u8>) -> Seq<u8> {
    if bytes.len() > READ_CAPACITY {
        bytes.take(READ_CAPACITY as int)
    } else {
        bytes
    }
}

/// What the outcome of the one read leads to. `received` is `None` where the
/// read failed, and else the bytes that it brought, which are decoded with
/// U+FFFD in the place of what is no valid encoding.
pub open spec fn handle_spec(received: Option<Seq<u8>>) -> Result<ReplyModel, HandlingError> {
    match received {
        None => Err(HandlingError::Transport),
        Some(bytes) => received_spec(first_read(bytes), utf8_lossy(first_read(bytes))),
    }
}

/// The bytes of `received`, if there are any.
pub open spec fn bytes_of(received: Option<&[u8]>) -> Option<Seq<u8>> {
    match received {
        None => None,
        Some(bytes) => Some(bytes@),
    }
}

/// Decides what one connection gets after its one read. `received` is
/// `None` where the read failed, and else the bytes that it brought, of
/// which no more than `READ_CAPACITY` are looked at. A failed read, an empty
/// read and a text that does not parse get no answer; the parser is not
/// asked about an empty read.
pub fn handle(received: Option<&[u8]>) -> (r: Result<Reply, HandlingError>)
    ensures
        outcome(r) == handle_spec(bytes_of(received)),
        received matches Some(bytes) ==> (valid_utf8(first_read(bytes@)) ==> outcome(r)
            == received_spec(first_read(bytes@), decode_utf8(first_read(bytes@)))),
        r matches Ok(reply) ==> reply.request@.well_formed(),
{
    match received {
        None => Err(HandlingError::Transport),
        Some(all) => {
            let bytes = if all.len() > READ_CAPACITY {
                slice_subrange(all, 0, READ_CAPACITY)
            } else {
                all
            };
            if bytes.len() == 0 {
                return Err(HandlingError::Closed);
            }
            let text = decode_lossy(bytes);
            match answer(text.as_str()) {
                Ok(reply) => Ok(reply),
                Err(e) => Err(HandlingError::Parse(e)),
            }
        },
    }
}

} // verus!
