//! The server's end of a connection.
use crate::buffer::{advance, as_slice, contents, most_contents};
use crate::error::{outcome, ErrorModel, ParseError, StompError};
use crate::frame::{parse_frame, Frame};
use crate::from_server::server_frame;
use crate::grammar::{frame_bytes, parse, Parsed};
use crate::message::{
    message_of, FromServer, FromServerModel, Message, MessageModel, ToServer, ToServerModel,
};
use crate::to_server::client_message;
use bytes::BytesMut;
use vstd::prelude::*;
use vstd::string::StringExecFns;

verus! {

/// Reads messages from a client, and writes messages to it.
pub struct ServerCodec;

impl ServerCodec {
    /// Takes the first message from the front of `src`. There is none as long as its frame is
    /// incomplete. A frame that is no message is taken too; bytes that are no frame stay.
    pub fn decode(&mut self, src: &mut BytesMut) -> (r: Result<
        Option<Message<ToServer>>,
        StompError,
    >)
        ensures
            match parse(contents(*old(src))) {
                Parsed::Complete { frame, used } => contents(*final(src)) == contents(
                    *old(src),
                ).skip(used) && match client_message(frame) {
                    Ok(message) => r matches Ok(Some(m)) && m@ == message,
                    Err(error) => r matches Err(e) && e@ == error,
                },
                Parsed::Incomplete => r matches Ok(None) && contents(*final(src)) == contents(
                    *old(src),
                ),
                Parsed::Invalid { offset, expected } => r matches Err(e) && e@ == (
                ErrorModel::Malformed { offset, expected }) && contents(*final(src)) == contents(
                    *old(src),
                ),
            },
    {
        let input = as_slice(src);
        let (item, offset): (Result<Message<ToServer>, StompError>, usize) = match parse_frame(
            input,
        ) {
            Ok((remain, frame)) => {
                let item = Message::<ToServer>::try_from(&frame);
                (item, input.len() - remain.len())
            },
            Err(ParseError::Incomplete) => return Ok(None),
            Err(ParseError::Invalid { offset, expected }) => {
                return Err(StompError::Malformed { offset, expected });
            },
        };
        advance(src, offset);
        match item {
            Ok(message) => Ok(Some(message)),
            Err(e) => Err(e),
        }
    }

    /// Adds the frame of `item` to the end of `dst`.
    pub fn encode(&mut self, item: Message<FromServer>, dst: &mut BytesMut) -> (r: Result<
        (),
        StompError,
    >)
        requires
            contents(*old(dst)).len() + frame_bytes(server_frame(item@)).len() <= most_contents(),
        ensures
            r is Ok,
            contents(*final(dst)) == contents(*old(dst)) + frame_bytes(server_frame(item@)),
    {
        let frame = Frame::from(&item);
        frame.serialize(dst);
        Ok(())
    }
}

/// The message that accepts a connection.
pub open spec fn connected_reply() -> MessageModel<FromServerModel> {
    MessageModel {
        content: FromServerModel::Connected {
            version: "1.2"@,
            session: None,
            server: Some("tokio-stomp/0.4.0"@),
            heartbeat: None,
        },
        extra_headers: seq![],
    }
}

/// The answer to the first message from a client, if one came at all: the connection is accepted
/// if that message opens one.
pub open spec fn server_answer(msg: Option<MessageModel<ToServerModel>>) -> Result<
    MessageModel<FromServerModel>,
    ErrorModel,
> {
    if msg matches Some(m) && m.content is Connect {
        Ok(connected_reply())
    } else {
        Err(ErrorModel::UnexpectedReply)
    }
}

/// The answer to the first message from a client, if one came at all.
pub fn server_handshake(msg: &Option<Message<ToServer>>) -> (r: Result<
    Message<FromServer>,
    StompError,
>)
    ensures
        outcome(r) == server_answer(message_of(*msg)),
{
    match msg {
        Some(m) => match &m.content {
            ToServer::Connect { .. } => {
                let reply = Message {
                    content: FromServer::Connected {
                        version: "1.2".to_owned(),
                        session: None,
                        server: Some("tokio-stomp/0.4.0".to_owned()),
                        heartbeat: None,
                    },
                    extra_headers: Vec::new(),
                };
                assert(reply@.extra_headers =~= seq![]);
                Ok(reply)
            },
            _ => Err(StompError::UnexpectedReply),
        },
        None => Err(StompError::UnexpectedReply),
    }
}

/// The message to a client that did not open a connection.
pub open spec fn refusal() -> MessageModel<FromServerModel> {
    MessageModel {
        content: FromServerModel::Error { message: None, content_type: None, body: None },
        extra_headers: seq![],
    }
}

/// The message to a client that did not open a connection.
pub fn handshake_refusal() -> (m: Message<FromServer>)
    ensures
        m@ == refusal(),
{
    let m = Message {
        content: FromServer::Error { message: None, content_type: None, body: None },
        extra_headers: Vec::new(),
    };
    assert(m@.extra_headers =~= seq![]);
    m
}

/// How a client's connection starts, as the server sees it.
#[derive(Debug)]
pub enum FirstEvent {
    /// The first message came, or the client closed the connection before it sent one.
    Received(Option<Message<ToServer>>),
    /// The first message could not be read, or the answer to it could not be sent.
    Failed,
}

/// The value of a [`FirstEvent`].
pub enum FirstEventModel {
    Received(Option<MessageModel<ToServerModel>>),
    Failed,
}

impl View for FirstEvent {
    type V = FirstEventModel;

    open spec fn view(&self) -> FirstEventModel {
        match *self {
            FirstEvent::Received(msg) => FirstEventModel::Received(message_of(msg)),
            FirstEvent::Failed => FirstEventModel::Failed,
        }
    }
}

/// What the server sends first, and whether it then closes the connection: a message that opens a
/// connection is accepted, and everything else refused.
pub open spec fn first_reply(event: FirstEventModel) -> (MessageModel<FromServerModel>, bool) {
    if event matches FirstEventModel::Received(Some(m)) && m.content is Connect {
        (connected_reply(), false)
    } else {
        (refusal(), true)
    }
}

/// What the server sends first, and whether it then closes the connection.
pub fn answer_first(event: &FirstEvent) -> (r: (Message<FromServer>, bool))
    ensures
        (r.0@, r.1) == first_reply(event@),
{
    match event {
        FirstEvent::Received(msg) => match server_handshake(msg) {
            Ok(reply) => (reply, false),
            Err(_) => (handshake_refusal(), true),
        },
        FirstEvent::Failed => (handshake_refusal(), true),
    }
}

/// The message that tells the time `now` in its destination.
pub open spec fn clock(now: Seq<char>) -> MessageModel<FromServerModel> {
    MessageModel {
        content: FromServerModel::Message {
            destination: "now: "@ + now,
            message_id: "0.4.0"@,
            subscription: "11"@,
            content_type: Some("application/json"@),
            body: None,
        },
        extra_headers: seq![("server"@, "tokio-stomp/0.4.0"@)],
    }
}

/// The message that a server sends again and again, with the time `now` in its destination.
pub fn clock_message(now: &str) -> (m: Message<FromServer>)
    ensures
        m@ == clock(now@),
{
    let m = Message {
        content: FromServer::Message {
            destination: "now: ".to_owned().concat(now),
            message_id: "0.4.0".to_owned(),
            subscription: "11".to_owned(),
            content_type: Some("application/json".to_owned()),
            body: None,
        },
        extra_headers: vec![("server".to_owned(), "tokio-stomp/0.4.0".to_owned())],
    };
    assert(m@.extra_headers =~= seq![("server"@, "tokio-stomp/0.4.0"@)]);
    m
}

} // verus!
