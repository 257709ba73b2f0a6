//! The client's end of a connection.
use crate::buffer::{advance, as_slice, contents, most_contents};
use crate::error::{ErrorModel, ParseError, StompError};
use crate::frame::{parse_frame, Frame};
use crate::from_server::server_message;
use crate::grammar::{frame_bytes, parse, Parsed};
use crate::message::{
    message_of, text_of, FromServer, FromServerModel, Message, MessageModel, ToServer,
    ToServerModel,
};
use crate::to_server::client_frame;
use bytes::BytesMut;
use vstd::prelude::*;

verus! {

/// Reads messages from a server, and writes messages to it.
pub struct ClientCodec;

impl ClientCodec {
    /// Takes the first message from the front of `src`. There is none as long as its frame is
    /// incomplete. A frame that is no message is taken too; bytes that are no frame stay.
    pub fn decode(&mut self, src: &mut BytesMut) -> (r: Result<
        Option<Message<FromServer>>,
        StompError,
    >)
        ensures
            match parse(contents(*old(src))) {
                Parsed::Complete { frame, used } => contents(*final(src)) == contents(
                    *old(src),
                ).skip(used) && match server_message(frame) {
                    Ok(message) => r matches Ok(Some(m)) && m@ == message,
                    Err(error) => r matches Err(e) && e@ == error,
                },
                Parsed::Incomplete => r matches Ok(None) && contents(*final(src)) == contents(
                    *old(src),
                ),
                Parsed::Invalid { offset, expected } => r matches Err(e) && e@ == (
                ErrorModel::Malformed { offset, expected }) && contents(*final(src)) == contents(
                    *old(src),
                ),
            },
    {
        let input = as_slice(src);
        let (item, offset): (Result<Message<FromServer>, StompError>, usize) = match parse_frame(
            input,
        ) {
            Ok((remain, frame)) => {
                let item = Message::<FromServer>::try_from(&frame);
                (item, input.len() - remain.len())
            },
            Err(ParseError::Incomplete) => return Ok(None),
            Err(ParseError::Invalid { offset, expected }) => {
                return Err(StompError::Malformed { offset, expected });
            },
        };
        advance(src, offset);
        match item {
            Ok(message) => Ok(Some(message)),
            Err(e) => Err(e),
        }
    }

    /// Adds the frame of `item` to the end of `dst`.
    pub fn encode(&mut self, item: Message<ToServer>, dst: &mut BytesMut) -> (r: Result<
        (),
        StompError,
    >)
        requires
            contents(*old(dst)).len() + frame_bytes(client_frame(item@)).len() <= most_contents(),
        ensures
            r is Ok,
            contents(*final(dst)) == contents(*old(dst)) + frame_bytes(client_frame(item@)),
    {
        let frame = Frame::from(&item);
        frame.serialize(dst);
        Ok(())
    }
}

/// The message that opens a connection to the virtual host `host`.
pub open spec fn connect_request(
    host: Seq<char>,
    login: Option<Seq<char>>,
    passcode: Option<Seq<char>>,
) -> MessageModel<ToServerModel> {
    MessageModel {
        content: ToServerModel::Connect {
            accept_version: "1.2"@,
            host,
            login,
            passcode,
            heartbeat: None,
        },
        extra_headers: seq![],
    }
}

/// The message that opens a connection.
pub fn connect_message(host: String, login: Option<String>, passcode: Option<String>) -> (m:
    Message<ToServer>)
    ensures
        m@ == connect_request(host@, text_of(login), text_of(passcode)),
{
    let m = Message {
        content: ToServer::Connect {
            accept_version: "1.2".to_owned(),
            host,
            login,
            passcode,
            heartbeat: None,
        },
        extra_headers: Vec::new(),
    };
    assert(m@.extra_headers =~= seq![]);
    m
}

/// The first message from the server, if one came at all, accepts the connection.
pub open spec fn is_accepted(reply: Option<MessageModel<FromServerModel>>) -> bool {
    reply matches Some(m) && m.content is Connected
}

/// Whether the first message from the server, if one came at all, accepts the connection.
pub fn client_handshake(reply: &Option<Message<FromServer>>) -> (r: Result<(), StompError>)
    ensures
        match r {
            Ok(_) => is_accepted(message_of(*reply)),
            Err(e) => !is_accepted(message_of(*reply)) && e@ == ErrorModel::UnexpectedReply,
        },
{
    match reply {
        Some(m) => match &m.content {
            FromServer::Connected { .. } => Ok(()),
            _ => Err(StompError::UnexpectedReply),
        },
        None => Err(StompError::UnexpectedReply),
    }
}

/// The message that asks for the messages of a destination.
pub fn subscribe(dest: String, id: String) -> (m: Message<ToServer>)
    ensures
        m@ == (MessageModel {
            content: ToServerModel::Subscribe { destination: dest@, id: id@, ack: None },
            extra_headers: seq![],
        }),
{
    let m = Message {
        content: ToServer::Subscribe { destination: dest, id, ack: None },
        extra_headers: Vec::new(),
    };
    assert(m@.extra_headers =~= seq![]);
    m
}

} // verus!
