//! Messages from a server as frames, and frames as messages from a server.
use crate::error::{outcome, ErrorModel, StompError};
use crate::fields::{
    body_slice, fetch_body, fetch_heartbeat, format_heartbeat_header, frame_of, heartbeat_header,
    heartbeat_in, required,
};
use crate::frame::{expect_header, extra_headers, fetch_header, headers_beyond, Frame};
use crate::grammar::{header_value, FrameModel};
use crate::message::{text_of, FromServer, FromServerModel, Message, MessageModel};
use crate::scan::same_text;
use vstd::prelude::*;
use vstd::std_specs::convert::{FromSpecImpl, TryFromSpecImpl};

verus! {

/// The commands of servers.
#[derive(Clone, Copy, PartialEq, Eq, Structural)]
pub enum ServerCommand {
    Connected,
    Message,
    Receipt,
    Error,
}

/// The command that a text names, in upper case or in lower case.
pub open spec fn server_command(text: Seq<char>) -> Option<ServerCommand> {
    if text == "CONNECTED"@ || text == "connected"@ {
        Some(ServerCommand::Connected)
    } else if text == "MESSAGE"@ || text == "message"@ {
        Some(ServerCommand::Message)
    } else if text == "RECEIPT"@ || text == "receipt"@ {
        Some(ServerCommand::Receipt)
    } else if text == "ERROR"@ || text == "error"@ {
        Some(ServerCommand::Error)
    } else {
        None
    }
}

fn read_server_command(text: &str) -> (command: Option<ServerCommand>)
    ensures
        command == server_command(text@),
{
    if same_text(text, "CONNECTED") || same_text(text, "connected") {
        Some(ServerCommand::Connected)
    } else if same_text(text, "MESSAGE") || same_text(text, "message") {
        Some(ServerCommand::Message)
    } else if same_text(text, "RECEIPT") || same_text(text, "receipt") {
        Some(ServerCommand::Receipt)
    } else if same_text(text, "ERROR") || same_text(text, "error") {
        Some(ServerCommand::Error)
    } else {
        None
    }
}

/// The keys of the headers that the content of a message with this command accounts for.
pub open spec fn server_keys(command: ServerCommand) -> Seq<Seq<char>> {
    match command {
        ServerCommand::Connected => seq!["version"@, "session"@, "server"@, "heart-beat"@],
        ServerCommand::Message => seq![
            "destination"@,
            "message-id"@,
            "subscription"@,
            "content-length"@,
            "content-type"@,
        ],
        ServerCommand::Receipt => seq!["receipt-id"@],
        ServerCommand::Error => seq!["message"@, "content-length"@, "content-type"@],
    }
}

/// The headers beyond those that the content of a message with this command accounts for.
fn server_extra_headers(command: ServerCommand, headers: &Vec<(String, String)>) -> (r: Vec<
    (String, String),
>)
    ensures
        r.deep_view() == headers_beyond(headers.deep_view(), server_keys(command)),
{
    let keys: Vec<&str> = match command {
        ServerCommand::Connected => vec!["version", "session", "server", "heart-beat"],
        ServerCommand::Message => vec![
            "destination",
            "message-id",
            "subscription",
            "content-length",
            "content-type",
        ],
        ServerCommand::Receipt => vec!["receipt-id"],
        ServerCommand::Error => vec!["message", "content-length", "content-type"],
    };
    let expect_keys = keys.as_slice();
    assert(expect_keys.deep_view() =~= server_keys(command));
    extra_headers(headers, expect_keys)
}

/// What a frame with this command says.
pub open spec fn server_content(command: ServerCommand, frame: FrameModel) -> Result<
    FromServerModel,
    ErrorModel,
> {
    let h = frame.headers;
    match command {
        ServerCommand::Connected => match (required(h, "version"@), heartbeat_in(h)) {
            (Ok(version), Ok(heartbeat)) => Ok(
                FromServerModel::Connected {
                    version,
                    session: header_value(h, "session"@),
                    server: header_value(h, "server"@),
                    heartbeat,
                },
            ),
            (Err(e), _) => Err(e),
            (_, Err(e)) => Err(e),
        },
        ServerCommand::Message => match (
            required(h, "destination"@),
            required(h, "message-id"@),
            required(h, "subscription"@),
        ) {
            (Ok(destination), Ok(message_id), Ok(subscription)) => Ok(
                FromServerModel::Message {
                    destination,
                    message_id,
                    subscription,
                    content_type: header_value(h, "content-type"@),
                    body: frame.body,
                },
            ),
            (Err(e), _, _) => Err(e),
            (_, Err(e), _) => Err(e),
            (_, _, Err(e)) => Err(e),
        },
        ServerCommand::Receipt => match required(h, "receipt-id"@) {
            Ok(receipt_id) => Ok(FromServerModel::Receipt { receipt_id }),
            Err(e) => Err(e),
        },
        ServerCommand::Error => Ok(
            FromServerModel::Error {
                message: header_value(h, "message"@),
                content_type: header_value(h, "content-type"@),
                body: frame.body,
            },
        ),
    }
}

fn read_server_content(command: ServerCommand, frame: &Frame) -> (r: Result<
    FromServer,
    StompError,
>)
    ensures
        outcome(r) == server_content(command, frame@),
{
    let h = &frame.headers;
    let content = match command {
        ServerCommand::Connected => FromServer::Connected {
            version: expect_header(h, "version")?,
            session: fetch_header(h, "session"),
            server: fetch_header(h, "server"),
            heartbeat: fetch_heartbeat(h)?,
        },
        ServerCommand::Message => FromServer::Message {
            destination: expect_header(h, "destination")?,
            message_id: expect_header(h, "message-id")?,
            subscription: expect_header(h, "subscription")?,
            content_type: fetch_header(h, "content-type"),
            body: fetch_body(frame.body),
        },
        ServerCommand::Receipt => FromServer::Receipt {
            receipt_id: expect_header(h, "receipt-id")?,
        },
        ServerCommand::Error => FromServer::Error {
            message: fetch_header(h, "message"),
            content_type: fetch_header(h, "content-type"),
            body: fetch_body(frame.body),
        },
    };
    Ok(content)
}

/// The message that a frame is, from a server.
pub open spec fn server_message(frame: FrameModel) -> Result<
    MessageModel<FromServerModel>,
    ErrorModel,
> {
    match server_command(frame.command) {
        Some(command) => match server_content(command, frame) {
            Ok(content) => Ok(
                MessageModel {
                    content,
                    extra_headers: headers_beyond(frame.headers, server_keys(command)),
                },
            ),
            Err(e) => Err(e),
        },
        None => Err(ErrorModel::UnrecognizedFrame(frame.command)),
    }
}

impl<'a> TryFromSpecImpl<&'a Frame<'a>> for Message<FromServer> {
    open spec fn obeys_try_from_spec() -> bool {
        false
    }

    open spec fn try_from_spec(frame: &'a Frame<'a>) -> Result<Self, StompError> {
        arbitrary()
    }
}

impl<'a> TryFrom<&'a Frame<'a>> for Message<FromServer> {
    type Error = StompError;

    /// Reads a frame as a message from a server.
    fn try_from(frame: &'a Frame<'a>) -> (r: Result<Self, StompError>)
        ensures
            outcome(r) == server_message(frame@),
    {
        let text = frame.command_text();
        match read_server_command(text) {
            Some(command) => {
                let content = read_server_content(command, frame)?;
                let extra_headers = server_extra_headers(command, &frame.headers);
                Ok(Message { content, extra_headers })
            },
            None => Err(StompError::UnrecognizedFrame(text.to_owned())),
        }
    }
}

/// The frame of a message from a server.
pub open spec fn server_frame(message: MessageModel<FromServerModel>) -> FrameModel {
    let extra = message.extra_headers;
    match message.content {
        FromServerModel::Connected { version, session, server, heartbeat } => frame_of(
            "CONNECTED"@,
            seq![
                ("version"@, Some(version)),
                ("heart-beat"@, heartbeat_header(heartbeat)),
                ("session"@, session),
                ("server"@, server),
            ],
            None,
            extra,
        ),
        FromServerModel::Message {
            destination,
            message_id,
            subscription,
            content_type,
            body,
        } => frame_of(
            "MESSAGE"@,
            seq![
                ("subscription"@, Some(subscription)),
                ("message-id"@, Some(message_id)),
                ("destination"@, Some(destination)),
                ("content-type"@, content_type),
            ],
            body,
            extra,
        ),
        FromServerModel::Receipt { receipt_id } => frame_of(
            "RECEIPT"@,
            seq![("receipt-id"@, Some(receipt_id))],
            None,
            extra,
        ),
        FromServerModel::Error { message, content_type, body } => frame_of(
            "ERROR"@,
            seq![("message"@, message), ("content-type"@, content_type)],
            body,
            extra,
        ),
    }
}

impl<'a> FromSpecImpl<&'a Message<FromServer>> for Frame<'a> {
    open spec fn obeys_from_spec() -> bool {
        false
    }

    open spec fn from_spec(message: &'a Message<FromServer>) -> Self {
        arbitrary()
    }
}

impl<'a> From<&'a Message<FromServer>> for Frame<'a> {
    /// The frame of a message from a server.
    fn from(message: &'a Message<FromServer>) -> (frame: Frame<'a>)
        ensures
            frame@ == server_frame(message@),
    {
        let extra = &message.extra_headers;
        match &message.content {
            FromServer::Connected { version, session, server, heartbeat } => {
                let heartbeat = format_heartbeat_header(*heartbeat);
                let headers = vec![
                    ("version", Some(version)),
                    ("heart-beat", heartbeat.as_ref()),
                    ("session", session.as_ref()),
                    ("server", server.as_ref()),
                ];
                assert(headers.deep_view() =~= seq![
                    ("version"@, Some(version@)),
                    ("heart-beat"@, text_of(heartbeat)),
                    ("session"@, text_of(*session)),
                    ("server"@, text_of(*server)),
                ]);
                Frame::new("CONNECTED", headers, None, extra)
            },
            FromServer::Message {
                destination,
                message_id,
                subscription,
                content_type,
                body,
            } => {
                let headers = vec![
                    ("subscription", Some(subscription)),
                    ("message-id", Some(message_id)),
                    ("destination", Some(destination)),
                    ("content-type", content_type.as_ref()),
                ];
                assert(headers.deep_view() =~= seq![
                    ("subscription"@, Some(subscription@)),
                    ("message-id"@, Some(message_id@)),
                    ("destination"@, Some(destination@)),
                    ("content-type"@, text_of(*content_type)),
                ]);
                Frame::new("MESSAGE", headers, body_slice(body), extra)
            },
            FromServer::Receipt { receipt_id } => {
                let headers = vec![("receipt-id", Some(receipt_id))];
                assert(headers.deep_view() =~= seq![("receipt-id"@, Some(receipt_id@))]);
                Frame::new("RECEIPT", headers, None, extra)
            },
            FromServer::Error { message, content_type, body } => {
                let headers = vec![
                    ("message", message.as_ref()),
                    ("content-type", content_type.as_ref()),
                ];
                assert(headers.deep_view() =~= seq![
                    ("message"@, text_of(*message)),
                    ("content-type"@, text_of(*content_type)),
                ]);
                Frame::new("ERROR", headers, body_slice(body), extra)
            },
        }
    }
}

} // verus!
