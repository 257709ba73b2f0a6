//! Messages to a server as frames, and frames as messages to a server.
use crate::error::{outcome, ErrorModel, StompError};
use crate::fields::{
    body_slice, fetch_body, fetch_heartbeat, format_heartbeat_header, frame_of, heartbeat_header,
    heartbeat_in, required,
};
use crate::frame::{expect_header, extra_headers, fetch_header, headers_beyond, Frame};
use crate::grammar::{header_value, FrameModel, HeaderModel};
use crate::message::{text_of, AckMode, Message, MessageModel, ToServer, ToServerModel};
use crate::scan::same_text;
use vstd::prelude::*;
use vstd::std_specs::convert::{FromSpecImpl, TryFromSpecImpl};

verus! {

/// The value of an `ack` header.
pub open spec fn ack_text(ack: AckMode) -> Seq<char> {
    match ack {
        AckMode::Auto => "auto"@,
        AckMode::Client => "client"@,
        AckMode::ClientIndividual => "client-individual"@,
    }
}

/// The acknowledgement mode of a frame with these headers.
pub open spec fn ack_in(headers: Seq<HeaderModel>) -> Result<Option<AckMode>, ErrorModel> {
    match header_value(headers, "ack"@) {
        Some(text) => if text == "auto"@ {
            Ok(Some(AckMode::Auto))
        } else if text == "client"@ {
            Ok(Some(AckMode::Client))
        } else if text == "client-individual"@ {
            Ok(Some(AckMode::ClientIndividual))
        } else {
            Err(ErrorModel::InvalidAckMode(text))
        },
        None => Ok(None),
    }
}

/// Reads the `ack` header, if there is one.
fn fetch_ack(headers: &Vec<(String, String)>) -> (r: Result<Option<AckMode>, StompError>)
    ensures
        match r {
            Ok(ack) => ack_in(headers.deep_view()) == Ok::<Option<AckMode>, ErrorModel>(ack),
            Err(e) => ack_in(headers.deep_view()) == Err::<Option<AckMode>, ErrorModel>(e@),
        },
{
    match fetch_header(headers, "ack") {
        Some(text) => if same_text(text.as_str(), "auto") {
            Ok(Some(AckMode::Auto))
        } else if same_text(text.as_str(), "client") {
            Ok(Some(AckMode::Client))
        } else if same_text(text.as_str(), "client-individual") {
            Ok(Some(AckMode::ClientIndividual))
        } else {
            Err(StompError::InvalidAckMode(text))
        },
        None => Ok(None),
    }
}

/// The commands of clients.
#[derive(Clone, Copy, PartialEq, Eq, Structural)]
pub enum ClientCommand {
    Connect,
    Disconnect,
    Send,
    Subscribe,
    Unsubscribe,
    Ack,
    Nack,
    Begin,
    Commit,
    Abort,
}

/// The command that a text names, in upper case or in lower case.
pub open spec fn client_command(text: Seq<char>) -> Option<ClientCommand> {
    if text == "STOMP"@ || text == "CONNECT"@ || text == "stomp"@ || text == "connect"@ {
        Some(ClientCommand::Connect)
    } else if text == "DISCONNECT"@ || text == "disconnect"@ {
        Some(ClientCommand::Disconnect)
    } else if text == "SEND"@ || text == "send"@ {
        Some(ClientCommand::Send)
    } else if text == "SUBSCRIBE"@ || text == "subscribe"@ {
        Some(ClientCommand::Subscribe)
    } else if text == "UNSUBSCRIBE"@ || text == "unsubscribe"@ {
        Some(ClientCommand::Unsubscribe)
    } else if text == "ACK"@ || text == "ack"@ {
        Some(ClientCommand::Ack)
    } else if text == "NACK"@ || text == "nack"@ {
        Some(ClientCommand::Nack)
    } else if text == "BEGIN"@ || text == "begin"@ {
        Some(ClientCommand::Begin)
    } else if text == "COMMIT"@ || text == "commit"@ {
        Some(ClientCommand::Commit)
    } else if text == "ABORT"@ || text == "abort"@ {
        Some(ClientCommand::Abort)
    } else {
        None
    }
}

fn read_client_command(text: &str) -> (command: Option<ClientCommand>)
    ensures
        command == client_command(text@),
{
    if same_text(text, "STOMP") || same_text(text, "CONNECT") || same_text(text, "stomp")
        || same_text(text, "connect") {
        Some(ClientCommand::Connect)
    } else if same_text(text, "DISCONNECT") || same_text(text, "disconnect") {
        Some(ClientCommand::Disconnect)
    } else if same_text(text, "SEND") || same_text(text, "send") {
        Some(ClientCommand::Send)
    } else if same_text(text, "SUBSCRIBE") || same_text(text, "subscribe") {
        Some(ClientCommand::Subscribe)
    } else if same_text(text, "UNSUBSCRIBE") || same_text(text, "unsubscribe") {
        Some(ClientCommand::Unsubscribe)
    } else if same_text(text, "ACK") || same_text(text, "ack") {
        Some(ClientCommand::Ack)
    } else if same_text(text, "NACK") || same_text(text, "nack") {
        Some(ClientCommand::Nack)
    } else if same_text(text, "BEGIN") || same_text(text, "begin") {
        Some(ClientCommand::Begin)
    } else if same_text(text, "COMMIT") || same_text(text, "commit") {
        Some(ClientCommand::Commit)
    } else if same_text(text, "ABORT") || same_text(text, "abort") {
        Some(ClientCommand::Abort)
    } else {
        None
    }
}

/// The keys of the headers that the content of a message with this command accounts for.
pub open spec fn client_keys(command: ClientCommand) -> Seq<Seq<char>> {
    match command {
        ClientCommand::Connect => seq![
            "accept-version"@,
            "host"@,
            "login"@,
            "passcode"@,
            "heart-beat"@,
        ],
        ClientCommand::Disconnect => seq!["receipt"@],
        ClientCommand::Send => seq![
            "destination"@,
            "transaction"@,
            "content-length"@,
            "content-type"@,
        ],
        ClientCommand::Subscribe => seq!["destination"@, "id"@, "ack"@],
        ClientCommand::Unsubscribe => seq!["id"@],
        ClientCommand::Ack => seq!["id"@, "transaction"@],
        ClientCommand::Nack => seq!["id"@, "transaction"@],
        ClientCommand::Begin => seq!["transaction"@],
        ClientCommand::Commit => seq!["transaction"@],
        ClientCommand::Abort => seq!["transaction"@],
    }
}

/// The headers beyond those that the content of a message with this command accounts for.
fn client_extra_headers(command: ClientCommand, headers: &Vec<(String, String)>) -> (r: Vec<
    (String, String),
>)
    ensures
        r.deep_view() == headers_beyond(headers.deep_view(), client_keys(command)),
{
    let keys: Vec<&str> = match command {
        ClientCommand::Connect => vec![
            "accept-version",
            "host",
            "login",
            "passcode",
            "heart-beat",
        ],
        ClientCommand::Disconnect => vec!["receipt"],
        ClientCommand::Send => vec![
            "destination",
            "transaction",
            "content-length",
            "content-type",
        ],
        ClientCommand::Subscribe => vec!["destination", "id", "ack"],
        ClientCommand::Unsubscribe => vec!["id"],
        ClientCommand::Ack => vec!["id", "transaction"],
        ClientCommand::Nack => vec!["id", "transaction"],
        ClientCommand::Begin => vec!["transaction"],
        ClientCommand::Commit => vec!["transaction"],
        ClientCommand::Abort => vec!["transaction"],
    };
    let expect_keys = keys.as_slice();
    assert(expect_keys.deep_view() =~= client_keys(command));
    extra_headers(headers, expect_keys)
}

/// What a frame with this command says.
pub open spec fn client_content(command: ClientCommand, frame: FrameModel) -> Result<
    ToServerModel,
    ErrorModel,
> {
    let h = frame.headers;
    match command {
        ClientCommand::Connect => match heartbeat_in(h) {
            Err(e) => Err(e),
            Ok(heartbeat) => match (required(h, "accept-version"@), required(h, "host"@)) {
                (Ok(accept_version), Ok(host)) => Ok(
                    ToServerModel::Connect {
                        accept_version,
                        host,
                        login: header_value(h, "login"@),
                        passcode: header_value(h, "passcode"@),
                        heartbeat,
                    },
                ),
                (Err(e), _) => Err(e),
                (_, Err(e)) => Err(e),
            },
        },
        ClientCommand::Disconnect => Ok(
            ToServerModel::Disconnect { receipt: header_value(h, "receipt"@) },
        ),
        ClientCommand::Send => match required(h, "destination"@) {
            Ok(destination) => Ok(
                ToServerModel::Send {
                    destination,
                    transaction: header_value(h, "transaction"@),
                    content_type: header_value(h, "content-type"@),
                    body: frame.body,
                },
            ),
            Err(e) => Err(e),
        },
        ClientCommand::Subscribe => match (required(h, "destination"@), required(h, "id"@), ack_in(
            h,
        )) {
            (Ok(destination), Ok(id), Ok(ack)) => Ok(
                ToServerModel::Subscribe { destination, id, ack },
            ),
            (Err(e), _, _) => Err(e),
            (_, Err(e), _) => Err(e),
            (_, _, Err(e)) => Err(e),
        },
        ClientCommand::Unsubscribe => match required(h, "id"@) {
            Ok(id) => Ok(ToServerModel::Unsubscribe { id }),
            Err(e) => Err(e),
        },
        ClientCommand::Ack => match required(h, "id"@) {
            Ok(id) => Ok(
                ToServerModel::Ack { id, transaction: header_value(h, "transaction"@) },
            ),
            Err(e) => Err(e),
        },
        ClientCommand::Nack => match required(h, "id"@) {
            Ok(id) => Ok(
                ToServerModel::Nack { id, transaction: header_value(h, "transaction"@) },
            ),
            Err(e) => Err(e),
        },
        ClientCommand::Begin => match required(h, "transaction"@) {
            Ok(transaction) => Ok(ToServerModel::Begin { transaction }),
            Err(e) => Err(e),
        },
        ClientCommand::Commit => match required(h, "transaction"@) {
            Ok(transaction) => Ok(ToServerModel::Commit { transaction }),
            Err(e) => Err(e),
        },
        ClientCommand::Abort => match required(h, "transaction"@) {
            Ok(transaction) => Ok(ToServerModel::Abort { transaction }),
            Err(e) => Err(e),
        },
    }
}

fn read_client_content(command: ClientCommand, frame: &Frame) -> (r: Result<ToServer, StompError>)
    ensures
        outcome(r) == client_content(command, frame@),
{
    let h = &frame.headers;
    let content = match command {
        ClientCommand::Connect => {
            let heartbeat = fetch_heartbeat(h)?;
            ToServer::Connect {
                accept_version: expect_header(h, "accept-version")?,
                host: expect_header(h, "host")?,
                login: fetch_header(h, "login"),
                passcode: fetch_header(h, "passcode"),
                heartbeat,
            }
        },
        ClientCommand::Disconnect => ToServer::Disconnect { receipt: fetch_header(h, "receipt") },
        ClientCommand::Send => ToServer::Send {
            destination: expect_header(h, "destination")?,
            transaction: fetch_header(h, "transaction"),
            content_type: fetch_header(h, "content-type"),
            body: fetch_body(frame.body),
        },
        ClientCommand::Subscribe => ToServer::Subscribe {
            destination: expect_header(h, "destination")?,
            id: expect_header(h, "id")?,
            ack: fetch_ack(h)?,
        },
        ClientCommand::Unsubscribe => ToServer::Unsubscribe { id: expect_header(h, "id")? },
        ClientCommand::Ack => ToServer::Ack {
            id: expect_header(h, "id")?,
            transaction: fetch_header(h, "transaction"),
        },
        ClientCommand::Nack => ToServer::Nack {
            id: expect_header(h, "id")?,
            transaction: fetch_header(h, "transaction"),
        },
        ClientCommand::Begin => ToServer::Begin { transaction: expect_header(h, "transaction")? },
        ClientCommand::Commit => ToServer::Commit { transaction: expect_header(h, "transaction")? },
        ClientCommand::Abort => ToServer::Abort { transaction: expect_header(h, "transaction")? },
    };
    Ok(content)
}

/// The message that a frame is, to a server.
pub open spec fn client_message(frame: FrameModel) -> Result<
    MessageModel<ToServerModel>,
    ErrorModel,
> {
    match client_command(frame.command) {
        Some(command) => match client_content(command, frame) {
            Ok(content) => Ok(
                MessageModel {
                    content,
                    extra_headers: headers_beyond(frame.headers, client_keys(command)),
                },
            ),
            Err(e) => Err(e),
        },
        None => Err(ErrorModel::UnrecognizedFrame(frame.command)),
    }
}

impl<'a> TryFromSpecImpl<&'a Frame<'a>> for Message<ToServer> {
    open spec fn obeys_try_from_spec() -> bool {
        false
    }

    open spec fn try_from_spec(frame: &'a Frame<'a>) -> Result<Self, StompError> {
        arbitrary()
    }
}

impl<'a> TryFrom<&'a Frame<'a>> for Message<ToServer> {
    type Error = StompError;

    /// Reads a frame as a message to a server.
    fn try_from(frame: &'a Frame<'a>) -> (r: Result<Self, StompError>)
        ensures
            outcome(r) == client_message(frame@),
    {
        let text = frame.command_text();
        match read_client_command(text) {
            Some(command) => {
                let content = read_client_content(command, frame)?;
                let extra_headers = client_extra_headers(command, &frame.headers);
                Ok(Message { content, extra_headers })
            },
            None => Err(StompError::UnrecognizedFrame(text.to_owned())),
        }
    }
}

/// The text of an acknowledgement mode that may be absent.
pub open spec fn ack_header(ack: Option<AckMode>) -> Option<Seq<char>> {
    match ack {
        Some(mode) => Some(ack_text(mode)),
        None => None,
    }
}

/// Writes an `ack` header that may be absent.
fn format_ack_header(ack: Option<AckMode>) -> (r: Option<String>)
    ensures
        text_of(r) == ack_header(ack),
{
    match ack {
        Some(AckMode::Auto) => Some("auto".to_owned()),
        Some(AckMode::Client) => Some("client".to_owned()),
        Some(AckMode::ClientIndividual) => Some("client-individual".to_owned()),
        None => None,
    }
}

/// The frame of a message to a server.
pub open spec fn client_frame(message: MessageModel<ToServerModel>) -> FrameModel {
    let extra = message.extra_headers;
    match message.content {
        ToServerModel::Connect { accept_version, host, login, passcode, heartbeat } => frame_of(
            "CONNECT"@,
            seq![
                ("accept-version"@, Some(accept_version)),
                ("host"@, Some(host)),
                ("login"@, login),
                ("heart-beat"@, heartbeat_header(heartbeat)),
                ("passcode"@, passcode),
            ],
            None,
            extra,
        ),
        ToServerModel::Disconnect { receipt } => frame_of(
            "DISCONNECT"@,
            seq![("receipt"@, receipt)],
            None,
            extra,
        ),
        ToServerModel::Subscribe { destination, id, ack } => frame_of(
            "SUBSCRIBE"@,
            seq![
                ("destination"@, Some(destination)),
                ("id"@, Some(id)),
                ("ack"@, ack_header(ack)),
            ],
            None,
            extra,
        ),
        ToServerModel::Unsubscribe { id } => frame_of(
            "UNSUBSCRIBE"@,
            seq![("id"@, Some(id))],
            None,
            extra,
        ),
        ToServerModel::Send { destination, transaction, content_type, body } => frame_of(
            "SEND"@,
            seq![
                ("destination"@, Some(destination)),
                ("transaction"@, transaction),
                ("content-type"@, content_type),
            ],
            body,
            extra,
        ),
        ToServerModel::Ack { id, transaction } => frame_of(
            "ACK"@,
            seq![("id"@, Some(id)), ("transaction"@, transaction)],
            None,
            extra,
        ),
        ToServerModel::Nack { id, transaction } => frame_of(
            "NACK"@,
            seq![("id"@, Some(id)), ("transaction"@, transaction)],
            None,
            extra,
        ),
        ToServerModel::Begin { transaction } => frame_of(
            "BEGIN"@,
            seq![("transaction"@, Some(transaction))],
            None,
            extra,
        ),
        ToServerModel::Commit { transaction } => frame_of(
            "COMMIT"@,
            seq![("transaction"@, Some(transaction))],
            None,
            extra,
        ),
        ToServerModel::Abort { transaction } => frame_of(
            "ABORT"@,
            seq![("transaction"@, Some(transaction))],
            None,
            extra,
        ),
    }
}

impl<'a> FromSpecImpl<&'a Message<ToServer>> for Frame<'a> {
    open spec fn obeys_from_spec() -> bool {
        false
    }

    open spec fn from_spec(message: &'a Message<ToServer>) -> Self {
        arbitrary()
    }
}

impl<'a> From<&'a Message<ToServer>> for Frame<'a> {
    /// The frame of a message to a server.
    fn from(message: &'a Message<ToServer>) -> (frame: Frame<'a>)
        ensures
            frame@ == client_frame(message@),
    {
        let extra = &message.extra_headers;
        match &message.content {
            ToServer::Connect { accept_version, host, login, passcode, heartbeat } => {
                let heartbeat = format_heartbeat_header(*heartbeat);
                let headers = vec![
                    ("accept-version", Some(accept_version)),
                    ("host", Some(host)),
                    ("login", login.as_ref()),
                    ("heart-beat", heartbeat.as_ref()),
                    ("passcode", passcode.as_ref()),
                ];
                assert(headers.deep_view() =~= seq![
                    ("accept-version"@, Some(accept_version@)),
                    ("host"@, Some(host@)),
                    ("login"@, text_of(*login)),
                    ("heart-beat"@, text_of(heartbeat)),
                    ("passcode"@, text_of(*passcode)),
                ]);
                Frame::new("CONNECT", headers, None, extra)
            },
            ToServer::Disconnect { receipt } => {
                let headers = vec![("receipt", receipt.as_ref())];
                assert(headers.deep_view() =~= seq![("receipt"@, text_of(*receipt))]);
                Frame::new("DISCONNECT", headers, None, extra)
            },
            ToServer::Subscribe { destination, id, ack } => {
                let ack = format_ack_header(*ack);
                let headers = vec![
                    ("destination", Some(destination)),
                    ("id", Some(id)),
                    ("ack", ack.as_ref()),
                ];
                assert(headers.deep_view() =~= seq![
                    ("destination"@, Some(destination@)),
                    ("id"@, Some(id@)),
                    ("ack"@, text_of(ack)),
                ]);
                Frame::new("SUBSCRIBE", headers, None, extra)
            },
            ToServer::Unsubscribe { id } => {
                let headers = vec![("id", Some(id))];
                assert(headers.deep_view() =~= seq![("id"@, Some(id@))]);
                Frame::new("UNSUBSCRIBE", headers, None, extra)
            },
            ToServer::Send { destination, transaction, content_type, body } => {
                let headers = vec![
                    ("destination", Some(destination)),
                    ("transaction", transaction.as_ref()),
                    ("content-type", content_type.as_ref()),
                ];
                assert(headers.deep_view() =~= seq![
                    ("destination"@, Some(destination@)),
                    ("transaction"@, text_of(*transaction)),
                    ("content-type"@, text_of(*content_type)),
                ]);
                Frame::new("SEND", headers, body_slice(body), extra)
            },
            ToServer::Ack { id, transaction } => {
                let headers = vec![("id", Some(id)), ("transaction", transaction.as_ref())];
                assert(headers.deep_view() =~= seq![
                    ("id"@, Some(id@)),
                    ("transaction"@, text_of(*transaction)),
                ]);
                Frame::new("ACK", headers, None, extra)
            },
            ToServer::Nack { id, transaction } => {
                let headers = vec![("id", Some(id)), ("transaction", transaction.as_ref())];
                assert(headers.deep_view() =~= seq![
                    ("id"@, Some(id@)),
                    ("transaction"@, text_of(*transaction)),
                ]);
                Frame::new("NACK", headers, None, extra)
            },
            ToServer::Begin { transaction } => {
                let headers = vec![("transaction", Some(transaction))];
                assert(headers.deep_view() =~= seq![("transaction"@, Some(transaction@))]);
                Frame::new("BEGIN", headers, None, extra)
            },
            ToServer::Commit { transaction } => {
                let headers = vec![("transaction", Some(transaction))];
                assert(headers.deep_view() =~= seq![("transaction"@, Some(transaction@))]);
                Frame::new("COMMIT", headers, None, extra)
            },
            ToServer::Abort { transaction } => {
                let headers = vec![("transaction", Some(transaction))];
                assert(headers.deep_view() =~= seq![("transaction"@, Some(transaction@))]);
                Frame::new("ABORT", headers, None, extra)
            },
        }
    }
}

} // verus!
