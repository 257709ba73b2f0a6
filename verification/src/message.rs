//! The messages that clients and servers exchange.
use crate::grammar::HeaderModel;
use vstd::prelude::*;

verus! {

/// How a client acknowledges the messages of a subscription.
#[derive(Debug, Clone, Copy, PartialEq, Eq, Structural)]
pub enum AckMode {
    Auto,
    Client,
    ClientIndividual,
}

/// A message: what it says, and the headers beyond those that its content accounts for.
#[derive(Debug)]
pub struct Message<T> {
    pub content: T,
    pub extra_headers: Vec<(String, String)>,
}

/// What a client says to a server.
#[derive(Debug)]
#[allow(inconsistent_fields)]
pub enum ToServer {
    /// Opens the connection.
    Connect {
        accept_version: String,
        host: String,
        login: Option<String>,
        passcode: Option<String>,
        heartbeat: Option<(u32, u32)>,
    },
    /// Sends a message to a destination.
    Send {
        destination: String,
        transaction: Option<String>,
        content_type: Option<String>,
        body: Option<Vec<u8>>,
    },
    /// Asks for the messages of a destination.
    Subscribe { destination: String, id: String, ack: Option<AckMode> },
    /// Ends a subscription.
    Unsubscribe { id: String },
    /// Acknowledges a message.
    Ack { id: String, transaction: Option<String> },
    /// Refuses a message.
    Nack { id: String, transaction: Option<String> },
    /// Starts a transaction.
    Begin { transaction: String },
    /// Completes a transaction.
    Commit { transaction: String },
    /// Gives up a transaction.
    Abort { transaction: String },
    /// Closes the connection.
    Disconnect { receipt: Option<String> },
}

/// What a server says to a client.
#[derive(Debug)]
pub enum FromServer {
    /// Accepts the connection.
    Connected {
        version: String,
        session: Option<String>,
        server: Option<String>,
        heartbeat: Option<(u32, u32)>,
    },
    /// Delivers a message of a subscription.
    Message {
        destination: String,
        message_id: String,
        subscription: String,
        content_type: Option<String>,
        body: Option<Vec<u8>>,
    },
    /// Confirms that a client frame has been processed.
    Receipt { receipt_id: String },
    /// Reports that something went wrong.
    Error { message: Option<String>, content_type: Option<String>, body: Option<Vec<u8>> },
}

/// The value of a [`Message`], over the value of its content.
pub struct MessageModel<C> {
    pub content: C,
    pub extra_headers: Seq<HeaderModel>,
}

/// The value of a [`ToServer`], with texts as character sequences.
#[allow(inconsistent_fields)]
pub enum ToServerModel {
    Connect {
        accept_version: Seq<char>,
        host: Seq<char>,
        login: Option<Seq<char>>,
        passcode: Option<Seq<char>>,
        heartbeat: Option<(u32, u32)>,
    },
    Send {
        destination: Seq<char>,
        transaction: Option<Seq<char>>,
        content_type: Option<Seq<char>>,
        body: Option<Seq<u8>>,
    },
    Subscribe { destination: Seq<char>, id: Seq<char>, ack: Option<AckMode> },
    Unsubscribe { id: Seq<char> },
    Ack { id: Seq<char>, transaction: Option<Seq<char>> },
    Nack { id: Seq<char>, transaction: Option<Seq<char>> },
    Begin { transaction: Seq<char> },
    Commit { transaction: Seq<char> },
    Abort { transaction: Seq<char> },
    Disconnect { receipt: Option<Seq<char>> },
}

/// The value of a [`FromServer`], with texts as character sequences.
pub enum FromServerModel {
    Connected {
        version: Seq<char>,
        session: Option<Seq<char>>,
        server: Option<Seq<char>>,
        heartbeat: Option<(u32, u32)>,
    },
    Message {
        destination: Seq<char>,
        message_id: Seq<char>,
        subscription: Seq<char>,
        content_type: Option<Seq<char>>,
        body: Option<Seq<u8>>,
    },
    Receipt { receipt_id: Seq<char> },
    Error {
        message: Option<Seq<char>>,
        content_type: Option<Seq<char>>,
        body: Option<Seq<u8>>,
    },
}

impl<T: View> View for Message<T> {
    type V = MessageModel<T::V>;

    open spec fn view(&self) -> MessageModel<T::V> {
        MessageModel { content: self.content@, extra_headers: self.extra_headers.deep_view() }
    }
}

/// The value of a message that may be absent.
pub open spec fn message_of<T: View>(message: Option<Message<T>>) -> Option<MessageModel<T::V>> {
    match message {
        Some(m) => Some(m@),
        None => None,
    }
}

/// The value of a text that may be absent.
pub open spec fn text_of(text: Option<String>) -> Option<Seq<char>> {
    match text {
        Some(t) => Some(t@),
        None => None,
    }
}

/// The value of a body that may be absent.
pub open spec fn body_of(body: Option<Vec<u8>>) -> Option<Seq<u8>> {
    match body {
        Some(b) => Some(b@),
        None => None,
    }
}

impl View for ToServer {
    type V = ToServerModel;

    open spec fn view(&self) -> ToServerModel {
        match *self {
            ToServer::Connect { accept_version, host, login, passcode, heartbeat } => {
                ToServerModel::Connect {
                    accept_version: accept_version@,
                    host: host@,
                    login: text_of(login),
                    passcode: text_of(passcode),
                    heartbeat,
                }
            },
            ToServer::Send { destination, transaction, content_type, body } => {
                ToServerModel::Send {
                    destination: destination@,
                    transaction: text_of(transaction),
                    content_type: text_of(content_type),
                    body: body_of(body),
                }
            },
            ToServer::Subscribe { destination, id, ack } => {
                ToServerModel::Subscribe { destination: destination@, id: id@, ack }
            },
            ToServer::Unsubscribe { id } => ToServerModel::Unsubscribe { id: id@ },
            ToServer::Ack { id, transaction } => {
                ToServerModel::Ack { id: id@, transaction: text_of(transaction) }
            },
            ToServer::Nack { id, transaction } => {
                ToServerModel::Nack { id: id@, transaction: text_of(transaction) }
            },
            ToServer::Begin { transaction } => ToServerModel::Begin { transaction: transaction@ },
            ToServer::Commit { transaction } => {
                ToServerModel::Commit { transaction: transaction@ }
            },
            ToServer::Abort { transaction } => ToServerModel::Abort { transaction: transaction@ },
            ToServer::Disconnect { receipt } => {
                ToServerModel::Disconnect { receipt: text_of(receipt) }
            },
        }
    }
}

impl View for FromServer {
    type V = FromServerModel;

    open spec fn view(&self) -> FromServerModel {
        match *self {
            FromServer::Connected { version, session, server, heartbeat } => {
                FromServerModel::Connected {
                    version: version@,
                    session: text_of(session),
                    server: text_of(server),
                    heartbeat,
                }
            },
            FromServer::Message {
                destination,
                message_id,
                subscription,
                content_type,
                body,
            } => {
                FromServerModel::Message {
                    destination: destination@,
                    message_id: message_id@,
                    subscription: subscription@,
                    content_type: text_of(content_type),
                    body: body_of(body),
                }
            },
            FromServer::Receipt { receipt_id } => {
                FromServerModel::Receipt { receipt_id: receipt_id@ }
            },
            FromServer::Error { message, content_type, body } => {
                FromServerModel::Error {
                    message: text_of(message),
                    content_type: text_of(content_type),
                    body: body_of(body),
                }
            },
        }
    }
}

} // verus!
