//! Messages exchanged between clients and the server, and their
//! mathematical views (text as characters, payloads as bytes).

use vstd::prelude::*;

verus! {

/// A request sent by a client.
#[derive(Clone, Debug, PartialEq, Eq)]
pub enum ClientMessage {
    SignUp { name: String, pass: String },
    Login { name: String, pass: String },
    Say { chan: u32, text: String },
    File { chan: u32, ext: String, bytes: Vec<u8> },
}

/// Why a sign-up or login was refused.
#[derive(Clone, Copy, Debug, PartialEq, Eq, Structural)]
pub enum LoginError {
    NameAlreadyExists,
    AlreadyLogged,
    WrongNameOrPass,
}

/// An account as the clients see it.
#[derive(Clone, Debug, PartialEq, Eq)]
pub struct User {
    pub id: u32,
    pub name: String,
    pub avatar: Option<String>,
}

/// The content of a posted message: text, or a reference to a stored file.
#[derive(Clone, Debug, PartialEq, Eq)]
pub enum MessageType {
    Text(String),
    File(String),
}

/// A message posted by user `from` to channel `chan`.
#[derive(Clone, Debug, PartialEq, Eq)]
pub struct Message {
    pub from: u32,
    pub chan: u32,
    pub content: MessageType,
}

/// A channel together with its history.
#[derive(Clone, Debug, PartialEq, Eq)]
pub struct Channel {
    pub id: u32,
    pub name: String,
    pub icon: Option<String>,
    pub history: Vec<Message>,
}

/// A notification or reply sent by the server.
#[derive(Debug, PartialEq, Eq)]
pub enum ServerMessage {
    /// Rejection of a request the connection may not make.
    Closed,
    LoggedIn(Result<u32, LoginError>),
    User(User),
    Channel(Channel),
    Message(Message),
}

pub enum ClientMessageView {
    SignUp { name: Seq<char>, pass: Seq<char> },
    Login { name: Seq<char>, pass: Seq<char> },
    Say { chan: u32, text: Seq<char> },
    File { chan: u32, ext: Seq<char>, bytes: Seq<u8> },
}

pub struct UserView {
    pub id: u32,
    pub name: Seq<char>,
    pub avatar: Option<Seq<char>>,
}

pub enum ContentView {
    Text(Seq<char>),
    File(Seq<char>),
}

pub struct MessageView {
    pub from: u32,
    pub chan: u32,
    pub content: ContentView,
}

pub struct ChannelView {
    pub id: u32,
    pub name: Seq<char>,
    pub icon: Option<Seq<char>>,
    pub history: Seq<MessageView>,
}

pub enum ServerMessageView {
    Closed,
    LoggedIn(Result<u32, LoginError>),
    User(UserView),
    Channel(ChannelView),
    Message(MessageView),
}

/// The characters of an optional string.
pub open spec fn opt_view(o: Option<String>) -> Option<Seq<char>> {
    match o {
        Some(s) => Some(s@),
        None => None,
    }
}

/// The views of a sequence of messages.
pub open spec fn messages_view(ms: Seq<Message>) -> Seq<MessageView> {
    ms.map_values(|m: Message| m@)
}

impl View for ClientMessage {
    type V = ClientMessageView;

    open spec fn view(&self) -> ClientMessageView {
        match self {
            ClientMessage::SignUp { name, pass } => ClientMessageView::SignUp {
                name: name@,
                pass: pass@,
            },
            ClientMessage::Login { name, pass } => ClientMessageView::Login {
                name: name@,
                pass: pass@,
            },
            ClientMessage::Say { chan, text } => ClientMessageView::Say { chan: *chan, text: text@ },
            ClientMessage::File { chan, ext, bytes } => ClientMessageView::File {
                chan: *chan,
                ext: ext@,
                bytes: bytes@,
            },
        }
    }
}

impl View for User {
    type V = UserView;

    open spec fn view(&self) -> UserView {
        UserView { id: self.id, name: self.name@, avatar: opt_view(self.avatar) }
    }
}

impl View for MessageType {
    type V = ContentView;

    open spec fn view(&self) -> ContentView {
        match self {
            MessageType::Text(s) => ContentView::Text(s@),
            MessageType::File(s) => ContentView::File(s@),
        }
    }
}

impl View for Message {
    type V = MessageView;

    open spec fn view(&self) -> MessageView {
        MessageView { from: self.from, chan: self.chan, content: self.content@ }
    }
}

impl View for Channel {
    type V = ChannelView;

    open spec fn view(&self) -> ChannelView {
        ChannelView {
            id: self.id,
            name: self.name@,
            icon: opt_view(self.icon),
            history: messages_view(self.history@),
        }
    }
}

impl View for ServerMessage {
    type V = ServerMessageView;

    open spec fn view(&self) -> ServerMessageView {
        match self {
            ServerMessage::Closed => ServerMessageView::Closed,
            ServerMessage::LoggedIn(r) => ServerMessageView::LoggedIn(*r),
            ServerMessage::User(u) => ServerMessageView::User(u@),
            ServerMessage::Channel(c) => ServerMessageView::Channel(c@),
            ServerMessage::Message(m) => ServerMessageView::Message(m@),
        }
    }
}

/// A copy of an optional string.
pub fn copy_opt(o: &Option<String>) -> (r: Option<String>)
    ensures
        opt_view(r) == opt_view(*o),
{
    match o {
        Some(s) => Some(s.clone()),
        None => None,
    }
}

impl LoginError {
    /// A short human-readable description.
    pub fn describe(&self) -> (r: &'static str)
        ensures
            *self == LoginError::NameAlreadyExists ==> r@ == "name already exists"@,
            *self == LoginError::AlreadyLogged ==> r@ == "already logged"@,
            *self == LoginError::WrongNameOrPass ==> r@ == "wrong name or pass"@,
    {
        match self {
            LoginError::NameAlreadyExists => "name already exists",
            LoginError::AlreadyLogged => "already logged",
            LoginError::WrongNameOrPass => "wrong name or pass",
        }
    }
}

impl MessageType {
    /// A copy with the same content.
    pub fn duplicate(&self) -> (r: MessageType)
        ensures
            r@ == self@,
    {
        match self {
            MessageType::Text(s) => MessageType::Text(s.clone()),
            MessageType::File(s) => MessageType::File(s.clone()),
        }
    }
}

impl Message {
    /// A copy with the same sender, channel and content.
    pub fn duplicate(&self) -> (r: Message)
        ensures
            r@ == self@,
    {
        Message { from: self.from, chan: self.chan, content: self.content.duplicate() }
    }
}

impl User {
    /// A copy with the same id, name and avatar.
    pub fn duplicate(&self) -> (r: User)
        ensures
            r@ == self@,
    {
        User { id: self.id, name: self.name.clone(), avatar: copy_opt(&self.avatar) }
    }
}

} // verus!
