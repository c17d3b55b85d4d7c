//! The chat application's envelope, carried in binary messages. Its wire
//! form is left to a serializer outside the library.
use vstd::prelude::*;

verus! {

/// What the server hands a client when it signs in.
pub type Token = String;

/// The longest nickname the server accepts, in bytes.
pub const NICKNAME_MAX_LEN: usize = 16;

/// A client's request.
#[derive(Debug, Clone, Hash)]
pub enum ClientMessage {
    /// Signs in with a display name and its color.
    Auth(MessageSender),
    /// Chat text, with the token that signing in gave.
    SendMessage { token: Token, text: String },
}

/// What the server sends a client.
#[derive(Debug, Hash)]
pub enum ServerMessage {
    /// The answer to signing in.
    AuthSuccess(Result<Token, AuthError>),
    /// A chat message from this client or another.
    PropagateMessage(MessageSender, String),
    /// Any notice from the server.
    Notification(ServerNotification),
}

/// Why signing in failed.
#[derive(Debug, Clone, Copy, Hash, PartialEq, Eq, Structural)]
pub enum AuthError {
    /// The nickname is taken.
    NicknameUnavailable,
    /// The nickname is longer than `NICKNAME_MAX_LEN`.
    NicknameTooLong,
    /// The client has already signed in.
    AlreadyAuthorized,
}

/// A notice from the server.
#[derive(Debug, Clone, Hash)]
pub enum ServerNotification {
    /// Text from the server itself.
    Literal(String),
    /// A client has connected.
    ClientConnected(MessageSender),
    /// A client has disconnected.
    ClientDisconnected(MessageSender),
}

/// Who sent a chat message.
#[derive(Debug, Clone, Hash)]
pub struct MessageSender {
    pub name: String,
    pub color: Color,
}

/// The color a client's name is shown in.
#[derive(Debug, Clone, Copy, Hash, PartialEq, Eq, Structural)]
pub enum Color {
    Text,
    Truecolor(u8, u8, u8),
    Red,
    Yellow,
    Green,
    Cyan,
    Blue,
    Magenta,
}

impl Default for Color {
    fn default() -> (r: Color)
        ensures
            r == Color::Text,
    {
        Color::Text
    }
}

} // verus!
