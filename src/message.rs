//! The closed union of messages exchanged between client and server.

use vstd::prelude::*;

verus! {

/// One value of the wire protocol.
#[derive(Debug, Clone, PartialEq, Eq)]
pub enum MessageType {
    /// A file transfer: client-side file name and content.
    File(String, Vec<u8>),
    /// An image transfer: client-side file name and content.
    Image(String, Vec<u8>),
    /// A chat line.
    Text(String),
    /// Credentials: user name and password.
    Login(String, String),
    /// The server's answer to a `Login`.
    LoginResponse(bool),
    /// End of the conversation.
    Quit,
}

/// The mathematical value of a `MessageType`: strings as characters, content as bytes.
pub enum MessageView {
    File(Seq<char>, Seq<u8>),
    Image(Seq<char>, Seq<u8>),
    Text(Seq<char>),
    Login(Seq<char>, Seq<char>),
    LoginResponse(bool),
    Quit,
}

impl View for MessageType {
    type V = MessageView;

    open spec fn view(&self) -> MessageView {
        match self {
            MessageType::File(name, content) => MessageView::File(name@, content@),
            MessageType::Image(name, content) => MessageView::Image(name@, content@),
            MessageType::Text(body) => MessageView::Text(body@),
            MessageType::Login(user, password) => MessageView::Login(user@, password@),
            MessageType::LoginResponse(ok) => MessageView::LoginResponse(*ok),
            MessageType::Quit => MessageView::Quit,
        }
    }
}

} // verus!
