//! Message kinds chosen by name, as the web form submits them.

use vstd::prelude::*;
use crate::message::{MessageType, MessageView};
use crate::text::same_text;

verus! {

/// A message of the kind that a form field names, with empty data.
pub struct MessageTypeWrapper(pub MessageType);

/// The message that the kind name `name` stands for. `Text` and any name
/// that is not a kind stand for an empty text.
pub open spec fn template_of(name: Seq<char>) -> MessageView {
    if name == "File"@ {
        MessageView::File(seq![], seq![])
    } else if name == "Image"@ {
        MessageView::Image(seq![], seq![])
    } else if name == "Quit"@ {
        MessageView::Quit
    } else {
        MessageView::Text(seq![])
    }
}

impl MessageTypeWrapper {
    /// The message that the kind name `name` stands for.
    pub fn from_name(name: &str) -> (r: MessageTypeWrapper)
        ensures
            r.0@ == template_of(name@),
    {
        if same_text(name, "File") {
            MessageTypeWrapper(MessageType::File(String::new(), Vec::new()))
        } else if same_text(name, "Image") {
            MessageTypeWrapper(MessageType::Image(String::new(), Vec::new()))
        } else if same_text(name, "Quit") {
            MessageTypeWrapper(MessageType::Quit)
        } else {
            MessageTypeWrapper(MessageType::Text(String::new()))
        }
    }
}

impl Default for MessageTypeWrapper {
    fn default() -> (r: MessageTypeWrapper)
        ensures
            r.0@ == MessageView::Text(seq![]),
    {
        MessageTypeWrapper(MessageType::Text(String::new()))
    }
}

impl std::str::FromStr for MessageTypeWrapper {
    type Err = String;

    fn from_str(s: &str) -> Result<MessageTypeWrapper, String> {
        Ok(MessageTypeWrapper::from_name(s))
    }
}

} // verus!
