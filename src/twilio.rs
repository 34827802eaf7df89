//! What to do with a message that arrives from the SMS provider.

use vstd::prelude::*;
use vstd::string::StringExecFns;
use crate::parse::{
    ascii_lower, command_of, first_word, is_ascii_text, lowercase_of, normalise, parse_command,
    Command,
};
use crate::settings::Number;

verus! {

/// The query parameters of an incoming message.
pub struct TwilioParams {
    /// `None` when the message was empty.
    pub body: Option<String>,
    pub message_sid: String,
    pub from: String,
    pub to: String,
}

/// The query parameters of the plain-text interface.
pub struct RawParams {
    pub body: String,
}

/// The text of a reply to an incoming message.
pub struct MessageResponse {
    pub body: String,
}

/// How to answer a message, given what is known of its sender.
pub enum Incoming {
    /// The sender is known but not approved: answer "not found".
    NotFound,
    /// The sender is new: register them, tell the maintainer, and welcome them.
    Welcome,
    /// An approved sender with an empty message: send the bare placeholder.
    Placeholder,
    /// An approved sender with a message: answer its command.
    Answer,
}

/// Decides how to answer a message from the sender's record and the message body.
pub fn incoming_plan(number: &Option<Number>, body: &Option<String>) -> (r: Incoming)
    ensures
        number is None ==> r is Welcome,
        number is Some && !number->0.approved ==> r is NotFound,
        number is Some && number->0.approved && body is None ==> r is Placeholder,
        number is Some && number->0.approved && body is Some ==> r is Answer,
{
    match number {
        None => Incoming::Welcome,
        Some(n) => if !n.approved {
            Incoming::NotFound
        } else if body.is_some() {
            Incoming::Answer
        } else {
            Incoming::Placeholder
        },
    }
}

/// The reply to an approved sender whose message was empty.
pub fn placeholder_reply() -> (r: String)
    ensures
        r@ == "textabus"@,
{
    String::from_str("textabus")
}

/// The command in a message body; a missing body reads as `unknown`.
pub fn command_for_body(body: &Option<String>) -> (r: Command)
    ensures
        r@ == command_of(
            normalise(
                match body {
                    Some(b) => b@,
                    None => "unknown"@,
                },
            ),
        ),
        ({
            let text = match body {
                Some(b) => b@,
                None => "unknown"@,
            };
            is_ascii_text(first_word(text)) ==> lowercase_of(first_word(text)) == ascii_lower(
                first_word(text),
            )
        }),
{
    match body {
        Some(b) => parse_command(b.as_str()),
        None => parse_command("unknown"),
    }
}

} // verus!
