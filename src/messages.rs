//! The fixed texts that riders are sent.

use vstd::prelude::*;
use vstd::string::StringExecFns;

verus! {

/// What the bot understands.
pub const HELP_MESSAGE: &'static str = "textabus commands:\n\nbus times:\n[stop number]\n[stop number] [route] [route]\u{2026}\ntimes [stop number]\n\nfind stops:\nstops [location: address, intersection, landmark]\n\ntoggle 12h/24h clock in times response:\nsettings clock\n";

/// Sent to a rider once a maintainer approves their number.
pub const APPROVAL_MESSAGE: &'static str = "you have been approved to beta test textabus!\n\nmessages are stored for debugging. please let admin know if you find a bug or have suggestions for improvement";

/// Sent to a number that the bot does not know yet.
pub const WELCOME_MESSAGE: &'static str = "welcome to textabus. we don\u{2019}t recognise you, please contact a maintainer to join the alpha test.";

/// The approval notice followed by the help text.
pub fn get_composed_approval_message() -> (r: String)
    ensures
        r@ == APPROVAL_MESSAGE@ + "\n\n"@ + HELP_MESSAGE@,
{
    let mut r = String::from_str(APPROVAL_MESSAGE);
    r.append("\n\n");
    r.append(HELP_MESSAGE);
    r
}

/// The reply to `help` and to anything not understood: the help text and the site's
/// address.
pub fn help_reply(root_url: &str) -> (r: String)
    ensures
        r@ == HELP_MESSAGE@ + "\n"@ + root_url@,
{
    let mut r = String::from_str(HELP_MESSAGE);
    r.append("\n");
    r.append(root_url);
    r
}

/// The note to the maintainer about a number that wrote for the first time.
pub fn new_number_notice(from: &str) -> (r: String)
    ensures
        r@ == "New number: "@ + from@,
{
    let mut r = String::from_str("New number: ");
    r.append(from);
    r
}

} // verus!
