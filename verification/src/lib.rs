//! A direct-message relay library: authenticated users exchange text
//! messages over persistent connections. Messages are durably stored,
//! delivery is acknowledged, and offline recipients are reached on their
//! next handshake. This crate holds the verified core: the wire-frame
//! codec, the message store, the presence registry, the notification
//! fan-out, and the per-connection session state machine.

use vstd::prelude::*;

pub mod assoc;
pub mod auth;
pub mod digest;
pub mod json;
pub mod messages;
pub mod notifications;
pub mod presence;
pub mod protocol;
pub mod session;
pub mod text;
pub mod users;

verus! {

/// Pairs the two credential lines a client has read from its user:
/// the nickname first, the password second.
pub fn take_nick_and_pass(nick: String, pass: String) -> (r: (String, String))
    ensures
        r.0@ == nick@,
        r.1@ == pass@,
{
    (nick, pass)
}

/// What a client's start menu offers.
pub enum Action {
    Login,
    Signup,
}

/// Resolves the menu line a client's user typed: option one logs in,
/// option two signs up, anything else is refused.
pub fn menu_choice(input: &str) -> (r: Option<Action>)
    ensures
        r == (if input@ == "1"@ {
            Some(Action::Login)
        } else if input@ == "2"@ {
            Some(Action::Signup)
        } else {
            None::<Action>
        }),
{
    if text::str_eq(input, "1") {
        Some(Action::Login)
    } else if text::str_eq(input, "2") {
        Some(Action::Signup)
    } else {
        None
    }
}

} // verus!
