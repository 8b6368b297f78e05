//! What clients are answered.

use vstd::prelude::*;

use crate::text::{same_text, trim};

verus! {

/// How many messages can wait for a client.
pub const CLIENT_CHANNEL_CAPACITY: usize = 128;

/// What a message of a client is answered: a ping, with or without white space
/// around it, gets a pong, and anything else, a message without text among it,
/// nothing.
pub open spec fn answer(message: Option<Seq<char>>) -> Option<Seq<char>> {
    match message {
        Some(text) => if crate::text::trimmed(text) == "ping"@ {
            Some("pong"@)
        } else {
            None
        },
        None => None,
    }
}

/// What a message of a client is answered.
pub fn answer_to(message: Option<&str>) -> (r: Option<String>)
    ensures
        match r {
            Some(text) => message is Some && answer(Some(message->0@)) == Some(text@),
            None => message is None || answer(Some(message->0@)) is None,
        },
{
    match message {
        Some(text) => {
            if same_text(trim(text).as_str(), "ping") {
                Some("pong".to_owned())
            } else {
                None
            }
        },
        None => None,
    }
}

/// A client is answered a pong exactly where its message is a text that is a ping
/// but for white space around it, and is answered nothing otherwise.
pub proof fn law_only_pings_are_answered(message: Option<Seq<char>>)
    ensures
        answer(message) == Some("pong"@) <==> message is Some && crate::text::trimmed(message->0)
            == "ping"@,
        answer(message) is None <==> message is None || crate::text::trimmed(message->0) != "ping"@,
{
}

} // verus!
