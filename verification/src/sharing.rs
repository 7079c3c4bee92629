//! Sharing the server on a public website, if its owner agrees.
use vstd::prelude::*;
use vstd::utf8::{decode_utf8, valid_utf8};
use crate::text::{same_text, trim_text, trimmed};

verus! {

/// What the website says to an address that was handed in.
#[derive(Clone, Copy, Debug, PartialEq, Eq, Structural)]
pub enum SiteReply {
    Accepted,
    WrongAddress,
    Unknown,
}

/// The choice of the owner as it is kept: the two addresses, or that the
/// server is not shared.
pub open spec fn choice_text(agreed: bool, site: Seq<char>, game: Seq<char>) -> Seq<char> {
    if agreed {
        trimmed(site) + ":"@ + trimmed(game)
    } else {
        "false"@
    }
}

/// Tells whether what the owner typed means that they agree.
pub fn agrees(input: &str) -> (r: bool)
    ensures
        r == (trimmed(input@) == "yes"@),
{
    same_text(trim_text(input).as_str(), "yes")
}

/// The choice of the owner as it is kept.
pub fn choice(agreed: bool, site: &str, game: &str) -> (r: String)
    ensures
        r@ == choice_text(agreed, site@, game@),
{
    if agreed {
        trim_text(site).concat(":").concat(trim_text(game).as_str())
    } else {
        "false".to_string()
    }
}

/// Tells whether the server is shared, from the choice that was kept.
pub fn is_shared(kept: &str) -> (r: bool)
    ensures
        r == (kept@ != "false"@),
{
    !same_text(kept, "false")
}

/// Reads the reply of the website.
pub fn site_reply(received: &str) -> (r: SiteReply)
    ensures
        r == if received@ == "ok"@ {
            SiteReply::Accepted
        } else if received@ == "no"@ {
            SiteReply::WrongAddress
        } else {
            SiteReply::Unknown
        },
{
    if same_text(received, "ok") {
        SiteReply::Accepted
    } else if same_text(received, "no") {
        SiteReply::WrongAddress
    } else {
        SiteReply::Unknown
    }
}

/// Tells whether the website asks for the list of public rooms.
pub fn asks_for_rooms(received: &str) -> (r: bool)
    ensures
        r == (trimmed(received@) == "GRS"@),
{
    same_text(trim_text(received).as_str(), "GRS")
}

/// The answer to a request of the website. `kept` is the list of public rooms
/// as it was last written out, if it could be read.
pub fn process_pmps_connection(received: &str, kept: Option<String>) -> (r: String)
    ensures
        r@ == if trimmed(received@) != "GRS"@ {
            Seq::empty()
        } else {
            match kept {
                Some(rooms) => rooms@,
                None => "[]"@,
            }
        },
{
    if asks_for_rooms(received) {
        match kept {
            Some(rooms) => rooms,
            None => "[]".to_string(),
        }
    } else {
        String::new()
    }
}

/// The text that bytes encode; none if they are malformed.
pub open spec fn text_of(bytes: Seq<u8>) -> Option<Seq<char>> {
    if valid_utf8(bytes) {
        Some(decode_utf8(bytes))
    } else {
        None
    }
}

/// Reads bytes as text, with `std::str::from_utf8`. Trusted: bytes that are
/// valid UTF-8 give the text that they encode, and others give nothing.
#[verifier::external_body]
fn from_utf8(bytes: &[u8]) -> (r: Option<String>)
    ensures
        match r {
            Some(text) => text_of(bytes@) == Some(text@),
            None => text_of(bytes@) is None,
        },
{
    std::str::from_utf8(bytes).ok().map(String::from)
}

/// The answer to the bytes of a request of the website: the list of public
/// rooms if they read, up to blanks, as the request for it, and else nothing.
/// Malformed bytes are no such request.
pub fn answer_site(received: &[u8], kept: Option<String>) -> (r: String)
    ensures
        r@ == if (text_of(received@) matches Some(text) && trimmed(text) == "GRS"@) {
            match kept {
                Some(rooms) => rooms@,
                None => "[]"@,
            }
        } else {
            Seq::empty()
        },
{
    match from_utf8(received) {
        Some(text) => process_pmps_connection(text.as_str(), kept),
        None => String::new(),
    }
}

/// Tells whether the bytes of a request ask for the list of public rooms.
pub fn site_asks(received: &[u8]) -> (r: bool)
    ensures
        r == (text_of(received@) matches Some(text) && trimmed(text) == "GRS"@),
{
    match from_utf8(received) {
        Some(text) => asks_for_rooms(text.as_str()),
        None => false,
    }
}

/// Reads the bytes of the website's reply. Malformed bytes are a reply that
/// nobody knows.
pub fn site_reply_bytes(received: &[u8]) -> (r: SiteReply)
    ensures
        r == match text_of(received@) {
            Some(text) => if text == "ok"@ {
                SiteReply::Accepted
            } else if text == "no"@ {
                SiteReply::WrongAddress
            } else {
                SiteReply::Unknown
            },
            None => SiteReply::Unknown,
        },
{
    match from_utf8(received) {
        Some(text) => site_reply(text.as_str()),
        None => SiteReply::Unknown,
    }
}

/// An owner who does not agree is never shared, and one who agrees always is.
pub proof fn law_choice(site: Seq<char>, game: Seq<char>)
    ensures
        choice_text(false, site, game) == "false"@,
        choice_text(true, site, game) != "false"@,
{
    reveal_strlit("false");
    reveal_strlit(":");
    let kept = choice_text(true, site, game);
    let i = trimmed(site).len() as int;
    assert(kept.len() == i + 1 + trimmed(game).len());
    assert(kept[i] == ':');
    if kept == "false"@ {
        assert(kept.len() == 5);
        assert("false"@[0] == 'f' && "false"@[1] == 'a' && "false"@[2] == 'l' && "false"@[3] == 's'
            && "false"@[4] == 'e');
    }
}

} // verus!
