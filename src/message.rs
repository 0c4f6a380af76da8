use vstd::prelude::*;

verus! {

/// The command word of a protocol line, as the message parser reads it; `None`
/// where the line does not parse.
pub uninterp spec fn command_of(raw: Seq<char>) -> Option<Seq<char>>;

/// The trailing parameter of a protocol line, as the message parser reads it;
/// `None` where there is none or the line does not parse.
pub uninterp spec fn trailing_of(raw: Seq<char>) -> Option<Seq<char>>;

/// The characters of an optional text.
pub open spec fn opt_text(o: Option<String>) -> Option<Seq<char>> {
    match o {
        Some(s) => Some(s@),
        None => None,
    }
}

/// Relies on `irc_rust::Message::command` (with `Message::from`, which only keeps
/// the line): the command word of the line, or an error where it does not parse.
#[verifier::external_body]
pub(crate) fn message_command(raw: &str) -> (r: Option<String>)
    ensures
        opt_text(r) == command_of(raw@),
{
    match irc_rust::Message::from(raw).command() {
        Ok(c) => Some(c.to_string()),
        Err(_) => None,
    }
}

/// Relies on `irc_rust::Message::trailing` (with `Message::from`, which only keeps
/// the line): the trailing parameter, if the line has one and parses.
#[verifier::external_body]
pub(crate) fn message_trailing(raw: &str) -> (r: Option<String>)
    ensures
        opt_text(r) == trailing_of(raw@),
{
    match irc_rust::Message::from(raw).trailing() {
        Ok(t) => t.map(|t| t.to_string()),
        Err(_) => None,
    }
}

} // verus!
