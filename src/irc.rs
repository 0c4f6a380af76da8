use vstd::prelude::*;

verus! {

/// A channel mode flag, as carried by a single mode letter.
#[derive(Debug, Clone)]
pub enum ChannelMode {
    ColourFilter,
    BlockCTCP,
    FreeInvite,
    JoinThrottle,
    Password,
    JoinLimit,
    Moderated,
    Private,
    Quiet,
    BlockForwardedUsers,
    Secret,
    TLSOnly,
    Unfiltered,
    ReducedModeration,
    Unknown(String),
}

/// The letter of a known mode; `None` for a letter with no meaning here.
pub open spec fn mode_of_letter(c: char) -> Option<ChannelMode> {
    if c == 'c' { Some(ChannelMode::ColourFilter) }
    else if c == 'C' { Some(ChannelMode::BlockCTCP) }
    else if c == 'g' { Some(ChannelMode::FreeInvite) }
    else if c == 'j' { Some(ChannelMode::JoinThrottle) }
    else if c == 'k' { Some(ChannelMode::Password) }
    else if c == 'l' { Some(ChannelMode::JoinLimit) }
    else if c == 'm' { Some(ChannelMode::Moderated) }
    else if c == 'p' { Some(ChannelMode::Private) }
    else if c == 'q' { Some(ChannelMode::Quiet) }
    else if c == 'Q' { Some(ChannelMode::BlockForwardedUsers) }
    else if c == 's' { Some(ChannelMode::Secret) }
    else if c == 'S' { Some(ChannelMode::TLSOnly) }
    else if c == 'u' { Some(ChannelMode::Unfiltered) }
    else if c == 'z' { Some(ChannelMode::ReducedModeration) }
    else { None }
}

/// The known mode that the text `s` names, if it is one of the mode letters.
pub open spec fn known_mode(s: Seq<char>) -> Option<ChannelMode> {
    if s.len() == 1 { mode_of_letter(s[0]) } else { None }
}

/// The rank of a member prefix symbol.
#[derive(Debug, Clone, Copy, PartialEq, Eq, Structural)]
pub enum AccessLevel {
    User,
    Voice,
    HalfOp,
    Op,
    SuperOp,
    Owner,
}

/// The access level that a prefix text stands for; anything unknown is a plain user.
pub open spec fn access_of(s: Seq<char>) -> AccessLevel {
    if s == seq!['~'] { AccessLevel::Owner }
    else if s == seq!['&'] { AccessLevel::SuperOp }
    else if s == seq!['@'] { AccessLevel::Op }
    else if s == seq!['%'] { AccessLevel::HalfOp }
    else if s == seq!['+'] { AccessLevel::Voice }
    else { AccessLevel::User }
}

/// The error of parsing a mode or an access level; no input produces it.
#[derive(Debug, Clone, Copy, PartialEq, Eq, Structural)]
pub struct ParseError;

impl ChannelMode {
    /// Reads a mode from its letter; any other text is kept as `Unknown`.
    pub fn parse(s: &str) -> (r: ChannelMode)
        ensures
            known_mode(s@) matches Some(m) ==> r == m,
            known_mode(s@) is None ==> (r matches ChannelMode::Unknown(t) && t@ == s@),
    {
        if s.unicode_len() == 1 {
            let c = s.get_char(0);
            match c {
                'c' => return ChannelMode::ColourFilter,
                'C' => return ChannelMode::BlockCTCP,
                'g' => return ChannelMode::FreeInvite,
                'j' => return ChannelMode::JoinThrottle,
                'k' => return ChannelMode::Password,
                'l' => return ChannelMode::JoinLimit,
                'm' => return ChannelMode::Moderated,
                'p' => return ChannelMode::Private,
                'q' => return ChannelMode::Quiet,
                'Q' => return ChannelMode::BlockForwardedUsers,
                's' => return ChannelMode::Secret,
                'S' => return ChannelMode::TLSOnly,
                'u' => return ChannelMode::Unfiltered,
                'z' => return ChannelMode::ReducedModeration,
                _ => {},
            }
        }
        ChannelMode::Unknown(String::from_str(s))
    }
}

impl core::str::FromStr for ChannelMode {
    type Err = ParseError;

    fn from_str(s: &str) -> (r: Result<ChannelMode, ParseError>)
        ensures
            r matches Ok(m) && (known_mode(s@) matches Some(k) ==> m == k) && (known_mode(s@) is None
                ==> (m matches ChannelMode::Unknown(t) && t@ == s@)),
    {
        Ok(ChannelMode::parse(s))
    }
}

impl AccessLevel {
    /// Reads an access level from a member prefix symbol.
    pub fn parse(s: &str) -> (r: AccessLevel)
        ensures
            r == access_of(s@),
    {
        if s.unicode_len() == 1 {
            let c = s.get_char(0);
            proof {
                assert(s@ =~= seq![c]);
            }
            match c {
                '~' => return AccessLevel::Owner,
                '&' => return AccessLevel::SuperOp,
                '@' => return AccessLevel::Op,
                '%' => return AccessLevel::HalfOp,
                '+' => return AccessLevel::Voice,
                _ => {},
            }
            proof {
                assert(s@ != seq!['~'] && s@ != seq!['&'] && s@ != seq!['@']);
                assert(s@ != seq!['%'] && s@ != seq!['+']);
            }
        } else {
            proof {
                assert(seq!['~'].len() == 1);
                assert(seq!['&'].len() == 1 && seq!['@'].len() == 1);
                assert(seq!['%'].len() == 1 && seq!['+'].len() == 1);
            }
        }
        AccessLevel::User
    }
}

impl core::str::FromStr for AccessLevel {
    type Err = ParseError;

    fn from_str(s: &str) -> (r: Result<AccessLevel, ParseError>)
        ensures
            r == Ok::<AccessLevel, ParseError>(access_of(s@)),
    {
        Ok(AccessLevel::parse(s))
    }
}

/// A channel member.
#[derive(Debug, Clone)]
pub struct User {
    pub nick: Option<String>,
    pub hostmask: Option<String>,
    pub access: Option<AccessLevel>,
}

/// A joined channel and what is known of it.
#[derive(Debug, Clone)]
pub struct Channel {
    pub name: String,
    pub users: Vec<User>,
    pub topic: String,
    pub modes: Vec<ChannelMode>,
}

} // verus!
