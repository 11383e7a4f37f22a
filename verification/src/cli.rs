//! Client-side command objects: how polled messages are rendered, and the
//! personal-access-token commands a console builds before handing them to a
//! connected client. The network calls themselves live outside the engine.

use vstd::prelude::*;

use crate::identifier::Identifier;
use crate::text::str_eq_chars;

verus! {

/// How polled message payloads are rendered on the console.
#[derive(Debug, Clone, Copy, PartialEq, Eq, Structural)]
pub enum Format {
    /// No rendering requested.
    Unspecified,
    /// Raw bytes.
    Binary,
    /// Rendered as text.
    Text,
}

impl Default for Format {
    /// Without a marker, nothing is rendered specially.
    fn default() -> (r: Self)
        ensures
            r == Format::Unspecified,
    {
        Format::Unspecified
    }
}

/// The format a command's trailing marker selects: `b` or `binary` for raw
/// bytes, `s` or `string` for text, anything else for no rendering.
pub open spec fn format_of(s: Seq<char>) -> Format {
    if s == "b"@ || s == "binary"@ {
        Format::Binary
    } else if s == "s"@ || s == "string"@ {
        Format::Text
    } else {
        Format::Unspecified
    }
}

/// Parse the trailing format marker of a poll command.
pub fn parse_format(marker: &str) -> (r: Format)
    ensures
        r == format_of(marker@),
{
    if str_eq_chars(marker, "b") || str_eq_chars(marker, "binary") {
        Format::Binary
    } else if str_eq_chars(marker, "s") || str_eq_chars(marker, "string") {
        Format::Text
    } else {
        Format::Unspecified
    }
}

/// The parameters of a poll: which partition to read, from where, and how
/// much.
#[derive(Debug)]
pub struct PollMessages {
    pub consumer_id: u32,
    pub stream_id: Identifier,
    pub topic_id: Identifier,
    pub partition_id: u32,
    pub offset: u64,
    pub count: u32,
    pub auto_commit: bool,
}

/// A poll request together with the rendering its console invocation asked
/// for.
#[derive(Debug)]
pub struct PollMessagesWithFormat {
    pub payload: PollMessages,
    pub format: Format,
}

/// The request a client sends to create a personal access token.
#[derive(Debug)]
pub struct CreatePersonalAccessToken {
    pub name: String,
    /// Seconds until expiry; absent means the token never expires.
    pub expiry: Option<u32>,
}

/// The request a client sends to delete a personal access token.
#[derive(Debug)]
pub struct DeletePersonalAccessToken {
    pub name: String,
}

/// How long a personal access token lives.
#[derive(Debug, Clone, Copy, PartialEq, Eq, Structural)]
pub enum PersonalAccessTokenExpiry {
    /// The token never expires.
    NeverExpire,
    /// The token expires after this many seconds.
    ExpireDuration(u32),
}

impl PersonalAccessTokenExpiry {
    /// The seconds a request carries for this expiry.
    pub fn as_expiry_seconds(&self) -> (r: Option<u32>)
        ensures
            *self is NeverExpire ==> r is None,
            forall|s: u32| *self == PersonalAccessTokenExpiry::ExpireDuration(s) ==> r == Some(s),
    {
        match self {
            PersonalAccessTokenExpiry::NeverExpire => None,
            PersonalAccessTokenExpiry::ExpireDuration(s) => Some(*s),
        }
    }
}

/// The console command that creates a personal access token.
pub struct CreatePersonalAccessTokenCmd {
    pub create_token: CreatePersonalAccessToken,
    pub token_expiry: Option<PersonalAccessTokenExpiry>,
    pub quiet_mode: bool,
}

impl CreatePersonalAccessTokenCmd {
    /// Build the command: the request carries the name and the expiry
    /// seconds the chosen expiry denotes.
    pub fn new(name: String, pat_expiry: Option<PersonalAccessTokenExpiry>, quiet_mode: bool)
        -> (r: CreatePersonalAccessTokenCmd)
        ensures
            r.create_token.name@ == name@,
            r.create_token.expiry == (match pat_expiry {
                None => None::<u32>,
                Some(PersonalAccessTokenExpiry::NeverExpire) => None::<u32>,
                Some(PersonalAccessTokenExpiry::ExpireDuration(s)) => Some(s),
            }),
            r.token_expiry == pat_expiry,
            r.quiet_mode == quiet_mode,
    {
        let expiry = match &pat_expiry {
            None => None,
            Some(value) => value.as_expiry_seconds(),
        };
        CreatePersonalAccessTokenCmd {
            create_token: CreatePersonalAccessToken { name, expiry },
            token_expiry: pat_expiry,
            quiet_mode,
        }
    }
}

/// The console command that deletes a personal access token.
pub struct DeletePersonalAccessTokenCmd {
    pub delete_token: DeletePersonalAccessToken,
}

impl DeletePersonalAccessTokenCmd {
    /// Build the command carrying the token's name.
    pub fn new(name: String) -> (r: DeletePersonalAccessTokenCmd)
        ensures
            r.delete_token.name@ == name@,
    {
        DeletePersonalAccessTokenCmd { delete_token: DeletePersonalAccessToken { name } }
    }
}

} // verus!
