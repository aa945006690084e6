use vstd::prelude::*;
use vstd::string::StringExecFns;

verus! {

/// A client-facing error.
#[derive(Debug, Clone, Copy, PartialEq, Eq, Structural)]
pub enum ClientError {
    NotSupported,
    LoginFailed,
    NotLoggedIn,
    AlreadyLoggedIn,
    MojangRequestMissing,
    RateLimited,
    PrivateMessageNotAccepted,
    EmptyMessage,
    MessageTooLong,
    InvalidCharacter(char),
    Banned,
    Internal,
}

/// What `char::escape_default` makes of a character.
pub uninterp spec fn escaped_char(c: char) -> Seq<char>;

/// Relies on char::escape_default, whose result depends on the character
/// alone: printable ASCII other than quotes and backslash stands for itself,
/// and tab, carriage return and line feed become `\t`, `\r`, `\n`.
#[verifier::external_body]
fn escape_char(c: char) -> (r: String)
    ensures
        r@ == escaped_char(c),
        (' ' <= c && c <= '~' && c != '\\' && c != '\'' && c != '"') ==> r@ == seq![c],
        c == '\t' ==> r@ == seq!['\\', 't'],
        c == '\r' ==> r@ == seq!['\\', 'r'],
        c == '\n' ==> r@ == seq!['\\', 'n'],
{
    c.escape_default().to_string()
}

impl ClientError {
    /// The human-readable text of the error.
    pub open spec fn text(self) -> Seq<char> {
        match self {
            ClientError::NotSupported => "method not supported"@,
            ClientError::LoginFailed => "login failed"@,
            ClientError::NotLoggedIn => "not logged in"@,
            ClientError::AlreadyLoggedIn => "already logged in"@,
            ClientError::MojangRequestMissing => "mojang request missing"@,
            ClientError::RateLimited => "rate limited"@,
            ClientError::PrivateMessageNotAccepted => "private message not accepted"@,
            ClientError::EmptyMessage => "empty message"@,
            ClientError::MessageTooLong => "message was too long"@,
            ClientError::InvalidCharacter(c) => "message contained invalid character: `"@
                + escaped_char(c) + "`"@,
            ClientError::Banned => "banned"@,
            ClientError::Internal => "internal error"@,
        }
    }

    pub fn message(&self) -> (r: String)
        ensures
            r@ == self.text(),
    {
        match self {
            ClientError::NotSupported => String::from_str("method not supported"),
            ClientError::LoginFailed => String::from_str("login failed"),
            ClientError::NotLoggedIn => String::from_str("not logged in"),
            ClientError::AlreadyLoggedIn => String::from_str("already logged in"),
            ClientError::MojangRequestMissing => String::from_str("mojang request missing"),
            ClientError::RateLimited => String::from_str("rate limited"),
            ClientError::PrivateMessageNotAccepted => String::from_str(
                "private message not accepted",
            ),
            ClientError::EmptyMessage => String::from_str("empty message"),
            ClientError::MessageTooLong => String::from_str("message was too long"),
            ClientError::InvalidCharacter(c) => {
                let mut r = String::from_str("message contained invalid character: `");
                let e = escape_char(*c);
                r.append(e.as_str());
                r.append("`");
                r
            },
            ClientError::Banned => String::from_str("banned"),
            ClientError::Internal => String::from_str("internal error"),
        }
    }
}

} // verus!
