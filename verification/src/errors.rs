//! The failure vocabulary of the broker and its surrounding commands.
//! Transport failures close a session; command failures stay local to
//! one call.

use vstd::prelude::*;
use vstd::string::StringExecFns;

verus! {

/// Every failure the library reports.  `Network`, `Timeout` and
/// `Protocol` are transport-level; `Remote` carries what the peer
/// reported, verbatim; the rest belong to the surrounding commands.
#[derive(Debug)]
pub enum NoetError {
    /// Binding, accepting or writing on the socket failed.
    Network(String),
    /// No response arrived within the deadline.
    Timeout(String),
    /// A malformed frame: a truncated prefix or body, or a body that is
    /// not a well-formed envelope.
    Protocol(String),
    /// The peer answered `status: error`; its code and message, verbatim.
    Remote { code: String, message: String },
    /// A response arrived but carried no usable payload.
    Extension(String),
    AuthError(String),
    ConfigError(String),
    FileNotFound(String),
    ArticleNotFound(String),
    MissingField(String),
    InvalidInput(String),
    KeyringError(String),
    Unknown(String),
}

impl NoetError {
    /// The failure as text, naming its kind and its cause.
    pub fn message(&self) -> (r: String)
        ensures
            r@ == self.message_spec(),
    {
        match self {
            NoetError::Network(s) => String::from_str("Network error: ").concat(s.as_str()),
            NoetError::Timeout(s) => String::from_str("Timeout: ").concat(s.as_str()),
            NoetError::Protocol(s) => String::from_str("Protocol error: ").concat(s.as_str()),
            NoetError::Remote { code, message } => String::from_str("Extension error: ").concat(
                code.as_str(),
            ).concat(": ").concat(message.as_str()),
            NoetError::Extension(s) => String::from_str("Extension error: ").concat(s.as_str()),
            NoetError::AuthError(s) => String::from_str("Authentication failed: ").concat(
                s.as_str(),
            ),
            NoetError::ConfigError(s) => String::from_str("Configuration error: ").concat(
                s.as_str(),
            ),
            NoetError::FileNotFound(s) => String::from_str("File not found: ").concat(s.as_str()),
            NoetError::ArticleNotFound(s) => String::from_str("Article not found: ").concat(
                s.as_str(),
            ),
            NoetError::MissingField(s) => String::from_str("Missing required field: ").concat(
                s.as_str(),
            ),
            NoetError::InvalidInput(s) => String::from_str("Invalid input: ").concat(s.as_str()),
            NoetError::KeyringError(s) => String::from_str("Keyring error: ").concat(s.as_str()),
            NoetError::Unknown(s) => String::from_str("Unknown error: ").concat(s.as_str()),
        }
    }

    /// The text `message` returns.
    pub open spec fn message_spec(&self) -> Seq<char> {
        match self {
            NoetError::Network(s) => "Network error: "@ + s@,
            NoetError::Timeout(s) => "Timeout: "@ + s@,
            NoetError::Protocol(s) => "Protocol error: "@ + s@,
            NoetError::Remote { code, message } => "Extension error: "@ + code@ + ": "@ + message@,
            NoetError::Extension(s) => "Extension error: "@ + s@,
            NoetError::AuthError(s) => "Authentication failed: "@ + s@,
            NoetError::ConfigError(s) => "Configuration error: "@ + s@,
            NoetError::FileNotFound(s) => "File not found: "@ + s@,
            NoetError::ArticleNotFound(s) => "Article not found: "@ + s@,
            NoetError::MissingField(s) => "Missing required field: "@ + s@,
            NoetError::InvalidInput(s) => "Invalid input: "@ + s@,
            NoetError::KeyringError(s) => "Keyring error: "@ + s@,
            NoetError::Unknown(s) => "Unknown error: "@ + s@,
        }
    }
}

pub type NoetResult<T> = Result<T, NoetError>;

} // verus!