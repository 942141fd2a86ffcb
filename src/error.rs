//! The error kinds of the library, kept apart until the host boundary.
use vstd::prelude::*;

verus! {

/// Why an operation of the library failed.
#[derive(Debug, Clone, Copy, PartialEq, Eq, Structural)]
pub enum ErrorKind {
    /// The stored identity does not authenticate under the password.
    WrongPassword,
    /// A stored record or a recovered key has the wrong shape.
    Corrupt,
    /// Parameters outside what the operation accepts.
    BadParams,
    /// A ciphertext failed authentication.
    AuthFailure,
    /// Input ended inside a frame.
    Truncated,
    /// Fewer distinct shares than the threshold they carry.
    InsufficientShares,
    /// A share that cannot be read.
    BadShare,
    /// The content store answered with a failure status.
    RemoteFailure,
    /// The content store could not be reached.
    TransportFailure,
    /// The content store's answer lacks what the protocol expects.
    ProtocolFailure,
    /// A message could not be published.
    SendFailed,
    /// A network frame too short to carry a sender key, or a bad peer key.
    MalformedFrame,
    /// The command channel is full.
    Busy,
    /// The random generator failed.
    InternalRng,
}

impl ErrorKind {
    /// The human-readable description of the kind. A wrong password and a
    /// tampered ciphertext read alike.
    pub open spec fn text(self) -> Seq<char> {
        match self {
            ErrorKind::WrongPassword => "authentication failed"@,
            ErrorKind::Corrupt => "stored data is corrupt"@,
            ErrorKind::BadParams => "invalid parameters"@,
            ErrorKind::AuthFailure => "authentication failed"@,
            ErrorKind::Truncated => "data is truncated"@,
            ErrorKind::InsufficientShares => "not enough shares to recover the key"@,
            ErrorKind::BadShare => "invalid share"@,
            ErrorKind::RemoteFailure => "content store returned an error"@,
            ErrorKind::TransportFailure => "content store is unreachable"@,
            ErrorKind::ProtocolFailure => "unexpected answer from content store"@,
            ErrorKind::SendFailed => "message could not be sent"@,
            ErrorKind::MalformedFrame => "malformed frame"@,
            ErrorKind::Busy => "busy"@,
            ErrorKind::InternalRng => "random generator failure"@,
        }
    }

    /// A human-readable description, as errors are shown at the host boundary.
    pub fn message(&self) -> (r: String)
        ensures
            r@ == self.text(),
    {
        let text = match self {
            ErrorKind::WrongPassword => "authentication failed",
            ErrorKind::Corrupt => "stored data is corrupt",
            ErrorKind::BadParams => "invalid parameters",
            ErrorKind::AuthFailure => "authentication failed",
            ErrorKind::Truncated => "data is truncated",
            ErrorKind::InsufficientShares => "not enough shares to recover the key",
            ErrorKind::BadShare => "invalid share",
            ErrorKind::RemoteFailure => "content store returned an error",
            ErrorKind::TransportFailure => "content store is unreachable",
            ErrorKind::ProtocolFailure => "unexpected answer from content store",
            ErrorKind::SendFailed => "message could not be sent",
            ErrorKind::MalformedFrame => "malformed frame",
            ErrorKind::Busy => "busy",
            ErrorKind::InternalRng => "random generator failure",
        };
        text.to_owned()
    }
}

} // verus!
