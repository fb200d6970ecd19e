//! The library's error taxonomy and its conversion into response codes.

use vstd::prelude::*;

verus! {

/// Every failure kind the library distinguishes. Command-level failures
/// (`NotFound`, `InvalidCommand`, `ConvertError`) carry a description that is
/// reported back to the client; the remaining kinds surface as status 500 or
/// terminate the owning exchange.
#[derive(Clone, PartialEq, Eq, Debug)]
pub enum KvError {
    NotFound(String),
    InvalidCommand(String),
    ConvertError(String),
    StorageError(String),
    FrameError,
    CertificateParseError(String),
    TlsError(String),
    YamuxError(String),
    IoError(String),
    EncodeError,
    DecodeError,
    Internal(String),
}

impl KvError {
    /// The response status code this error converts to.
    pub open spec fn spec_status(&self) -> u32 {
        match self {
            KvError::NotFound(_) => 404,
            KvError::InvalidCommand(_) => 400,
            KvError::ConvertError(_) => 422,
            _ => 500,
        }
    }

    /// The prefix of the message a response built from this error carries.
    pub open spec fn spec_message_prefix(&self) -> Seq<char> {
        match self {
            KvError::NotFound(_) => "Not found: "@,
            KvError::InvalidCommand(_) => "Invalid command: "@,
            KvError::ConvertError(_) => "Convert error: "@,
            KvError::StorageError(_) => "Storage error: "@,
            KvError::FrameError => "Frame error"@,
            KvError::CertificateParseError(_) => "Certificate parse error: "@,
            KvError::TlsError(_) => "TLS error: "@,
            KvError::YamuxError(_) => "Multiplexer error: "@,
            KvError::IoError(_) => "I/O error: "@,
            KvError::EncodeError => "Encode error"@,
            KvError::DecodeError => "Decode error"@,
            KvError::Internal(_) => "Internal error: "@,
        }
    }

    /// The detail text this error carries, if any.
    pub open spec fn spec_detail(&self) -> Seq<char> {
        match self {
            KvError::NotFound(s) => s@,
            KvError::InvalidCommand(s) => s@,
            KvError::ConvertError(s) => s@,
            KvError::StorageError(s) => s@,
            KvError::CertificateParseError(s) => s@,
            KvError::TlsError(s) => s@,
            KvError::YamuxError(s) => s@,
            KvError::IoError(s) => s@,
            KvError::Internal(s) => s@,
            _ => Seq::empty(),
        }
    }

    /// The full message a response built from this error carries.
    pub open spec fn spec_message(&self) -> Seq<char> {
        self.spec_message_prefix() + self.spec_detail()
    }

    /// The response status code this error converts to.
    pub fn status_code(&self) -> (r: u32)
        ensures
            r == self.spec_status(),
    {
        match self {
            KvError::NotFound(_) => 404,
            KvError::InvalidCommand(_) => 400,
            KvError::ConvertError(_) => 422,
            _ => 500,
        }
    }

    /// Renders the error as the message text of a response.
    pub fn message_text(&self) -> (r: String)
        ensures
            r@ == self.spec_message(),
    {
        let (prefix, detail): (&str, Option<&String>) = match self {
            KvError::NotFound(s) => ("Not found: ", Some(s)),
            KvError::InvalidCommand(s) => ("Invalid command: ", Some(s)),
            KvError::ConvertError(s) => ("Convert error: ", Some(s)),
            KvError::StorageError(s) => ("Storage error: ", Some(s)),
            KvError::FrameError => ("Frame error", None),
            KvError::CertificateParseError(s) => ("Certificate parse error: ", Some(s)),
            KvError::TlsError(s) => ("TLS error: ", Some(s)),
            KvError::YamuxError(s) => ("Multiplexer error: ", Some(s)),
            KvError::IoError(s) => ("I/O error: ", Some(s)),
            KvError::EncodeError => ("Encode error", None),
            KvError::DecodeError => ("Decode error", None),
            KvError::Internal(s) => ("Internal error: ", Some(s)),
        };
        let mut out = prefix.to_owned();
        match detail {
            Some(s) => {
                out.append(s.as_str());
                assert(out@ == self.spec_message());
            },
            None => {
                assert(self.spec_detail() == Seq::<char>::empty());
                assert(out@ == self.spec_message());
            },
        }
        out
    }
}

} // verus!
