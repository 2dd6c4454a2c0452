//! The closed error taxonomy of the HTTP engine.
use vstd::prelude::*;

verus! {

/// Everything that can go wrong while serving one HTTP client
/// connection. Per-connection errors are reported by the caller and
/// the connection is closed; none of them is fatal to a listener.
#[derive(Debug, Clone)]
pub enum HttpError {
    /// The header block grew past the 64 KiB bound without terminating.
    HeaderToBig,
    /// The stream ended before the header terminator arrived.
    HeaderIncomplete,
    /// The header block is not valid UTF-8.
    HeaderNotUtf8,
    /// The request line or a header line does not match the grammar.
    HeaderParseError,
    /// The upstream status line or a header line does not match the grammar.
    ResponceHeaderParseError,
    /// The request URL names a scheme other than `http`.
    UrlProtocolInvalid,
    /// The named `host:port` could not be resolved or dialed.
    TargetUnreachable(String),
    /// A relay after CONNECT failed.
    LimitedTranciever,
    /// A read failed while forwarding a length-delimited body.
    LimitedTrancieverRead,
    /// A write failed while forwarding a length-delimited body.
    LimitedTrancieverWrite,
    /// A read failed while reading a CRLF-terminated line.
    LineRead,
    /// A line grew past the 1 KiB bound without a CRLF terminator.
    LineTooLong,
    /// A line is not valid UTF-8.
    LineNotUtf8,
    /// A chunk-size line failed to parse, or forwarding a chunk failed.
    ChunkTranciever,
    /// An unexpected operating-system-level failure.
    Internal,
}

impl HttpError {
    /// A short stable name for log lines.
    pub fn describe(&self) -> &'static str {
        match self {
            HttpError::HeaderToBig => "HeaderToBig",
            HttpError::HeaderIncomplete => "HeaderIncomplete",
            HttpError::HeaderNotUtf8 => "HeaderNotUtf8",
            HttpError::HeaderParseError => "HeaderParseError",
            HttpError::ResponceHeaderParseError => "ResponceHeaderParseError",
            HttpError::UrlProtocolInvalid => "UrlProtocolInvalid",
            HttpError::TargetUnreachable(_) => "TargetUnreachable",
            HttpError::LimitedTranciever => "LimitedTranciever",
            HttpError::LimitedTrancieverRead => "LimitedTrancieverRead",
            HttpError::LimitedTrancieverWrite => "LimitedTrancieverWrite",
            HttpError::LineRead => "LineRead",
            HttpError::LineTooLong => "LineTooLong",
            HttpError::LineNotUtf8 => "LineNotUtf8",
            HttpError::ChunkTranciever => "ChunkTranciever",
            HttpError::Internal => "Internal",
        }
    }
}

} // verus!
