//! The error taxonomy of a reconciliation pass: what could not be sent,
//! what came back malformed, and what the provider itself rejected. Each
//! error renders to one diagnostic line.

use vstd::prelude::*;
use vstd::string::StringExecFns;

verus! {

/// Why a provider operation failed.
pub enum DnessErrorKind {
    /// The request could not be sent at all.
    SendHttp { url: String, context: String },
    /// The response carried a non-success status.
    BadResponse { url: String, context: String },
    /// The response body could not be decoded.
    Deserialize { url: String, context: String },
    /// A provider-specific diagnostic, such as a rejected form write.
    Message(String),
}

/// A failure of one provider operation.
pub struct DnessError {
    kind: DnessErrorKind,
}

impl DnessError {
    /// What failed.
    pub closed spec fn spec_kind(self) -> DnessErrorKind {
        self.kind
    }

    /// A send failure for the given endpoint and operation.
    pub fn send_http(url: &String, context: &String) -> (r: DnessError)
        ensures
            r.spec_kind() == (DnessErrorKind::SendHttp { url: *url, context: *context }),
    {
        DnessError { kind: DnessErrorKind::SendHttp { url: url.clone(), context: context.clone() } }
    }

    /// A non-success status for the given endpoint and operation.
    pub fn bad_response(url: &String, context: &String) -> (r: DnessError)
        ensures
            r.spec_kind() == (DnessErrorKind::BadResponse { url: *url, context: *context }),
    {
        DnessError {
            kind: DnessErrorKind::BadResponse { url: url.clone(), context: context.clone() },
        }
    }

    /// An undecodable body for the given endpoint and operation.
    pub fn deserialize(url: &String, context: &String) -> (r: DnessError)
        ensures
            r.spec_kind() == (DnessErrorKind::Deserialize { url: *url, context: *context }),
    {
        DnessError {
            kind: DnessErrorKind::Deserialize { url: url.clone(), context: context.clone() },
        }
    }

    /// A provider-specific diagnostic.
    pub fn message(msg: String) -> (r: DnessError)
        ensures
            r.spec_kind() == DnessErrorKind::Message(msg),
    {
        DnessError { kind: DnessErrorKind::Message(msg) }
    }

    /// The diagnostic line this error renders to.
    pub fn render(&self) -> (r: String)
        ensures
            r@ == self.spec_kind().render_text(),
    {
        match &self.kind {
            DnessErrorKind::SendHttp { url, context } => {
                let mut s = String::from_str("unable to send http request for ");
                s.append(context.as_str());
                s.append(": url attempted: ");
                s.append(url.as_str());
                s
            },
            DnessErrorKind::BadResponse { url, context } => {
                let mut s = String::from_str("received bad http response for ");
                s.append(context.as_str());
                s.append(": url attempted: ");
                s.append(url.as_str());
                s
            },
            DnessErrorKind::Deserialize { url, context } => {
                let mut s = String::from_str("unable to deserialize response for ");
                s.append(context.as_str());
                s.append(": url attempted: ");
                s.append(url.as_str());
                s
            },
            DnessErrorKind::Message(msg) => msg.clone(),
        }
    }
}

impl DnessErrorKind {
    /// The diagnostic line an error of this kind renders to.
    pub open spec fn render_text(self) -> Seq<char> {
        match self {
            DnessErrorKind::SendHttp { url, context } => "unable to send http request for "@
                + context@ + ": url attempted: "@ + url@,
            DnessErrorKind::BadResponse { url, context } => "received bad http response for "@
                + context@ + ": url attempted: "@ + url@,
            DnessErrorKind::Deserialize { url, context } => "unable to deserialize response for "@
                + context@ + ": url attempted: "@ + url@,
            DnessErrorKind::Message(msg) => msg@,
        }
    }
}

} // verus!
