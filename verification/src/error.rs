//! The ways in which getting a token can fail, and what is said of each.
use crate::text;
use crate::text::decimal_text;
use azure_core::error::{http_response_from_body, ErrorKind};
use azure_core::http::StatusCode;
use vstd::prelude::*;

verus! {

broadcast use vstd::string::group_string_axioms;

/// The largest secret file that is accepted, in bytes.
pub const ARC_MAX_FILE_SIZE: u64 = 4096;

/// An unsuccessful HTTP response.
#[derive(Debug, PartialEq, Eq)]
pub struct HttpFailure {
    pub status: u16,
    /// The error code that the body of the response gives.
    pub error_code: Option<String>,
}

/// An unsuccessful HTTP response, as a mathematical value.
pub struct HttpFailureView {
    pub status: u16,
    pub error_code: Option<Seq<char>>,
}

impl View for HttpFailure {
    type V = HttpFailureView;

    open spec fn view(&self) -> HttpFailureView {
        HttpFailureView { status: self.status, error_code: text::text_of(self.error_code) }
    }
}

/// Why no token was obtained.
#[derive(Debug, PartialEq, Eq)]
pub enum ArcError {
    /// The endpoint is not a URL.
    InvalidEndpoint { endpoint: String },
    /// The number of scopes is not one.
    ScopeCount,
    /// The URL of the request would not fit in 4 GiB.
    RequestTooLong,
    /// The unauthenticated request was granted.
    Unchallenged { status: u16 },
    /// The service refused a request.
    Http(HttpFailure),
    /// The challenge has no `www-authenticate` header.
    MissingChallenge,
    /// The challenge does not name a path.
    MissingRealm,
    /// The secret file is not a key file.
    SecretExtension,
    /// There is no secret file.
    SecretMissing,
    /// The secret file does not stand where it should.
    SecretDirectory { expected: String, found: String },
    /// The secret file cannot be read.
    SecretUnreadable { path: String },
    /// The secret file is larger than allowed.
    SecretTooLarge { size: u64 },
    /// The token response cannot be decoded.
    InvalidTokenResponse,
}

/// Why no token was obtained, as a mathematical value.
pub enum ArcErrorView {
    InvalidEndpoint { endpoint: Seq<char> },
    ScopeCount,
    RequestTooLong,
    Unchallenged { status: u16 },
    Http(HttpFailureView),
    MissingChallenge,
    MissingRealm,
    SecretExtension,
    SecretMissing,
    SecretDirectory { expected: Seq<char>, found: Seq<char> },
    SecretUnreadable { path: Seq<char> },
    SecretTooLarge { size: u64 },
    InvalidTokenResponse,
}

impl View for ArcError {
    type V = ArcErrorView;

    open spec fn view(&self) -> ArcErrorView {
        match self {
            ArcError::InvalidEndpoint { endpoint } => ArcErrorView::InvalidEndpoint {
                endpoint: endpoint@,
            },
            ArcError::ScopeCount => ArcErrorView::ScopeCount,
            ArcError::RequestTooLong => ArcErrorView::RequestTooLong,
            ArcError::Unchallenged { status } => ArcErrorView::Unchallenged { status: *status },
            ArcError::Http(failure) => ArcErrorView::Http(failure@),
            ArcError::MissingChallenge => ArcErrorView::MissingChallenge,
            ArcError::MissingRealm => ArcErrorView::MissingRealm,
            ArcError::SecretExtension => ArcErrorView::SecretExtension,
            ArcError::SecretMissing => ArcErrorView::SecretMissing,
            ArcError::SecretDirectory { expected, found } => ArcErrorView::SecretDirectory {
                expected: expected@,
                found: found@,
            },
            ArcError::SecretUnreadable { path } => ArcErrorView::SecretUnreadable { path: path@ },
            ArcError::SecretTooLarge { size } => ArcErrorView::SecretTooLarge { size: *size },
            ArcError::InvalidTokenResponse => ArcErrorView::InvalidTokenResponse,
        }
    }
}

impl ArcErrorView {
    /// The message of a credential error. A refusal by the service is told by its status and
    /// error code instead; a request that cannot be formed, or a challenge that cannot be
    /// read, has no message.
    pub open spec fn message(self) -> Option<Seq<char>> {
        match self {
            ArcErrorView::InvalidEndpoint { endpoint } => Some(
                "Azure Arc endpoint must be a valid URL, got '"@ + endpoint + "'"@,
            ),
            ArcErrorView::ScopeCount => Some(
                "Azure Arc managed identity requires exactly one scope"@,
            ),
            ArcErrorView::RequestTooLong => None,
            ArcErrorView::Unchallenged { status } => Some(
                "Azure Arc challenge expected HTTP 401, received "@ + text::decimal(status as nat),
            ),
            ArcErrorView::Http(_) => None,
            ArcErrorView::MissingChallenge => Some(
                "Azure Arc response missing www-authenticate header"@,
            ),
            ArcErrorView::MissingRealm => Some(
                "Azure Arc www-authenticate header missing expected Basic realm path"@,
            ),
            ArcErrorView::SecretExtension => Some(
                "Azure Arc secret file must have .key extension"@,
            ),
            ArcErrorView::SecretMissing => Some("Azure Arc secret file does not exist"@),
            ArcErrorView::SecretDirectory { expected, found } => Some(
                "Azure Arc secret file directory mismatch (expected "@ + expected + ", got "@
                    + found + ")"@,
            ),
            ArcErrorView::SecretUnreadable { path } => Some(
                "Azure Arc failed to read secret file '"@ + path + "'"@,
            ),
            ArcErrorView::SecretTooLarge { size } => Some(
                "Azure Arc secret file too large ("@ + text::decimal(size as nat)
                    + " bytes, max "@ + text::decimal(ARC_MAX_FILE_SIZE as nat) + ")"@,
            ),
            ArcErrorView::InvalidTokenResponse => Some("Azure Arc token response invalid JSON"@),
        }
    }
}

fn quoted(before: &str, quote: &str) -> (r: String)
    ensures
        r@ == before@ + quote@ + "'"@,
{
    let mut r: String = before.to_owned();
    r.append(quote);
    r.append("'");
    r
}

impl ArcError {
    /// The message of a credential error, where it has one.
    pub fn message(&self) -> (r: Option<String>)
        ensures
            text::text_of(r) == self@.message(),
    {
        match self {
            ArcError::InvalidEndpoint { endpoint } => Some(
                quoted("Azure Arc endpoint must be a valid URL, got '", endpoint.as_str()),
            ),
            ArcError::ScopeCount => Some(
                "Azure Arc managed identity requires exactly one scope".to_owned(),
            ),
            ArcError::RequestTooLong => None,
            ArcError::Unchallenged { status } => {
                let mut r: String = "Azure Arc challenge expected HTTP 401, received ".to_owned();
                r.append(decimal_text(*status as u64).as_str());
                Some(r)
            },
            ArcError::Http(_) => None,
            ArcError::MissingChallenge => Some(
                "Azure Arc response missing www-authenticate header".to_owned(),
            ),
            ArcError::MissingRealm => Some(
                "Azure Arc www-authenticate header missing expected Basic realm path".to_owned(),
            ),
            ArcError::SecretExtension => Some(
                "Azure Arc secret file must have .key extension".to_owned(),
            ),
            ArcError::SecretMissing => Some("Azure Arc secret file does not exist".to_owned()),
            ArcError::SecretDirectory { expected, found } => {
                let mut r: String =
                    "Azure Arc secret file directory mismatch (expected ".to_owned();
                r.append(expected.as_str());
                r.append(", got ");
                r.append(found.as_str());
                r.append(")");
                Some(r)
            },
            ArcError::SecretUnreadable { path } => Some(
                quoted("Azure Arc failed to read secret file '", path.as_str()),
            ),
            ArcError::SecretTooLarge { size } => {
                let mut r: String = "Azure Arc secret file too large (".to_owned();
                r.append(decimal_text(*size).as_str());
                r.append(" bytes, max ");
                r.append(decimal_text(ARC_MAX_FILE_SIZE).as_str());
                r.append(")");
                Some(r)
            },
            ArcError::InvalidTokenResponse => Some(
                "Azure Arc token response invalid JSON".to_owned(),
            ),
        }
    }
}

/// The error code that `azure_core::error::http_response_from_body` finds in a response body.
pub uninterp spec fn error_code_in_body(body: Seq<u8>) -> Option<Seq<char>>;

/// Calls `azure_core::error::http_response_from_body`. Claimed of it: the error kind is that
/// of an HTTP response, its status is the one given, and its error code is a function of the
/// body alone, named by `error_code_in_body`.
#[verifier::external_body]
pub(crate) fn http_failure(status: u16, body: &[u8]) -> (r: Option<HttpFailure>)
    ensures
        r is Some,
        r->0@.status == status,
        r->0@.error_code == error_code_in_body(body@),
{
    match http_response_from_body(StatusCode::from(status), body) {
        ErrorKind::HttpResponse { status, error_code } => Some(
            HttpFailure { status: u16::from(status), error_code },
        ),
        _ => None,
    }
}

/// The error for a refusal by the service.
pub fn refusal(status: u16, body: &[u8]) -> (r: ArcError)
    ensures
        r@ == ArcErrorView::Http(
            HttpFailureView { status, error_code: error_code_in_body(body@) },
        ),
{
    ArcError::Http(http_failure(status, body).unwrap())
}

}
