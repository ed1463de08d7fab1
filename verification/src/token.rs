//! Tokens and their expiry.
use crate::text;
use crate::text::parse_i64;
use azure_core::time::OffsetDateTime;
use vstd::prelude::*;

verus! {

broadcast use vstd::string::group_string_axioms;

/// The first second of the year -9999, in seconds from the Unix epoch.
pub const FIRST_TIMESTAMP: i64 = -377705116800;

/// The last second of the year 9999, in seconds from the Unix epoch.
pub const LAST_TIMESTAMP: i64 = 253402300799;

/// An access token. It has no `Debug`, so that the token does not get into a log.
#[derive(PartialEq, Eq)]
pub struct AccessToken {
    pub token: String,
    /// When the token expires, in seconds from the Unix epoch.
    pub expires_on: i64,
}

/// An access token, as a mathematical value.
pub struct TokenView {
    pub token: Seq<char>,
    pub expires_on: i64,
}

impl View for AccessToken {
    type V = TokenView;

    open spec fn view(&self) -> TokenView {
        TokenView { token: self.token@, expires_on: self.expires_on }
    }
}

impl AccessToken {
    /// A copy of the token.
    pub fn duplicate(&self) -> (r: AccessToken)
        ensures
            r@ == self@,
    {
        AccessToken { token: self.token.clone(), expires_on: self.expires_on }
    }
}

/// Calls `OffsetDateTime::from_unix_timestamp`, which `azure_core` takes from the `time` crate,
/// and gives the timestamp of the result. Claimed: it succeeds from the first second of the
/// year -9999 to the last of the year 9999, and stands for the second that was asked for.
#[verifier::external_body]
pub(crate) fn offset_date_time(timestamp: i64) -> (r: Option<i64>)
    ensures
        r is Some <==> FIRST_TIMESTAMP <= timestamp <= LAST_TIMESTAMP,
        r is Some ==> r->0 == timestamp,
{
    OffsetDateTime::from_unix_timestamp(timestamp).ok().map(|time| time.unix_timestamp())
}

/// Why a time of expiry cannot be read.
#[derive(Debug, Clone, Copy, PartialEq, Eq)]
pub enum ExpiresOnError {
    /// It is not a 64-bit integer.
    NotAnInteger,
    /// It lies outside the years from -9999 to 9999.
    OutOfRange,
}

/// The time of expiry that `s` gives.
pub open spec fn expires_on(s: Seq<char>) -> Result<i64, ExpiresOnError> {
    match text::i64_value(s) {
        None => Err(ExpiresOnError::NotAnInteger),
        Some(t) => if FIRST_TIMESTAMP <= t <= LAST_TIMESTAMP {
            Ok(t)
        } else {
            Err(ExpiresOnError::OutOfRange)
        },
    }
}

/// Reads a time of expiry: the seconds from the Unix epoch, in decimal.
pub fn expires_on_string(v: &str) -> (r: Result<i64, ExpiresOnError>)
    ensures
        r == expires_on(v@),
{
    match parse_i64(v) {
        None => Err(ExpiresOnError::NotAnInteger),
        Some(timestamp) => match offset_date_time(timestamp) {
            Some(t) => Ok(t),
            None => Err(ExpiresOnError::OutOfRange),
        },
    }
}

}
