//! Headers and requests.
use azure_core::http::headers::{HeaderName, Headers};
use vstd::prelude::*;

verus! {

broadcast use vstd::string::group_string_axioms;

pub const HEADER_METADATA: &'static str = "metadata";

pub const HEADER_WWW_AUTHENTICATE: &'static str = "www-authenticate";

pub const HEADER_AUTHORIZATION: &'static str = "authorization";

/// The header collection of `azure_core`.
#[verifier::external_type_specification]
#[verifier::external_body]
pub struct ExHeaders(Headers);

/// What a header collection holds: the value of each header name.
pub uninterp spec fn header_map(headers: Headers) -> Map<Seq<char>, Seq<char>>;

/// No header at all.
pub open spec fn no_header() -> Map<Seq<char>, Seq<char>> {
    Map::empty()
}

/// Whether `s` may name a header: small ASCII letters and hyphens.
pub open spec fn header_name(s: Seq<char>) -> bool {
    forall|i: int| 0 <= i < s.len() ==> 'a' <= #[trigger] s[i] <= 'z' || s[i] == '-'
}

/// Calls `Headers::new`. Claimed: the collection holds no header.
#[verifier::external_body]
pub(crate) fn no_headers() -> (r: Headers)
    ensures
        header_map(r) == no_header(),
{
    Headers::new()
}

/// Calls `Headers::insert`. Claimed: the header gets the value, in place of one that it may
/// have had, and no other header changes. A name with a capital makes the call panic.
#[verifier::external_body]
pub(crate) fn insert_header(headers: &mut Headers, name: &'static str, value: String)
    requires
        header_name(name@),
    ensures
        header_map(*final(headers)) == header_map(*old(headers)).insert(name@, value@),
{
    headers.insert(name, value);
}

/// Calls `Headers::get_str`. Claimed: it gives the value of the header, and fails where the
/// collection does not hold the header. A name with a capital makes the call panic.
#[verifier::external_body]
pub(crate) fn header_value(headers: &Headers, name: &'static str) -> (r: Option<String>)
    requires
        header_name(name@),
    ensures
        r is Some <==> header_map(*headers).contains_key(name@),
        r is Some ==> r->0@ == header_map(*headers)[name@],
{
    headers.get_str(&HeaderName::from_static(name)).ok().map(|value| value.to_string())
}

/// A `GET` request.
pub struct ArcRequest {
    pub url: String,
    pub headers: Headers,
}

/// A `GET` request, as a mathematical value.
pub struct RequestView {
    pub url: Seq<char>,
    pub headers: Map<Seq<char>, Seq<char>>,
}

impl View for ArcRequest {
    type V = RequestView;

    open spec fn view(&self) -> RequestView {
        RequestView { url: self.url@, headers: header_map(self.headers) }
    }
}

/// The headers of the request that asks for the challenge.
pub open spec fn challenge_headers() -> Map<Seq<char>, Seq<char>> {
    no_header().insert(HEADER_METADATA@, "true"@)
}

/// The request that asks for the challenge.
pub open spec fn challenge_request(url: Seq<char>) -> RequestView {
    RequestView { url, headers: challenge_headers() }
}

/// The request that answers the challenge with the text of the secret.
pub open spec fn authorized_request(url: Seq<char>, secret: Seq<char>) -> RequestView {
    RequestView {
        url,
        headers: challenge_headers().insert(HEADER_AUTHORIZATION@, "Basic "@ + secret),
    }
}

/// Makes the request that asks for the challenge.
pub fn ask_for_challenge(url: &str) -> (r: ArcRequest)
    ensures
        r@ == challenge_request(url@),
{
    proof {
        reveal_strlit("metadata");
    }
    let mut headers: Headers = no_headers();
    insert_header(&mut headers, HEADER_METADATA, "true".to_owned());
    ArcRequest { url: url.to_owned(), headers }
}

/// Makes the request that answers the challenge with the text of the secret.
pub fn answer_challenge(url: &str, secret: &str) -> (r: ArcRequest)
    ensures
        r@ == authorized_request(url@, secret@),
        r.url@ == url@,
        header_map(r.headers).contains_key("authorization"@),
        header_map(r.headers)["authorization"@] == "Basic "@ + secret@,
{
    proof {
        reveal_strlit("authorization");
    }
    let mut request: ArcRequest = ask_for_challenge(url);
    let mut value: String = "Basic ".to_owned();
    value.append(secret);
    insert_header(&mut request.headers, HEADER_AUTHORIZATION, value);
    request
}

/// The challenge that a header collection holds.
pub open spec fn challenge_in(headers: Headers) -> Option<Seq<char>> {
    if header_map(headers).contains_key(HEADER_WWW_AUTHENTICATE@) {
        Some(header_map(headers)[HEADER_WWW_AUTHENTICATE@])
    } else {
        None
    }
}

/// Looks up the challenge in the headers of a response.
pub fn www_authenticate(headers: &Headers) -> (r: Option<String>)
    ensures
        crate::text::text_of(r) == challenge_in(*headers),
{
    proof {
        reveal_strlit("www-authenticate");
    }
    header_value(headers, HEADER_WWW_AUTHENTICATE)
}

/// Whether a status is that of a success.
pub open spec fn success(status: u16) -> bool {
    200 <= status < 300
}

/// Whether a status is that of a success.
pub fn is_success(status: u16) -> (r: bool)
    ensures
        r == success(status),
{
    200 <= status && status < 300
}

}
