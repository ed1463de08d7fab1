//! URLs: the endpoint, and the query that every request carries.
use crate::text::chars_of;
use azure_core::http::Url;
use vstd::prelude::*;
use vstd::utf8::*;

verus! {

broadcast use vstd::string::group_string_axioms;

/// The version of the protocol.
pub const API_VERSION: &'static str = "2020-06-01";

/// The endpoint that is used where the environment names none.
pub const DEFAULT_ENDPOINT: &'static str = "http://127.0.0.1:40342/metadata/identity/oauth2/token";

/// The query parameter that holds the version.
pub const API_VERSION_KEY: &'static str = "api-version";

/// The query parameter that holds the resource.
pub const RESOURCE_KEY: &'static str = "resource";

/// The capital hexadecimal digit for a value below sixteen.
pub open spec fn hex_digit(n: int) -> char {
    if n < 10 {
        (48 + n) as char
    } else {
        (55 + n) as char
    }
}

/// Whether a byte stands for itself in `application/x-www-form-urlencoded` text.
pub open spec fn form_plain(b: u8) -> bool {
    ||| 0x30 <= b <= 0x39
    ||| 0x41 <= b <= 0x5a
    ||| 0x61 <= b <= 0x7a
    ||| b == 0x2a
    ||| b == 0x2d
    ||| b == 0x2e
    ||| b == 0x5f
}

/// A byte in `application/x-www-form-urlencoded` text.
pub open spec fn form_byte(b: u8) -> Seq<char> {
    if form_plain(b) {
        seq![b as char]
    } else if b == 0x20 {
        seq!['+']
    } else {
        seq!['%', hex_digit(b as int / 16), hex_digit(b as int % 16)]
    }
}

/// Bytes in `application/x-www-form-urlencoded` text.
pub open spec fn form_bytes(bytes: Seq<u8>) -> Seq<char>
    decreases bytes.len(),
{
    if bytes.len() == 0 {
        seq![]
    } else {
        form_byte(bytes[0]) + form_bytes(bytes.drop_first())
    }
}

/// A text in `application/x-www-form-urlencoded` text.
pub open spec fn form_encode(s: Seq<char>) -> Seq<char> {
    form_bytes(encode_utf8(s))
}

/// The index of the first `c` in `s`, or the length of `s` where there is none.
pub open spec fn position(s: Seq<char>, c: char) -> int
    decreases s.len(),
{
    if s.len() == 0 || s[0] == c {
        0
    } else {
        1 + position(s.drop_first(), c)
    }
}

/// What stands between a URL without its fragment and a query pair that is appended to it.
pub open spec fn query_separator(base: Seq<char>) -> Seq<char> {
    let query = position(base, '?');
    if query == base.len() {
        seq!['?']
    } else if query == base.len() - 1 {
        seq![]
    } else {
        seq!['&']
    }
}

/// `url` with one more pair at the end of its query.
pub open spec fn with_query_pair(url: Seq<char>, key: Seq<char>, value: Seq<char>) -> Seq<char> {
    let base = url.take(position(url, '#'));
    let fragment = url.skip(position(url, '#'));
    base + query_separator(base) + form_encode(key) + seq!['='] + form_encode(value) + fragment
}

/// The text of the URL that `Url::parse` makes of `s`, or nothing where `s` is not a URL.
pub uninterp spec fn parsed_url(s: Seq<char>) -> Option<Seq<char>>;

/// Calls `Url::parse`, which `azure_core` takes from the `url` crate, and gives the text of the
/// URL. Its result is a function of the text alone, named by `parsed_url`.
#[verifier::external_body]
pub(crate) fn parse_url(s: &str) -> (r: Option<String>)
    ensures
        crate::text::text_of(r) == parsed_url(s@),
{
    Url::parse(s).ok().map(String::from)
}

/// Calls `Url::query_pairs_mut` and, on what it gives, `append_pair` twice. Claimed: where `s`
/// is a URL, each pair goes to the end of its query, in `application/x-www-form-urlencoded`
/// text, behind a `?` or a `&` where one is due, and the rest of the URL stays as it is.
/// The positions in a URL are 32-bit numbers, which bounds the length.
#[verifier::external_body]
pub(crate) fn append_query_pairs(
    s: &str,
    key1: &str,
    value1: &str,
    key2: &str,
    value2: &str,
) -> (r: Option<String>)
    requires
        parsed_url(s@) matches Some(url) ==> with_query_pair(
            with_query_pair(url, key1@, value1@),
            key2@,
            value2@,
        ).len() <= u32::MAX,
    ensures
        r is Some <==> parsed_url(s@) is Some,
        r is Some ==> r->0@ == with_query_pair(
            with_query_pair(parsed_url(s@)->0, key1@, value1@),
            key2@,
            value2@,
        ),
{
    let mut url = Url::parse(s).ok()?;
    url.query_pairs_mut().append_pair(key1, value1).append_pair(key2, value2);
    Some(String::from(url))
}

/// Whether a slash is still due between `base`, a URL without its fragment, and the query: the
/// URL has no query yet, and its path does not end in a slash.
pub open spec fn slash_is_due(base: Seq<char>) -> bool {
    position(base, '?') == base.len() && !(base.len() > 0 && base.last() == '/')
}

/// `endpoint` with a slash at the end of its path, where one is due before the query.
pub open spec fn with_slash(endpoint: Seq<char>) -> Seq<char> {
    let base = endpoint.take(position(endpoint, '#'));
    let fragment = endpoint.skip(position(endpoint, '#'));
    if slash_is_due(base) {
        base + seq!['/'] + fragment
    } else {
        endpoint
    }
}

/// `url` with the version and the resource at the end of its query.
pub open spec fn with_token_query(url: Seq<char>, resource: Seq<char>) -> Seq<char> {
    with_query_pair(
        with_query_pair(url, API_VERSION_KEY@, API_VERSION@),
        RESOURCE_KEY@,
        resource,
    )
}

/// The URL of both requests for a token.
pub open spec fn token_url(endpoint: Seq<char>, resource: Seq<char>) -> Seq<char> {
    with_token_query(with_slash(endpoint), resource)
}

/// Whether the URL of the requests fits in the 32 bits that a URL has for its length.
pub open spec fn token_url_fits(endpoint: Seq<char>, resource: Seq<char>) -> bool {
    token_url(endpoint, resource).len() <= u32::MAX
}

/// Where the first `c` of a text stands.
pub proof fn lemma_position(s: Seq<char>, c: char)
    ensures
        0 <= position(s, c) <= s.len(),
        position(s, c) < s.len() ==> s[position(s, c)] == c,
        forall|i: int| 0 <= i < position(s, c) ==> s[i] != c,
    decreases s.len(),
{
    if s.len() > 0 && s[0] != c {
        lemma_position(s.drop_first(), c);
        assert forall|i: int| 0 <= i < position(s, c) implies s[i] != c by {
            if i > 0 {
                assert(s[i] == s.drop_first()[i - 1]);
            }
        }
    }
}

/// A position is told by what stands there and before it.
proof fn lemma_position_is(s: Seq<char>, c: char, n: int)
    requires
        0 <= n <= s.len(),
        forall|i: int| 0 <= i < n ==> s[i] != c,
        n < s.len() ==> s[n] == c,
    ensures
        position(s, c) == n,
    decreases n,
{
    if n > 0 {
        assert(s[0] != c);
        assert forall|i: int| 0 <= i < n - 1 implies s.drop_first()[i] != c by {
            assert(s.drop_first()[i] == s[i + 1]);
        }
        lemma_position_is(s.drop_first(), c, n - 1);
    }
}

proof fn lemma_form_bytes_plain(s: Seq<char>, bytes: Seq<u8>)
    requires
        is_ascii_chars(s),
        s.len() == bytes.len(),
        forall|i: int| 0 <= i < s.len() ==> form_plain(#[trigger] bytes[i]),
        forall|i: int| 0 <= i < s.len() ==> #[trigger] s[i] as u8 == bytes[i],
    ensures
        form_bytes(bytes) == s,
    decreases s.len(),
{
    if s.len() > 0 {
        let t = s.drop_first();
        let b = bytes.drop_first();
        assert forall|i: int| 0 <= i < t.len() implies '\0' <= #[trigger] t[i] <= '\u{7f}' by {
            assert(t[i] == s[i + 1]);
        }
        assert forall|i: int| 0 <= i < t.len() implies form_plain(#[trigger] b[i]) by {
            assert(b[i] == bytes[i + 1]);
        }
        assert forall|i: int| 0 <= i < t.len() implies #[trigger] t[i] as u8 == b[i] by {
            assert(t[i] == s[i + 1]);
        }
        lemma_form_bytes_plain(t, b);
        assert(s[0] as u8 == bytes[0]);
        assert('\0' <= s[0] <= '\u{7f}');
        assert(bytes[0] as char == s[0]);
        assert(form_bytes(bytes) =~= s);
    } else {
        assert(form_bytes(bytes) =~= s);
    }
}

/// A character stands no earlier than it first occurs.
pub proof fn lemma_position_at_most(s: Seq<char>, c: char, i: int)
    requires
        0 <= i < s.len(),
        s[i] == c,
    ensures
        0 <= position(s, c) <= i,
    decreases i,
{
    if s[0] != c {
        lemma_position_at_most(s.drop_first(), c, i - 1);
    }
}

proof fn lemma_position_absent(s: Seq<char>, c: char)
    requires
        forall|i: int| 0 <= i < s.len() ==> s[i] != c,
    ensures
        position(s, c) == s.len(),
{
    lemma_position_is(s, c, s.len() as int);
}

/// A pair is appended to what stands before the fragment.
proof fn lemma_pair_goes_before_fragment(
    base: Seq<char>,
    fragment: Seq<char>,
    key: Seq<char>,
    value: Seq<char>,
)
    requires
        forall|i: int| 0 <= i < base.len() ==> base[i] != '#',
        fragment.len() > 0 ==> fragment[0] == '#',
    ensures
        with_query_pair(base + fragment, key, value) == base + query_separator(base)
            + form_encode(key) + seq!['='] + form_encode(value) + fragment,
{
    let whole = base + fragment;
    lemma_position_is(whole, '#', base.len() as int);
    assert(whole.take(base.len() as int) =~= base);
    assert(whole.skip(base.len() as int) =~= fragment);
}

/// Behind a first pair the next one stands behind a `&`.
proof fn lemma_second_separator(base: Seq<char>, version: Seq<char>)
    requires
        forall|i: int| 0 <= i < base.len() ==> base[i] != '#',
        version == "api-version"@ + seq!['='] + "2020-06-01"@,
    ensures
        forall|i: int|
            0 <= i < (base + query_separator(base) + version).len() ==> (base
                + query_separator(base) + version)[i] != '#',
        query_separator(base + query_separator(base) + version) == seq!['&'],
{
    reveal_strlit("api-version");
    reveal_strlit("2020-06-01");
    let separator = query_separator(base);
    let once = base + separator + version;
    assert forall|i: int| 0 <= i < once.len() implies once[i] != '#' by {
        if i >= base.len() + separator.len() {
            assert(once[i] == version[i - base.len() - separator.len()]);
        } else if i >= base.len() {
            assert(once[i] == separator[i - base.len()]);
        } else {
            assert(once[i] == base[i]);
        }
    }
    lemma_position(base, '?');
    let at = position(base, '?');
    if at == base.len() {
        assert(once[at] == separator[0]);
    } else {
        assert(once[at] == base[at]);
    }
    lemma_position_at_most(once, '?', at);
}

/// Text that is made of the characters that stand for themselves is its own encoding.
pub proof fn lemma_form_encode_plain(s: Seq<char>)
    requires
        is_ascii_chars(s),
        forall|i: int| 0 <= i < s.len() ==> form_plain(#[trigger] s[i] as u8),
    ensures
        form_encode(s) == s,
{
    is_ascii_chars_encode_utf8(s);
    lemma_form_bytes_plain(s, encode_utf8(s));
}

/// Where the version and the resource stand in a URL that they have been put into.
pub proof fn lemma_token_query(base: Seq<char>, fragment: Seq<char>, resource: Seq<char>)
    requires
        forall|i: int| 0 <= i < base.len() ==> base[i] != '#',
        fragment.len() > 0 ==> fragment[0] == '#',
    ensures
        with_token_query(base + fragment, resource) == base + query_separator(base)
            + "api-version=2020-06-01&resource="@ + form_encode(resource) + fragment,
{
    reveal_strlit("api-version");
    reveal_strlit("2020-06-01");
    reveal_strlit("resource");
    reveal_strlit("api-version=2020-06-01&resource=");
    lemma_form_encode_plain(API_VERSION_KEY@);
    lemma_form_encode_plain(API_VERSION@);
    lemma_form_encode_plain(RESOURCE_KEY@);
    let separator = query_separator(base);
    let version = "api-version"@ + seq!['='] + "2020-06-01"@;
    let once = base + separator + version;
    lemma_pair_goes_before_fragment(base, fragment, API_VERSION_KEY@, API_VERSION@);
    assert(base + separator + API_VERSION_KEY@ + seq!['='] + API_VERSION@ =~= once);
    lemma_second_separator(base, version);
    lemma_pair_goes_before_fragment(once, fragment, RESOURCE_KEY@, resource);
    assert(version + seq!['&'] + "resource"@ + seq!['='] =~= "api-version=2020-06-01&resource="@);
    assert(once + seq!['&'] + "resource"@ + seq!['='] =~= base + separator
        + "api-version=2020-06-01&resource="@);
}

/// The URL of the requests, told by the parts of the endpoint: what stands before its fragment,
/// and the fragment.
pub proof fn lemma_token_url(base: Seq<char>, fragment: Seq<char>, resource: Seq<char>)
    requires
        forall|i: int| 0 <= i < base.len() ==> base[i] != '#',
        fragment.len() > 0 ==> fragment[0] == '#',
    ensures
        !slash_is_due(base) ==> token_url(base + fragment, resource) == base + query_separator(base)
            + "api-version=2020-06-01&resource="@ + form_encode(resource) + fragment,
        slash_is_due(base) ==> token_url(base + fragment, resource) == base + seq!['/'] + seq!['?']
            + "api-version=2020-06-01&resource="@ + form_encode(resource) + fragment,
{
    let whole = base + fragment;
    lemma_position_is(whole, '#', base.len() as int);
    assert(whole.take(base.len() as int) =~= base);
    assert(whole.skip(base.len() as int) =~= fragment);
    if slash_is_due(base) {
        let slashed = base + seq!['/'];
        lemma_position(base, '?');
        assert forall|i: int| 0 <= i < slashed.len() implies slashed[i] != '#' && slashed[i]
            != '?' by {
            if i < base.len() {
                assert(slashed[i] == base[i]);
            }
        }
        lemma_position_absent(slashed, '?');
        lemma_token_query(slashed, fragment, resource);
    } else {
        lemma_token_query(base, fragment, resource);
    }
}

fn char_position(chars: &Vec<char>, end: usize, c: char) -> (r: usize)
    requires
        end <= chars@.len(),
    ensures
        r == position(chars@.take(end as int), c),
{
    let ghost s = chars@.take(end as int);
    let mut at: usize = 0;
    while at < end && chars[at] != c
        invariant
            at <= end <= chars@.len(),
            s == chars@.take(end as int),
            forall|i: int| 0 <= i < at ==> s[i] != c,
        decreases end - at,
    {
        assert(s[at as int] == chars@[at as int]);
        at += 1;
    }
    proof {
        if at < end {
            assert(s[at as int] == chars@[at as int]);
        }
        lemma_position_is(s, c, at as int);
    }
    at
}

/// The length of a text once it is encoded.
fn form_len(bytes: &[u8]) -> (r: u128)
    ensures
        r == form_bytes(bytes@).len(),
        r <= 3 * usize::MAX,
{
    let mut at: usize = bytes.len();
    let mut total: u128 = 0;
    assert(bytes@.skip(at as int) =~= Seq::<u8>::empty());
    while at > 0
        invariant
            at <= bytes@.len(),
            bytes@.len() <= usize::MAX,
            total == form_bytes(bytes@.skip(at as int)).len(),
            total <= 3 * (bytes@.len() - at),
        decreases at,
    {
        at -= 1;
        let b: u8 = bytes[at];
        let plain: bool = (0x30 <= b && b <= 0x39) || (0x41 <= b && b <= 0x5a) || (0x61 <= b && b
            <= 0x7a) || b == 0x2a || b == 0x2d || b == 0x2e || b == 0x5f;
        assert(bytes@.skip(at as int).drop_first() =~= bytes@.skip(at + 1));
        total = total + if plain || b == 0x20 {
            1
        } else {
            3
        };
    }
    assert(bytes@.skip(0) =~= bytes@);
    total
}

/// Builds the URL of the requests for `resource` at the endpoint `source`, whose URL has the
/// text `endpoint`; nothing where that URL would be too long.
pub(crate) fn token_url_text(source: &str, endpoint: &str, resource: &str) -> (r: Option<String>)
    requires
        parsed_url(source@) == Some(endpoint@),
    ensures
        r is Some <==> token_url_fits(endpoint@, resource@),
        r matches Some(url) ==> url@ == token_url(endpoint@, resource@),
{
    let chars: Vec<char> = chars_of(endpoint);
    let size: usize = chars.len();
    assert(chars@.take(size as int) =~= chars@);
    let cut: usize = char_position(&chars, size, '#');
    let ghost base = endpoint@.take(cut as int);
    let ghost fragment = endpoint@.skip(cut as int);
    let ghost encoded = form_encode(resource@);
    proof {
        lemma_position(endpoint@, '#');
        assert(base + fragment =~= endpoint@);
        lemma_token_query(base, fragment, resource@);
        lemma_token_url(base, fragment, resource@);
        reveal_strlit("api-version=2020-06-01&resource=");
        lemma_position(base, '?');
    }
    let query: usize = char_position(&chars, cut, '?');
    let slash: bool = query == cut && !(cut > 0 && chars[cut - 1] == '/');
    assert(slash == slash_is_due(base));
    let mut length: u128 = size as u128 + 32 + form_len(resource.as_bytes());
    if slash {
        length = length + 2;
    } else if !(cut > 0 && query == cut - 1) {
        length = length + 1;
    }
    assert(length == token_url(endpoint@, resource@).len());
    if length > u32::MAX as u128 {
        return None;
    }
    let url: String = match append_query_pairs(
        source,
        API_VERSION_KEY,
        API_VERSION,
        RESOURCE_KEY,
        resource,
    ) {
        Some(url) => url,
        None => {
            return None;
        },
    };
    if !slash {
        return Some(url);
    }
    let end: usize = url.as_str().unicode_len();
    let mut slashed: String = url.as_str().substring_char(0, cut).to_owned();
    slashed.append("/");
    slashed.append(url.as_str().substring_char(cut, end));
    proof {
        reveal_strlit("/");
        let rest = seq!['?'] + "api-version=2020-06-01&resource="@ + encoded + fragment;
        assert(url@ =~= base + rest);
        assert(url@.subrange(0, cut as int) =~= base);
        assert(url@.subrange(cut as int, url@.len() as int) =~= rest);
        assert(slashed@ =~= token_url(endpoint@, resource@));
    }
    Some(slashed)
}

}
