//! What holds of the library as a whole.
use crate::cache;
use crate::challenge;
use crate::credential;
use crate::error;
use crate::error::ArcErrorView;
use crate::flow;
use crate::flow::{ActionView, EventView, FlowView, StepView};
use crate::http;
use crate::secret;
use crate::text;
use crate::token;
use crate::token::TokenView;
use crate::url;
use vstd::prelude::*;
use vstd::utf8::*;

verus! {

broadcast use vstd::string::group_string_axioms;

/// The steps of a run: the first one, and one more for each event, each of which was waited
/// for.
pub open spec fn run(first: StepView, events: Seq<EventView>, steps: Seq<StepView>) -> bool {
    &&& steps.len() == events.len() + 1
    &&& steps[0] == first
    &&& forall|i: int|
        0 <= i < events.len() ==> flow::may_follow(
            steps[i].flow,
            #[trigger] events[i],
            steps[i + 1],
        )
}

/// How far a run has come.
pub open spec fn stage(flow: FlowView) -> int {
    match flow {
        FlowView::Challenge { .. } => 0,
        FlowView::Probe { .. } => 1,
        FlowView::Read { .. } => 2,
        FlowView::Token => 3,
        FlowView::Decode => 4,
        FlowView::Done => 5,
    }
}

/// The URL that a run is about, while it is still needed.
spec fn url_in(flow: FlowView, url: Seq<char>) -> bool {
    match flow {
        FlowView::Challenge { url: u } => u == url,
        FlowView::Probe { url: u, path: _ } => u == url,
        FlowView::Read { url: u, path: _ } => u == url,
        _ => true,
    }
}

proof fn lemma_stages(url: Seq<char>, events: Seq<EventView>, steps: Seq<StepView>, i: int)
    requires
        run(flow::started(url), events, steps),
        0 <= i <= events.len(),
    ensures
        url_in(steps[i].flow, url),
        steps[i].flow is Done || stage(steps[i].flow) == i,
        steps[i].flow is Done ==> i == events.len() && (steps[i].action is Finish
            || steps[i].action is Fail),
        i <= 5,
        steps[i].action is Finish ==> i == 5,
        steps[i].action is Send ==> i == 0 || i == 3,
    decreases i,
{
    if i > 0 {
        lemma_stages(url, events, steps, i - 1);
        assert(flow::may_follow(steps[i - 1].flow, events[i - 1], steps[i]));
    }
    if i < events.len() {
        assert(flow::may_follow(steps[i].flow, events[i], steps[i + 1]));
    }
}

/// Every run ends: no run has more than five events, and one with nothing left to wait for
/// has come to a token or to an error.
pub proof fn law_runs_end(url: Seq<char>, events: Seq<EventView>, steps: Seq<StepView>)
    requires
        run(flow::started(url), events, steps),
    ensures
        events.len() <= 5,
        steps.last().flow is Done <==> steps.last().action is Finish || steps.last().action is Fail,
{
    let n = events.len() as int;
    lemma_stages(url, events, steps, n);
    if n > 0 {
        assert(flow::may_follow(steps[n - 1].flow, events[n - 1], steps[n]));
    }
}

/// A run sends at most two requests: the first step, without the secret, and the fourth,
/// which goes to the same URL.
pub proof fn law_two_requests(url: Seq<char>, events: Seq<EventView>, steps: Seq<StepView>, i: int)
    requires
        run(flow::started(url), events, steps),
        0 <= i < steps.len(),
        steps[i].action is Send,
    ensures
        i == 0 || i == 3,
        i == 0 ==> steps[i].action == ActionView::Send(http::challenge_request(url)),
        i == 3 ==> (events[2] matches EventView::SecretRead { secret: Some(bytes) }
            && steps[i].action == ActionView::Send(
            http::authorized_request(url, text::utf8_lossy(bytes)),
        )),
{
    lemma_stages(url, events, steps, i);
    if i == 3 {
        lemma_stages(url, events, steps, 2);
        assert(flow::may_follow(steps[2].flow, events[2], steps[3]));
    }
}

/// Nobody is asked to read a file that was not reported to be there, whose path the challenge
/// did not name, of which the check of a secret file may not say that all is well, or that does
/// not stand in the expected directory, unless the environment names another. A path that begins with two separators must hold the names of a server and of a
/// share, and one more.
pub proof fn law_only_announced_files_are_read(
    url: Seq<char>,
    events: Seq<EventView>,
    steps: Seq<StepView>,
    i: int,
)
    requires
        run(flow::started(url), events, steps),
        0 <= i < steps.len(),
        steps[i].action is Read,
    ensures
        i == 2,
        events[0] is Challenged,
        events[1] is Probed,
        steps[i].action == (ActionView::Read { path: flow::named_path(events[0])->0 }),
        flow::named_path(events[0]) is Some,
        events[0]->Challenged_status == flow::UNAUTHORIZED,
        events[1]->present,
        secret::may_be_verdict(
            flow::named_path(events[0])->0,
            secret::expected_dir(events[1]->tokens_dir),
            events[1]->present,
            events[1]->overridden,
            Ok(()),
        ),
        secret::portable_path(flow::named_path(events[0])->0) ==> secret::path_verdict(
            secret::extension_of(flow::named_path(events[0])->0),
            secret::parent_of(flow::named_path(events[0])->0),
            secret::expected_dir(events[1]->tokens_dir),
            events[1]->present,
            events[1]->overridden,
        ) is Ok,
        ({
            let path = flow::named_path(events[0])->0;
            let expected = secret::expected_dir(events[1]->tokens_dir);
            (secret::two_separators(path) ==> secret::holds_a_name(path)) ==> events[1]->overridden
                || (secret::may_have_parent(path, Some(expected)) && expected.len() <= path.len()
                && path.take(expected.len() as int) == expected)
        }),
{
    lemma_stages(url, events, steps, i);
    if i > 0 {
        assert(flow::may_follow(steps[i - 1].flow, events[i - 1], steps[i]));
        lemma_stages(url, events, steps, i - 1);
        if i == 2 {
            lemma_stages(url, events, steps, 0);
            assert(flow::may_follow(steps[0].flow, events[0], steps[1]));
            let path = flow::named_path(events[0])->0;
            let expected = secret::expected_dir(events[1]->tokens_dir);
            let ext = choose|ext: Option<Seq<char>>|
                #[trigger] flow::may_name_extension(events[0], ext) && steps[1] == flow::challenged(
                    url,
                    events[0]->Challenged_status,
                    events[0]->challenge,
                    events[0]->Challenged_body,
                    ext,
                );
            let parent = choose|parent: Option<Seq<char>>|
                #[trigger] secret::may_have_parent(path, parent) && steps[2] == flow::probed(
                    url,
                    path,
                    parent,
                    events[1]->present,
                    events[1]->tokens_dir,
                    events[1]->overridden,
                );
            assert(secret::may_have_extension(path, ext));
            if secret::two_separators(path) ==> secret::holds_a_name(path) {
                law_accepted_file_is_in_the_directory(
                    path,
                    ext,
                    parent,
                    expected,
                    events[1]->present,
                    events[1]->overridden,
                );
            }
        }
    }
}

/// A run comes to a token only by the whole way: a challenge with status 401 that names a
/// path, a file there, a secret that is not too large, and a success that holds the token.
pub proof fn law_token_takes_the_whole_way(
    url: Seq<char>,
    events: Seq<EventView>,
    steps: Seq<StepView>,
    token: TokenView,
)
    requires
        run(flow::started(url), events, steps),
        steps.last().action == ActionView::Finish(token),
    ensures
        events.len() == 5,
        events[0] is Challenged && events[1] is Probed && events[2] is SecretRead,
        events[3] is TokenReceived && events[4] is TokenDecoded,
        events[0]->Challenged_status == flow::UNAUTHORIZED,
        flow::named_path(events[0]) is Some,
        events[1]->present,
        events[2]->secret is Some,
        events[2]->secret->0.len() <= error::ARC_MAX_FILE_SIZE,
        http::success(events[3]->TokenReceived_status),
        events[4]->token == Some(token),
{
    lemma_stages(url, events, steps, events.len() as int);
    assert forall|i: int| 0 <= i < 5 implies stage(steps[i].flow) == i && flow::may_follow(
        steps[i].flow,
        #[trigger] events[i],
        steps[i + 1],
    ) by {
        lemma_stages(url, events, steps, i);
    }
    assert(flow::may_follow(steps[0].flow, events[0], steps[1]));
    assert(flow::may_follow(steps[1].flow, events[1], steps[2]));
    assert(flow::may_follow(steps[2].flow, events[2], steps[3]));
    assert(flow::may_follow(steps[3].flow, events[3], steps[4]));
    assert(flow::may_follow(steps[4].flow, events[4], steps[5]));
}

/// The whole way leads to the token: where the challenge names the path of a key file that is
/// there and stands where it should, whatever the platform makes of the path, the secret is not
/// too large and the second response is a success, nothing on the way fails.
pub proof fn law_the_whole_way_leads_to_a_token(
    url: Seq<char>,
    events: Seq<EventView>,
    steps: Seq<StepView>,
    path: Seq<char>,
    token: TokenView,
)
    requires
        run(flow::started(url), events, steps),
        events.len() == 5,
        events[0]->Challenged_status == flow::UNAUTHORIZED,
        flow::named_path(events[0]) == Some(path),
        forall|ext: Option<Seq<char>>| #[trigger]
            secret::may_have_extension(path, ext) ==> ext == Some(secret::ARC_KEY_EXTENSION@),
        events[1]->present,
        events[1]->overridden || (forall|parent: Option<Seq<char>>| #[trigger]
            secret::may_have_parent(path, parent) ==> parent == Some(
                secret::expected_dir(events[1]->tokens_dir),
            )),
        events[2]->secret is Some,
        events[2]->secret->0.len() <= error::ARC_MAX_FILE_SIZE,
        http::success(events[3]->TokenReceived_status),
        events[4]->token == Some(token),
    ensures
        steps[1].action == (ActionView::Probe { path }),
        steps[2].action == (ActionView::Read { path }),
        steps[3].action == ActionView::Send(
            http::authorized_request(url, text::utf8_lossy(events[2]->secret->0)),
        ),
        steps[4].action == (ActionView::Decode { body: events[3]->TokenReceived_body }),
        steps[5].action == ActionView::Finish(token),
{
    assert(flow::may_follow(steps[0].flow, events[0], steps[1]));
    assert(flow::may_follow(steps[1].flow, events[1], steps[2]));
    assert(flow::may_follow(steps[2].flow, events[2], steps[3]));
    assert(flow::may_follow(steps[3].flow, events[3], steps[4]));
    assert(flow::may_follow(steps[4].flow, events[4], steps[5]));
}

/// The two requests differ in nothing but the header that holds the secret, which the first
/// does not have.
pub proof fn law_requests_differ_by_the_secret(url: Seq<char>, secret: Seq<char>)
    ensures
        !http::challenge_request(url).headers.contains_key(http::HEADER_AUTHORIZATION@),
        http::authorized_request(url, secret).headers.contains_key(http::HEADER_AUTHORIZATION@),
        http::authorized_request(url, secret).headers.remove(http::HEADER_AUTHORIZATION@)
            == http::challenge_request(url).headers,
        http::authorized_request(url, secret).url == http::challenge_request(url).url,
{
    reveal_strlit("metadata");
    reveal_strlit("authorization");
    assert(http::HEADER_METADATA@.len() != http::HEADER_AUTHORIZATION@.len());
    assert(http::authorized_request(url, secret).headers.remove(http::HEADER_AUTHORIZATION@)
        =~= http::challenge_request(url).headers);
}

/// A token that was kept and has not expired is given back, and nothing is sent for it.
pub proof fn law_kept_token_is_given_back(
    endpoint: Seq<char>,
    scopes: Seq<Seq<char>>,
    kept: TokenView,
    now: i64,
)
    ensures
        kept.expires_on > now ==> credential::requested(
            endpoint,
            cache::fresh(Some(kept), now),
            scopes,
        ) == Ok::<_, ArcErrorView>(flow::finished(kept)),
        kept.expires_on <= now ==> credential::requested(
            endpoint,
            cache::fresh(Some(kept), now),
            scopes,
        ) == credential::begun(endpoint, scopes),
{
}

/// The suffix of a scope is taken off, once; a scope without it is its own resource.
pub proof fn law_scope_suffix(resource: Seq<char>)
    ensures
        credential::resource_of(resource + credential::SCOPE_SUFFIX@) == resource,
        !text::ends_with(resource, credential::SCOPE_SUFFIX@) ==> credential::resource_of(resource)
            == resource,
{
    let scope = resource + credential::SCOPE_SUFFIX@;
    assert(scope.skip(resource.len() as int) =~= credential::SCOPE_SUFFIX@);
    assert(scope.take(resource.len() as int) =~= resource);
}

/// Text that is made of the characters that stand for themselves is its own encoding.
pub proof fn law_form_encode_plain(s: Seq<char>)
    requires
        is_ascii_chars(s),
        forall|i: int| 0 <= i < s.len() ==> url::form_plain(#[trigger] s[i] as u8),
    ensures
        url::form_encode(s) == s,
{
    url::lemma_form_encode_plain(s);
}

/// The encoding of a text holds no character but those that stand for themselves, `%` and
/// `+`. So it cannot end the value, the query or the URL that it is put into.
pub proof fn law_form_encode_safe(s: Seq<char>, i: int)
    requires
        0 <= i < url::form_encode(s).len(),
    ensures
        ({
            let c = url::form_encode(s)[i];
            c == '%' || c == '+' || (c <= '\u{7f}' && url::form_plain(c as u8))
        }),
{
    lemma_form_bytes_safe(encode_utf8(s), i);
}

proof fn lemma_form_bytes_safe(bytes: Seq<u8>, i: int)
    requires
        0 <= i < url::form_bytes(bytes).len(),
    ensures
        ({
            let c = url::form_bytes(bytes)[i];
            c == '%' || c == '+' || (c <= '\u{7f}' && url::form_plain(c as u8))
        }),
    decreases bytes.len(),
{
    if bytes.len() > 0 {
        let first = url::form_byte(bytes[0]);
        if i < first.len() {
            assert(url::form_bytes(bytes)[i] == first[i]);
        } else {
            assert(url::form_bytes(bytes)[i] == url::form_bytes(bytes.drop_first())[i
                - first.len()]);
            lemma_form_bytes_safe(bytes.drop_first(), i - first.len());
        }
    }
}

/// Different texts have different encodings.
pub proof fn law_form_encode_injective(a: Seq<char>, b: Seq<char>)
    requires
        url::form_encode(a) == url::form_encode(b),
    ensures
        a == b,
{
    lemma_form_bytes_injective(encode_utf8(a), encode_utf8(b));
    encode_utf8_decode_utf8(a);
    encode_utf8_decode_utf8(b);
}

proof fn lemma_form_bytes_injective(a: Seq<u8>, b: Seq<u8>)
    requires
        url::form_bytes(a) == url::form_bytes(b),
    ensures
        a == b,
    decreases a.len(),
{
    if a.len() == 0 || b.len() == 0 {
        if a.len() > 0 {
            assert(url::form_bytes(a).len() >= 1);
        }
        if b.len() > 0 {
            assert(url::form_bytes(b).len() >= 1);
        }
        assert(a =~= b);
    } else {
        let x = url::form_byte(a[0]);
        let y = url::form_byte(b[0]);
        let ra = url::form_bytes(a.drop_first());
        let rb = url::form_bytes(b.drop_first());
        assert((x + ra)[0] == x[0] && (y + rb)[0] == y[0]);
        assert(x[0] == y[0]);
        assert(x.len() == y.len());
        assert forall|i: int| 0 <= i < x.len() implies x[i] == y[i] by {
            assert((x + ra)[i] == (y + rb)[i]);
        }
        assert(a[0] == b[0]);
        assert(ra =~= (x + ra).skip(x.len() as int));
        assert(rb =~= (y + rb).skip(y.len() as int));
        lemma_form_bytes_injective(a.drop_first(), b.drop_first());
        assert(a =~= seq![a[0]] + a.drop_first());
        assert(b =~= seq![b[0]] + b.drop_first());
    }
}

/// Both requests carry the version and the resource at the end of the query of the endpoint,
/// before its fragment, behind a `&` where the query holds something already. Where the endpoint
/// has no query of its own, there is a slash before the
/// query, and no more than the one that the path of the endpoint may end in.
pub proof fn law_token_url(base: Seq<char>, fragment: Seq<char>, resource: Seq<char>)
    requires
        forall|i: int| 0 <= i < base.len() ==> base[i] != '#',
        fragment.len() > 0 ==> fragment[0] == '#',
    ensures
        ({
            let query = "api-version=2020-06-01&resource="@ + url::form_encode(resource);
            let whole = url::token_url(base + fragment, resource);
            if exists|i: int| 0 <= i < base.len() - 1 && base[i] == '?' {
                whole == base + "&"@ + query + fragment
            } else if base.len() > 0 && base.last() == '?' {
                whole == base + query + fragment
            } else if base.len() > 0 && base.last() == '/' {
                whole == base + "?"@ + query + fragment
            } else {
                whole == base + "/?"@ + query + fragment
            }
        }),
{
    reveal_strlit("&");
    reveal_strlit("?");
    reveal_strlit("/?");
    let query = "api-version=2020-06-01&resource="@ + url::form_encode(resource);
    url::lemma_position(base, '?');
    url::lemma_token_url(base, fragment, resource);
    if exists|i: int| 0 <= i < base.len() - 1 && base[i] == '?' {
        let i = choose|i: int| 0 <= i < base.len() - 1 && base[i] == '?';
        url::lemma_position_at_most(base, '?', i);
        assert(base + "&"@ + query + fragment =~= base + seq!['&']
            + "api-version=2020-06-01&resource="@ + url::form_encode(resource) + fragment);
    } else if base.len() > 0 && base.last() == '?' {
        url::lemma_position_at_most(base, '?', base.len() - 1);
        assert(base + query + fragment =~= base + Seq::<char>::empty()
            + "api-version=2020-06-01&resource="@ + url::form_encode(resource) + fragment);
    } else if base.len() > 0 && base.last() == '/' {
        assert(base + "?"@ + query + fragment =~= base + seq!['?']
            + "api-version=2020-06-01&resource="@ + url::form_encode(resource) + fragment);
    } else {
        assert(base + "/?"@ + query + fragment =~= base + seq!['/'] + seq!['?']
            + "api-version=2020-06-01&resource="@ + url::form_encode(resource) + fragment);
    }
}

/// At one endpoint, different resources are asked for at different URLs.
pub proof fn law_url_tells_the_resource(endpoint: Seq<char>, a: Seq<char>, b: Seq<char>)
    requires
        url::token_url(endpoint, a) == url::token_url(endpoint, b),
    ensures
        a == b,
{
    url::lemma_position(endpoint, '#');
    let n = url::position(endpoint, '#');
    let base = endpoint.take(n);
    let fragment = endpoint.skip(n);
    assert(endpoint =~= base + fragment);
    url::lemma_token_url(base, fragment, a);
    url::lemma_token_url(base, fragment, b);
    let separator = if url::slash_is_due(base) {
        seq!['/'] + seq!['?']
    } else {
        url::query_separator(base)
    };
    let front = base + separator + "api-version=2020-06-01&resource="@;
    assert(base + (seq!['/'] + seq!['?']) =~= base + seq!['/'] + seq!['?']);
    let x = url::form_encode(a);
    let y = url::form_encode(b);
    assert(front + x + fragment == front + y + fragment);
    assert((front + x + fragment).len() == (front + y + fragment).len());
    assert forall|i: int| 0 <= i < x.len() implies x[i] == y[i] by {
        assert((front + x + fragment)[front.len() + i] == x[i]);
        assert((front + y + fragment)[front.len() + i] == y[i]);
    }
    assert(x =~= y);
    law_form_encode_injective(a, b);
}

proof fn lemma_unquoted(a: Seq<char>, s: Seq<char>, b: Seq<char>)
    requires
        s.len() > 0,
        !text::quote(s[0]),
        !text::quote(s.last()),
        forall|i: int| 0 <= i < a.len() ==> text::quote(a[i]),
        forall|i: int| 0 <= i < b.len() ==> text::quote(b[i]),
    ensures
        text::unquoted(a + s + b) == s,
    decreases a.len() + b.len(),
{
    let whole = a + s + b;
    if a.len() > 0 {
        assert(whole[0] == a[0]);
        let rest = a.drop_first();
        assert(whole.drop_first() =~= rest + s + b);
        assert forall|i: int| 0 <= i < rest.len() implies text::quote(rest[i]) by {
            assert(rest[i] == a[i + 1]);
        }
        lemma_unquoted(rest, s, b);
    } else if b.len() > 0 {
        assert(whole =~= s + b);
        assert(whole.last() == b.last());
        let rest = b.drop_last();
        assert(whole.drop_last() =~= a + s + rest);
        assert(whole[0] == s[0]);
        assert((a + s + rest)[0] == s[0]);
        lemma_unquoted(a, s, rest);
    } else {
        assert(whole =~= s);
    }
}

proof fn lemma_first_word(before: Seq<char>, word: Seq<char>, after: Seq<char>)
    requires
        word.len() > 0,
        forall|i: int| 0 <= i < before.len() ==> text::white_space(before[i]),
        forall|i: int| 0 <= i < word.len() ==> !text::white_space(word[i]),
        after.len() > 0 ==> text::white_space(after[0]),
    ensures
        text::first_word(before + word + after) == word,
    decreases before.len(),
{
    let whole = before + word + after;
    if before.len() > 0 {
        assert(whole[0] == before[0]);
        let rest = before.drop_first();
        assert(whole.drop_first() =~= rest + word + after);
        assert forall|i: int| 0 <= i < rest.len() implies text::white_space(rest[i]) by {
            assert(rest[i] == before[i + 1]);
        }
        lemma_first_word(rest, word, after);
    } else {
        assert(whole =~= word + after);
        assert(whole[0] == word[0]);
        lemma_word_len(word, after);
        assert(whole.take(word.len() as int) =~= word);
    }
}

proof fn lemma_word_len(word: Seq<char>, after: Seq<char>)
    requires
        forall|i: int| 0 <= i < word.len() ==> !text::white_space(word[i]),
        after.len() > 0 ==> text::white_space(after[0]),
    ensures
        text::word_len(word + after) == word.len(),
    decreases word.len(),
{
    let whole = word + after;
    if word.len() > 0 {
        assert(whole[0] == word[0]);
        let rest = word.drop_first();
        assert(whole.drop_first() =~= rest + after);
        assert forall|i: int| 0 <= i < rest.len() implies !text::white_space(rest[i]) by {
            assert(rest[i] == word[i + 1]);
        }
        lemma_word_len(rest, after);
    } else {
        assert(whole =~= after);
    }
}

/// A path is read from the challenge as it was written there: with or without quotes around
/// it, of either kind and in any number, with or without white space before it, and whatever
/// follows behind white space.
pub proof fn law_path_is_read_back(
    before: Seq<char>,
    open_quotes: Seq<char>,
    path: Seq<char>,
    close_quotes: Seq<char>,
    after: Seq<char>,
)
    requires
        path.len() > 0,
        forall|i: int| 0 <= i < path.len() ==> !text::white_space(path[i]),
        !text::quote(path[0]),
        !text::quote(path.last()),
        forall|i: int| 0 <= i < before.len() ==> text::white_space(before[i]),
        forall|i: int| 0 <= i < open_quotes.len() ==> text::quote(open_quotes[i]),
        forall|i: int| 0 <= i < close_quotes.len() ==> text::quote(close_quotes[i]),
        after.len() > 0 ==> text::white_space(after[0]),
    ensures
        challenge::bare_path(before + (open_quotes + path + close_quotes) + after) == path,
{
    let quoted = open_quotes + path + close_quotes;
    assert forall|i: int| 0 <= i < quoted.len() implies !text::white_space(quoted[i]) by {
        if i < open_quotes.len() {
            assert(quoted[i] == open_quotes[i]);
        } else if i < open_quotes.len() + path.len() {
            assert(quoted[i] == path[i - open_quotes.len()]);
        } else {
            assert(quoted[i] == close_quotes[i - open_quotes.len() - path.len()]);
        }
    }
    lemma_first_word(before, quoted, after);
    lemma_unquoted(open_quotes, path, close_quotes);
}

/// What is read from the challenge has no white space in it and no quote at either end.
pub proof fn law_bare_path_is_bare(s: Seq<char>)
    ensures
        forall|i: int|
            0 <= i < challenge::bare_path(s).len() ==> !text::white_space(
                #[trigger] challenge::bare_path(s)[i],
            ),
        challenge::bare_path(s).len() > 0 ==> !text::quote(challenge::bare_path(s)[0])
            && !text::quote(challenge::bare_path(s).last()),
{
    lemma_first_word_is_dense(s);
    lemma_unquote_start(text::first_word(s));
    lemma_unquote_end(text::unquote_start(text::first_word(s)));
}

spec fn dense(s: Seq<char>) -> bool {
    forall|i: int| 0 <= i < s.len() ==> !text::white_space(#[trigger] s[i])
}

proof fn lemma_first_word_is_dense(s: Seq<char>)
    ensures
        dense(text::first_word(s)),
    decreases s.len(),
{
    if s.len() > 0 && text::white_space(s[0]) {
        lemma_first_word_is_dense(s.drop_first());
    } else {
        lemma_word_is_dense(s);
    }
}

proof fn lemma_word_is_dense(s: Seq<char>)
    ensures
        0 <= text::word_len(s) <= s.len(),
        dense(s.take(text::word_len(s))),
    decreases s.len(),
{
    if s.len() > 0 && !text::white_space(s[0]) {
        let rest = s.drop_first();
        lemma_word_is_dense(rest);
        let word = s.take(text::word_len(s));
        assert forall|i: int| 0 <= i < word.len() implies !text::white_space(#[trigger] word[i]) by {
            if i > 0 {
                assert(word[i] == rest.take(text::word_len(rest))[i - 1]);
            }
        }
    }
}

proof fn lemma_unquote_start(s: Seq<char>)
    ensures
        text::unquote_start(s).len() > 0 ==> !text::quote(text::unquote_start(s)[0]),
        dense(s) ==> dense(text::unquote_start(s)),
    decreases s.len(),
{
    if s.len() > 0 && text::quote(s[0]) {
        let rest = s.drop_first();
        if dense(s) {
            assert forall|i: int| 0 <= i < rest.len() implies !text::white_space(
                #[trigger] rest[i],
            ) by {
                assert(rest[i] == s[i + 1]);
            }
        }
        lemma_unquote_start(rest);
    }
}

proof fn lemma_unquote_end(s: Seq<char>)
    ensures
        text::unquote_end(s).len() > 0 ==> !text::quote(text::unquote_end(s).last()),
        text::unquote_end(s).len() > 0 ==> text::unquote_end(s)[0] == s[0],
        dense(s) ==> dense(text::unquote_end(s)),
    decreases s.len(),
{
    if s.len() > 0 && text::quote(s.last()) {
        let rest = s.drop_last();
        if dense(s) {
            assert forall|i: int| 0 <= i < rest.len() implies !text::white_space(
                #[trigger] rest[i],
            ) by {
                assert(rest[i] == s[i]);
            }
        }
        lemma_unquote_end(rest);
    }
}

/// The path is what follows the first `Basic realm=`, whatever stands before it, and in
/// capitals or in small letters; a header without `Basic realm=` names none.
pub proof fn law_path_follows_the_marker(header: Seq<char>, at: int)
    ensures
        challenge::realm_at(header, at) && (forall|i: int|
            0 <= i < at ==> !#[trigger] challenge::realm_at(header, i)) ==> challenge::realm_path(
            header,
        ) == Some(challenge::bare_path(header.skip(at + challenge::BASIC_REALM@.len()))),
        (forall|i: int| !#[trigger] challenge::realm_at(header, i)) ==> challenge::realm_path(
            header,
        ) is None,
{
    if forall|i: int| !#[trigger] challenge::realm_at(header, i) {
        lemma_no_realm(header, 0);
    }
    if challenge::realm_at(header, at) && (forall|i: int|
        0 <= i < at ==> !#[trigger] challenge::realm_at(header, i)) {
        lemma_first_realm(header, 0, at);
    }
}

proof fn lemma_no_realm(header: Seq<char>, start: int)
    requires
        forall|i: int| !#[trigger] challenge::realm_at(header, i),
    ensures
        challenge::first_realm(header, start) is None,
    decreases header.len() - start + 1,
{
    if 0 <= start <= header.len() {
        lemma_no_realm(header, start + 1);
    }
}

proof fn lemma_first_realm(header: Seq<char>, start: int, at: int)
    requires
        0 <= start <= at,
        challenge::realm_at(header, at),
        forall|i: int| start <= i < at ==> !#[trigger] challenge::realm_at(header, i),
    ensures
        challenge::first_realm(header, start) == Some(at),
    decreases at - start,
{
    if start < at {
        lemma_first_realm(header, start + 1, at);
    }
}

proof fn lemma_decimal(n: nat)
    ensures
        text::digits_value(text::decimal(n)) == Some(n as int),
        text::decimal(n).len() > 0,
        '0' <= text::decimal(n)[0] <= '9',
    decreases n,
{
    reveal_with_fuel(text::digits_value, 2);
    if n < 10 {
        assert(text::decimal(n).drop_last() =~= Seq::<char>::empty());
    } else {
        lemma_decimal(n / 10);
        assert(text::decimal(n).drop_last() =~= text::decimal(n / 10));
    }
}

/// A timestamp in decimal, behind a minus sign where it is negative.
pub open spec fn timestamp_text(n: int) -> Seq<char> {
    if n < 0 {
        seq!['-'] + text::decimal((-n) as nat)
    } else {
        text::decimal(n as nat)
    }
}

/// A time of expiry that is written in decimal is read back, before the epoch and after it;
/// one that lies outside the years that can be told is refused.
pub proof fn law_expiry_is_read_back(n: int)
    requires
        i64::MIN <= n <= i64::MAX,
    ensures
        token::FIRST_TIMESTAMP <= n <= token::LAST_TIMESTAMP ==> token::expires_on(
            timestamp_text(n),
        ) == Ok::<i64, token::ExpiresOnError>(n as i64),
        !(token::FIRST_TIMESTAMP <= n <= token::LAST_TIMESTAMP) ==> token::expires_on(
            timestamp_text(n),
        ) == Err::<i64, token::ExpiresOnError>(token::ExpiresOnError::OutOfRange),
{
    if n < 0 {
        lemma_decimal((-n) as nat);
        assert(timestamp_text(n).skip(1) =~= text::decimal((-n) as nat));
    } else {
        lemma_decimal(n as nat);
    }
}

/// A directory name that a portable path may have, and with nothing at its end that names
/// nothing.
pub open spec fn plain_directory(dir: Seq<char>) -> bool {
    &&& dir.len() > 0
    &&& forall|i: int| 0 <= i < dir.len() ==> #[trigger] dir[i] != '\\'
    &&& !(dir.len() >= 2 && dir[1] == ':')
    &&& !secret::two_separators(dir)
    &&& dir.last() != '/'
    &&& !(dir.len() >= 2 && dir[dir.len() - 2] == '/' && dir.last() == '.')
}

/// A key file in a directory has that directory and the extension of a key file. So it is
/// accepted where it is there and the directory is the expected one.
pub proof fn law_key_file_in_directory(dir: Seq<char>, stem: Seq<char>)
    requires
        plain_directory(dir),
        stem.len() > 0,
        forall|i: int| 0 <= i < stem.len() ==> !secret::separator(#[trigger] stem[i]),
    ensures
        ({
            let path = dir + "/"@ + stem + ".key"@;
            &&& secret::portable_path(path)
            &&& secret::parent_of(path) == Some(dir)
            &&& secret::extension_of(path) == Some(secret::ARC_KEY_EXTENSION@)
            &&& forall|overridden: bool|
                secret::path_verdict(
                    secret::extension_of(path),
                    secret::parent_of(path),
                    dir,
                    true,
                    overridden,
                ) is Ok
        }),
{
    reveal_strlit("/");
    reveal_strlit(".key");
    reveal_strlit("key");
    let name = stem + ".key"@;
    let path = dir + "/"@ + stem + ".key"@;
    let slash = dir.len() as int;
    assert(path =~= dir + "/"@ + name);
    assert forall|i: int| 0 <= i < name.len() implies #[trigger] name[i] != '/' && name[i]
        != '\\' by {
        if i < stem.len() {
            assert(name[i] == stem[i]);
        } else {
            assert(name[i] == ".key"@[i - stem.len()]);
        }
    }
    assert forall|i: int| 0 <= i < path.len() implies #[trigger] path[i] != '\\' by {
        if i < slash {
            assert(path[i] == dir[i]);
        } else if i > slash {
            assert(path[i] == name[i - slash - 1]);
        } else {
            assert(path[i] == "/"@[0]);
        }
    }
    assert(path[slash] == '/');
    assert(path[slash - 1] == dir.last());
    assert(path[0] == dir[0]);
    assert(slash > 1 ==> path[1] == dir[1]);
    let start = secret::names_start(path);
    assert forall|i: int| slash + 1 <= i < path.len() implies path[i] != '/' by {
        assert(path[i] == name[i - slash - 1]);
    }
    secret::lemma_last_name_start_is(path, start, slash + 1);
    assert(path.skip(slash + 1) =~= name);
    assert(path.take(slash) =~= dir);
    assert(secret::settled(path, start) == path);
    assert(secret::without_last_name(path, start) == dir);
    if slash == 1 && dir[0] == '.' {
        assert(dir =~= seq!['.']);
    }
    lemma_directory_is_settled(dir, start);
    let dot = stem.len() as int;
    assert forall|i: int| dot < i < name.len() implies name[i] != '.' by {
        assert(name[i] == ".key"@[i - dot]);
    }
    assert(name[dot] == ".key"@[0]);
    secret::lemma_last_position_is(name, '.', dot);
    assert(name.skip(dot + 1) =~= secret::ARC_KEY_EXTENSION@);
}

/// A plain directory has nothing at its end that names nothing.
pub proof fn lemma_directory_is_settled(dir: Seq<char>, start: int)
    requires
        plain_directory(dir),
        start == 0 || start == 1,
        start == 0 ==> dir != seq!['.'],
        start == 1 ==> dir[0] == '/' || dir == seq!['.'] || (dir.len() > 1 && dir[0] == '.'
            && dir[1] == '/'),
    ensures
        secret::settled(dir, start) == dir,
{
    if dir.len() > start {
        let n = secret::last_name_start(dir, start);
        lemma_slash_before_last_name(dir, start);
        let name = dir.skip(n);
        assert(n < dir.len());
        if name == seq!['.'] {
            assert(name.len() == 1);
            assert(name[0] == dir[n]);
            if n == 0 {
                assert(dir =~= seq!['.']);
            }
        }
    }
}

proof fn lemma_slash_before_last_name(path: Seq<char>, start: int)
    requires
        0 <= start < path.len(),
    ensures
        start <= secret::last_name_start(path, start) <= path.len(),
        secret::last_name_start(path, start) == path.len() ==> path.last() == '/',
        secret::last_name_start(path, start) > start ==> path[secret::last_name_start(path, start)
            - 1] == '/',
    decreases path.len(),
{
    if path.last() != '/' {
        let front = path.drop_last();
        if front.len() > start {
            lemma_slash_before_last_name(front, start);
        } else {
            assert(secret::last_name_start(front, start) == start);
        }
    }
}

/// The default directory is one that a plain key file may stand in.
pub proof fn law_default_directory_is_plain()
    ensures
        plain_directory(secret::ARC_TOKENS_DIR_LINUX@),
{
    reveal_strlit("/var/opt/azcmagent/tokens");
}

/// A path that is accepted is that of a key file that is there, and its parent, which the path
/// begins with and no more than one name follows, is the expected directory, unless the
/// environment names another. A path that
/// begins with two separators must hold the names of a server and of a share, and one more.
pub proof fn law_accepted_file_is_in_the_directory(
    path: Seq<char>,
    ext: Option<Seq<char>>,
    parent: Option<Seq<char>>,
    expected: Seq<char>,
    present: bool,
    overridden: bool,
)
    requires
        secret::may_have_extension(path, ext),
        secret::may_have_parent(path, parent),
        secret::path_verdict(ext, parent, expected, present, overridden) is Ok,
        secret::two_separators(path) ==> secret::holds_a_name(path),
    ensures
        ext == Some(secret::ARC_KEY_EXTENSION@),
        present,
        overridden || parent == Some(expected),
        overridden || (expected.len() <= path.len() && path.take(expected.len() as int) == expected),
        overridden || secret::cut_before_a_name(path, expected),
{
    reveal_strlit("key");
    let key = secret::ARC_KEY_EXTENSION@;
    assert(ext == Some(key));
    let i = choose|i: int| secret::dotted_at(path, key, i);
    assert(secret::dotted_at(path, key, i));
    assert(path.subrange(i + 1, i + 1 + key.len())[0] == path[i + 1]);
    assert(path[i + 1] == 'k');
    assert(secret::of_a_name(path[i + 1]));
    assert(secret::holds_a_name(path));
}

/// Whether every platform agrees on the extension of a path.
pub open spec fn extension_is_settled(path: Seq<char>) -> bool {
    ||| secret::portable_path(path)
    ||| secret::share_path(path)
    ||| secret::below_drive(path)
    ||| secret::dotted_path(path)
    ||| secret::last_position(path, '.') < 0
}

/// Where the environment names a directory, no directory is wrong: of any two expected
/// directories the same is said, and it is an error only where the extension is wrong or the
/// file is missing.
pub proof fn law_override_allows_any_directory(
    ext: Option<Seq<char>>,
    parent: Option<Seq<char>>,
    d1: Seq<char>,
    d2: Seq<char>,
    present: bool,
)
    ensures
        secret::path_verdict(ext, parent, d1, present, true) == secret::path_verdict(
            ext,
            parent,
            d2,
            present,
            true,
        ),
        secret::path_verdict(ext, parent, d1, present, true) == (if ext != Some(
            secret::ARC_KEY_EXTENSION@,
        ) {
            Err::<(), ArcErrorView>(ArcErrorView::SecretExtension)
        } else if !present {
            Err(ArcErrorView::SecretMissing)
        } else {
            Ok(())
        }),
{
}

/// Where the environment names a directory, two checks of one path agree whatever directories
/// they expect, for every path on whose extension the platforms agree.
pub proof fn law_override_gives_one_verdict(
    path: Seq<char>,
    d1: Seq<char>,
    d2: Seq<char>,
    present: bool,
    v1: Result<(), ArcErrorView>,
    v2: Result<(), ArcErrorView>,
)
    requires
        extension_is_settled(path),
        secret::may_be_verdict(path, d1, present, true, v1),
        secret::may_be_verdict(path, d2, present, true, v2),
    ensures
        v1 == v2,
{
}

}
