//! What each operation answers, told by what goes in and what comes out: the challenge, the
//! requests, the steps, the tokens that are kept and the errors.
use crate::cache;
use crate::challenge;
use crate::credential;
use crate::error;
use crate::error::{ArcError, ArcErrorView, HttpFailure};
use crate::flow;
use crate::flow::{
    ActionView, EventView, FlowAction, FlowEvent, FlowView, Step, StepView, TokenFlow,
};
use crate::http;
use crate::http::ArcRequest;
use crate::laws;
use crate::secret;
use crate::text;
use crate::text_laws;
use crate::token::{AccessToken, TokenView};
use crate::url;
use azure_core::http::headers::Headers;
use vstd::prelude::*;
use vstd::utf8::*;

verus! {

broadcast use vstd::string::group_string_axioms;

/// A token is told by the whole of its text and by its time of expiry.
pub proof fn law_token_is_told_whole(t: AccessToken)
    ensures
        t@.token == t.token@,
        t@.expires_on == t.expires_on,
        cache::token_of(Some(t)) == Some(t@),
        cache::token_of(None) is None,
{
}

/// A request is told by its URL and by every header that it holds.
pub proof fn law_request_is_told_whole(r: ArcRequest)
    ensures
        r@.url == r.url@,
        r@.headers == http::header_map(r.headers),
{
}

/// Scopes are told one by one, each by the whole of its text.
pub proof fn law_scopes_are_told_whole(scopes: &[&str], kept: Seq<String>)
    ensures
        credential::scope_texts(scopes).len() == scopes@.len(),
        forall|i: int|
            0 <= i < scopes@.len() ==> #[trigger] credential::scope_texts(scopes)[i]
                == scopes@[i]@,
        cache::texts(kept).len() == kept.len(),
        forall|i: int| 0 <= i < kept.len() ==> #[trigger] cache::texts(kept)[i] == kept[i]@,
{
}

/// A step is told by what is waited for and by what is to be done, with all that either holds.
pub proof fn law_step_is_told_whole(s: Step)
    ensures
        match s.flow {
            TokenFlow::Challenge { url } => s@.flow == (FlowView::Challenge { url: url@ }),
            TokenFlow::Probe { url, path } => s@.flow == (FlowView::Probe {
                url: url@,
                path: path@,
            }),
            TokenFlow::Read { url, path } => s@.flow == (FlowView::Read { url: url@, path: path@ }),
            TokenFlow::Token => s@.flow is Token,
            TokenFlow::Decode => s@.flow is Decode,
            TokenFlow::Done => s@.flow is Done,
        },
        s@.flow == s.flow@,
        match s.action {
            FlowAction::Send(r) => s@.action == ActionView::Send(r@),
            FlowAction::Probe { path } => s@.action == (ActionView::Probe { path: path@ }),
            FlowAction::Read { path } => s@.action == (ActionView::Read { path: path@ }),
            FlowAction::Decode { body } => s@.action == (ActionView::Decode { body: body@ }),
            FlowAction::Finish(t) => s@.action == ActionView::Finish(t@),
            FlowAction::Fail(e) => s@.action == ActionView::Fail(e@),
        },
        s@.action == s.action@,
        credential::first_step(Ok(s)) == Ok::<StepView, ArcErrorView>(s@),
{
}

/// An event is told by all that it brings; of the headers of a response, by the challenge.
pub proof fn law_event_is_told_whole(e: FlowEvent)
    ensures
        match e {
            FlowEvent::Challenged { status, headers, body } => e@ == (EventView::Challenged {
                status,
                challenge: http::challenge_in(headers),
                body: body@,
            }),
            FlowEvent::Probed { present, tokens_dir: Some(dir), overridden } => e@ == (
            EventView::Probed { present, tokens_dir: Some(dir@), overridden }),
            FlowEvent::Probed { present, tokens_dir: None, overridden } => e@ == (
            EventView::Probed { present, tokens_dir: None, overridden }),
            FlowEvent::SecretRead { secret: Some(bytes) } => e@ == (EventView::SecretRead {
                secret: Some(bytes@),
            }),
            FlowEvent::SecretRead { secret: None } => e@ == (EventView::SecretRead {
                secret: None,
            }),
            FlowEvent::TokenReceived { status, body } => e@ == (EventView::TokenReceived {
                status,
                body: body@,
            }),
            FlowEvent::TokenDecoded { token: Some(t) } => e@ == (EventView::TokenDecoded {
                token: Some(t@),
            }),
            FlowEvent::TokenDecoded { token: None } => e@ == (EventView::TokenDecoded {
                token: None,
            }),
        },
{
}

/// An error is told by its kind and by all that it holds.
pub proof fn law_error_is_told_whole(e: ArcError, f: HttpFailure)
    ensures
        f@.status == f.status,
        match f.error_code {
            Some(code) => f@.error_code == Some(code@),
            None => f@.error_code is None,
        },
        match e {
            ArcError::InvalidEndpoint { endpoint } => e@ == (ArcErrorView::InvalidEndpoint {
                endpoint: endpoint@,
            }),
            ArcError::ScopeCount => e@ is ScopeCount,
            ArcError::RequestTooLong => e@ is RequestTooLong,
            ArcError::Unchallenged { status } => e@ == (ArcErrorView::Unchallenged { status }),
            ArcError::Http(failure) => e@ == ArcErrorView::Http(failure@),
            ArcError::MissingChallenge => e@ is MissingChallenge,
            ArcError::MissingRealm => e@ is MissingRealm,
            ArcError::SecretExtension => e@ is SecretExtension,
            ArcError::SecretMissing => e@ is SecretMissing,
            ArcError::SecretDirectory { expected, found } => e@ == (ArcErrorView::SecretDirectory {
                expected: expected@,
                found: found@,
            }),
            ArcError::SecretUnreadable { path } => e@ == (ArcErrorView::SecretUnreadable {
                path: path@,
            }),
            ArcError::SecretTooLarge { size } => e@ == (ArcErrorView::SecretTooLarge { size }),
            ArcError::InvalidTokenResponse => e@ is InvalidTokenResponse,
        },
        credential::first_step(Err(e)) == Err::<StepView, ArcErrorView>(e@),
        secret::verdict_of(Err(e)) == Err::<(), ArcErrorView>(e@),
        secret::verdict_of(Ok(())) == Ok::<(), ArcErrorView>(()),
{
}

/// What is said of each error holds the whole of what the error is about, between the words for
/// it. A refusal by the service, and a request that is too long, has no words.
pub proof fn law_messages(e: ArcErrorView)
    ensures
        match e {
            ArcErrorView::InvalidEndpoint { endpoint } => e.message() == Some(
                "Azure Arc endpoint must be a valid URL, got '"@ + endpoint + "'"@,
            ),
            ArcErrorView::ScopeCount => e.message() == Some(
                "Azure Arc managed identity requires exactly one scope"@,
            ),
            ArcErrorView::Unchallenged { status } => e.message() == Some(
                "Azure Arc challenge expected HTTP 401, received "@ + text::decimal(status as nat),
            ),
            ArcErrorView::MissingChallenge => e.message() == Some(
                "Azure Arc response missing www-authenticate header"@,
            ),
            ArcErrorView::MissingRealm => e.message() == Some(
                "Azure Arc www-authenticate header missing expected Basic realm path"@,
            ),
            ArcErrorView::SecretExtension => e.message() == Some(
                "Azure Arc secret file must have .key extension"@,
            ),
            ArcErrorView::SecretMissing => e.message() == Some(
                "Azure Arc secret file does not exist"@,
            ),
            ArcErrorView::SecretDirectory { expected, found } => e.message() == Some(
                "Azure Arc secret file directory mismatch (expected "@ + expected + ", got "@
                    + found + ")"@,
            ),
            ArcErrorView::SecretUnreadable { path } => e.message() == Some(
                "Azure Arc failed to read secret file '"@ + path + "'"@,
            ),
            ArcErrorView::SecretTooLarge { size } => e.message() == Some(
                "Azure Arc secret file too large ("@ + text::decimal(size as nat)
                    + " bytes, max 4096)"@,
            ),
            ArcErrorView::InvalidTokenResponse => e.message() == Some(
                "Azure Arc token response invalid JSON"@,
            ),
            ArcErrorView::Http(_) => e.message() is None,
            ArcErrorView::RequestTooLong => e.message() is None,
        },
{
    if let ArcErrorView::SecretTooLarge { size } = e {
        reveal_strlit(" bytes, max ");
        reveal_strlit(")");
        reveal_strlit(" bytes, max 4096)");
        let max = text::decimal(4096);
        text_laws::law_numbers_are_written(409, 6);
        text_laws::law_numbers_are_written(40, 9);
        text_laws::law_numbers_are_written(4, 0);
        text_laws::law_numbers_are_written(0, 4);
        assert(text::decimal(4) =~= seq!['4']);
        assert(text::decimal(40) =~= text::decimal(4).push('0'));
        assert(text::decimal(409) =~= text::decimal(40).push('9'));
        assert(max =~= text::decimal(409).push('6'));
        assert(" bytes, max "@ + max + ")"@ =~= " bytes, max 4096)"@);
        let front = "Azure Arc secret file too large ("@ + text::decimal(size as nat);
        assert(front + " bytes, max "@ + max + ")"@ =~= front + (" bytes, max "@ + max + ")"@));
    }
}

/// The challenge of a response is the value of its `www-authenticate` header, if it has one.
pub proof fn law_challenge_is_the_header(headers: Headers)
    ensures
        http::challenge_in(headers) is Some <==> http::header_map(headers).contains_key(
            "www-authenticate"@,
        ),
        http::challenge_in(headers) matches Some(value) ==> value == http::header_map(
            headers,
        )["www-authenticate"@],
{
}

/// A status from 200 to 299 is a success, and no other is.
pub proof fn law_success(status: u16)
    ensures
        http::success(status) <==> status as int / 100 == 2,
{
}

/// The request for a challenge goes to the URL with one header, `metadata: true`.
pub proof fn law_request_for_a_challenge(url: Seq<char>, name: Seq<char>)
    ensures
        http::challenge_request(url).url == url,
        http::challenge_request(url).headers.contains_key(name) <==> name == "metadata"@,
        http::challenge_request(url).headers["metadata"@] == "true"@,
{
}

/// The request that answers a challenge goes to the URL with two headers: `metadata: true`, and
/// `authorization`, which holds `Basic `, with a blank, and then the whole of the secret.
pub proof fn law_answer_to_a_challenge(url: Seq<char>, secret: Seq<char>, name: Seq<char>)
    ensures
        http::authorized_request(url, secret).url == url,
        http::authorized_request(url, secret).headers.contains_key(name) <==> name == "metadata"@
            || name == "authorization"@,
        http::authorized_request(url, secret).headers["metadata"@] == "true"@,
        http::authorized_request(url, secret).headers["authorization"@] == "Basic "@ + secret,
{
    reveal_strlit("metadata");
    reveal_strlit("authorization");
    assert("metadata"@.len() != "authorization"@.len());
}

/// The first step asks for the challenge at the URL, and waits for it.
pub proof fn law_first_step(url: Seq<char>)
    ensures
        flow::started(url).flow == (FlowView::Challenge { url }),
        flow::started(url).action is Send,
        flow::started(url).action->Send_0.url == url,
        flow::started(url).action->Send_0.headers == Map::<Seq<char>, Seq<char>>::empty().insert(
            "metadata"@,
            "true"@,
        ),
{
}

/// A last step waits for nothing, and holds the token or the error that it is made of.
pub proof fn law_last_steps(token: TokenView, e: ArcErrorView)
    ensures
        flow::finished(token).flow is Done,
        flow::finished(token).action == ActionView::Finish(token),
        flow::failed(e).flow is Done,
        flow::failed(e).action == ActionView::Fail(e),
{
}

/// Each thing that is waited for has one kind of event that may come, and each such event has a
/// step that may follow; once nothing is waited for, no event may come.
pub proof fn law_events_are_awaited(f: FlowView, e: EventView, step: StepView)
    ensures
        flow::awaited(f, e) <==> match f {
            FlowView::Challenge { .. } => e is Challenged,
            FlowView::Probe { .. } => e is Probed,
            FlowView::Read { .. } => e is SecretRead,
            FlowView::Token => e is TokenReceived,
            FlowView::Decode => e is TokenDecoded,
            FlowView::Done => false,
        },
        flow::may_follow(f, e, step) ==> flow::awaited(f, e),
{
}

/// A response to the first request that is not a 401 ends it: as an error of the protocol where
/// it is a success, and else as a refusal with its status and the error code of its body. A 401
/// without a challenge, and a challenge without a path, ends it too.
pub proof fn law_no_challenge_ends_it(
    url: Seq<char>,
    status: u16,
    challenge: Option<Seq<char>>,
    body: Seq<u8>,
    step: StepView,
)
    requires
        flow::may_follow(
            FlowView::Challenge { url },
            EventView::Challenged { status, challenge, body },
            step,
        ),
    ensures
        200 <= status <= 299 ==> step.flow is Done && step.action == ActionView::Fail(
            ArcErrorView::Unchallenged { status },
        ),
        status != 401 && !(200 <= status <= 299) ==> step.flow is Done && step.action is Fail
            && step.action->Fail_0 is Http && step.action->Fail_0->Http_0.status == status
            && step.action->Fail_0->Http_0.error_code == error::error_code_in_body(body),
        status == 401 && challenge is None ==> step.flow is Done && step.action
            == ActionView::Fail(ArcErrorView::MissingChallenge),
        status == 401 && challenge is Some && challenge::realm_path(challenge->0) is None
            ==> step.flow is Done && step.action == ActionView::Fail(ArcErrorView::MissingRealm),
{
}

/// A challenge that names a path leads to that path: it is looked for where it has the
/// extension of a key file, and else that is the error.
pub proof fn law_challenge_leads_to_its_path(
    url: Seq<char>,
    header: Seq<char>,
    path: Seq<char>,
    body: Seq<u8>,
    step: StepView,
)
    requires
        challenge::realm_path(header) == Some(path),
        flow::may_follow(
            FlowView::Challenge { url },
            EventView::Challenged { status: 401, challenge: Some(header), body },
            step,
        ),
    ensures
        exists|ext: Option<Seq<char>>| #[trigger]
            secret::may_have_extension(path, ext) && (ext == Some("key"@) ==> step.flow == (
            FlowView::Probe { url, path }) && step.action == (ActionView::Probe { path })) && (ext
                != Some("key"@) ==> step.flow is Done && step.action == ActionView::Fail(
                ArcErrorView::SecretExtension,
            )),
        flow::named_path(
            EventView::Challenged { status: 401, challenge: Some(header), body },
        ) == Some(path),
{
    let event = EventView::Challenged { status: 401, challenge: Some(header), body };
    let ext = choose|ext: Option<Seq<char>>| #[trigger]
        flow::may_name_extension(event, ext) && step == flow::challenged(
            url,
            401,
            Some(header),
            body,
            ext,
        );
    assert(secret::may_have_extension(path, ext));
}

/// The steps by hand agree with this: the extension decides, and nothing is lost on the way.
pub proof fn law_extension_decides(url: Seq<char>, path: Seq<char>, ext: Option<Seq<char>>)
    ensures
        ext == Some("key"@) ==> flow::path_known(url, path, ext).flow == (FlowView::Probe {
            url,
            path,
        }) && flow::path_known(url, path, ext).action == (ActionView::Probe { path }),
        ext != Some("key"@) ==> flow::path_known(url, path, ext).flow is Done && flow::path_known(
            url,
            path,
            ext,
        ).action == ActionView::Fail(ArcErrorView::SecretExtension),
        ext == Some("key"@) <==> secret::extension_verdict(ext) is Ok,
        ext != Some("key"@) ==> secret::extension_verdict(ext) == Err::<(), ArcErrorView>(
            ArcErrorView::SecretExtension,
        ),
{
}

/// The error for a response that is no challenge tells its status, and, unless it is a success,
/// the error code.
pub proof fn law_unchallenged(status: u16, code: Option<Seq<char>>)
    ensures
        200 <= status <= 299 ==> flow::unchallenged(status, code) == (ArcErrorView::Unchallenged {
            status,
        }),
        !(200 <= status <= 299) ==> flow::unchallenged(status, code) is Http && flow::unchallenged(
            status,
            code,
        )->Http_0.status == status && flow::unchallenged(status, code)->Http_0.error_code == code,
{
}

/// The place of a file decides: a file that is not there is missing; one that is there is read
/// where its directory is the expected one, where the environment names another, or where it
/// has none; and else both directories are told.
pub proof fn law_place_decides(
    url: Seq<char>,
    path: Seq<char>,
    parent: Option<Seq<char>>,
    present: bool,
    tokens_dir: Option<Seq<char>>,
    overridden: bool,
)
    ensures
        ({
            let expected = match tokens_dir {
                Some(d) => d,
                None => "<unavailable default tokens dir>"@,
            };
            let step = flow::probed(url, path, parent, present, tokens_dir, overridden);
            let verdict = secret::location_verdict(parent, expected, present, overridden);
            &&& secret::expected_dir(tokens_dir) == expected
            &&& if !present {
                &&& verdict == Err::<(), ArcErrorView>(ArcErrorView::SecretMissing)
                &&& step.flow is Done
                &&& step.action == ActionView::Fail(ArcErrorView::SecretMissing)
            } else if overridden || parent is None || parent == Some(expected) {
                &&& verdict is Ok
                &&& step.flow == (FlowView::Read { url, path })
                &&& step.action == (ActionView::Read { path })
            } else {
                &&& verdict == Err::<(), ArcErrorView>(
                    ArcErrorView::SecretDirectory { expected, found: parent->0 },
                )
                &&& step.flow is Done
                &&& step.action == ActionView::Fail(
                    ArcErrorView::SecretDirectory { expected, found: parent->0 },
                )
            }
        }),
{
}

/// News of a file leads on by its place, with a parent that its path may have.
pub proof fn law_news_of_a_file(
    url: Seq<char>,
    path: Seq<char>,
    present: bool,
    tokens_dir: Option<Seq<char>>,
    overridden: bool,
    step: StepView,
)
    requires
        flow::may_follow(
            FlowView::Probe { url, path },
            EventView::Probed { present, tokens_dir, overridden },
            step,
        ),
    ensures
        exists|parent: Option<Seq<char>>| #[trigger]
            secret::may_have_parent(path, parent) && step == flow::probed(
                url,
                path,
                parent,
                present,
                tokens_dir,
                overridden,
            ),
{
}

/// A secret is checked by its size alone, to the byte: up to 4096 of them are accepted.
pub proof fn law_size_decides(secret: Seq<u8>)
    ensures
        secret.len() <= 4096 <==> secret::size_verdict(secret) is Ok,
        secret.len() > 4096 ==> secret::size_verdict(secret) == Err::<(), ArcErrorView>(
            ArcErrorView::SecretTooLarge { size: secret.len() as u64 },
        ),
{
}

/// A secret of at most 4096 bytes is sent, the whole of its text behind `Basic ` in the header
/// `authorization`, to the URL of the first request; a larger one is not sent, and neither is
/// one that could not be read.
pub proof fn law_whole_secret_is_sent(
    url: Seq<char>,
    path: Seq<char>,
    content: Option<Seq<u8>>,
    step: StepView,
    name: Seq<char>,
)
    requires
        flow::may_follow(
            FlowView::Read { url, path },
            EventView::SecretRead { secret: content },
            step,
        ),
    ensures
        content is None ==> step.flow is Done && step.action == ActionView::Fail(
            ArcErrorView::SecretUnreadable { path },
        ),
        content is Some && content->0.len() > 4096 ==> step.flow is Done && step.action
            == ActionView::Fail(ArcErrorView::SecretTooLarge { size: content->0.len() as u64 }),
        content is Some && content->0.len() <= 4096 ==> {
            &&& step.flow is Token
            &&& step.action is Send
            &&& step.action->Send_0.url == url
            &&& step.action->Send_0.headers.contains_key(name) <==> name == "metadata"@ || name
                == "authorization"@
            &&& step.action->Send_0.headers["metadata"@] == "true"@
            &&& step.action->Send_0.headers["authorization"@] == "Basic "@ + text::utf8_lossy(
                content->0,
            )
        },
{
    if content is Some {
        law_answer_to_a_challenge(url, text::utf8_lossy(content->0), name);
    }
}

/// The response to the second request is decoded, the whole of it, where it is a success, and
/// else ends it as a refusal with its status and the error code of its body.
pub proof fn law_response_is_decoded(status: u16, body: Seq<u8>, step: StepView)
    requires
        flow::may_follow(FlowView::Token, EventView::TokenReceived { status, body }, step),
    ensures
        200 <= status <= 299 ==> step.flow is Decode && step.action == (ActionView::Decode {
            body,
        }),
        !(200 <= status <= 299) ==> step.flow is Done && step.action is Fail
            && step.action->Fail_0 is Http && step.action->Fail_0->Http_0.status == status
            && step.action->Fail_0->Http_0.error_code == error::error_code_in_body(body),
{
}

/// The token that was decoded is the token that comes out; without one the response is invalid.
pub proof fn law_decoded_token_comes_out(token: Option<TokenView>, step: StepView)
    requires
        flow::may_follow(FlowView::Decode, EventView::TokenDecoded { token }, step),
    ensures
        step.flow is Done,
        token matches Some(t) ==> step.action == ActionView::Finish(t),
        token is None ==> step.action == ActionView::Fail(ArcErrorView::InvalidTokenResponse),
{
}

/// The endpoint that the environment names is used as it stands, and the default only where it
/// names none; an endpoint that is no URL is refused by its own name.
pub proof fn law_endpoint(named: Seq<char>, parsed: Seq<char>)
    ensures
        credential::endpoint_source(Some(named)) == named,
        credential::endpoint_source(None)
            == "http://127.0.0.1:40342/metadata/identity/oauth2/token"@,
        credential::endpoint_verdict(named, Some(parsed)) == Ok::<Seq<char>, ArcErrorView>(parsed),
        credential::endpoint_verdict(named, None) == Err::<Seq<char>, ArcErrorView>(
            ArcErrorView::InvalidEndpoint { endpoint: named },
        ),
{
}

/// The resource of a scope is the scope without one `/.default` at its end, where it has it.
pub proof fn law_resource_of_a_scope(resource: Seq<char>, scope: Seq<char>)
    ensures
        credential::resource_of(resource + "/.default"@) == resource,
        (forall|front: Seq<char>| scope != #[trigger] (front + "/.default"@))
            ==> credential::resource_of(scope) == scope,
{
    text_laws::law_suffixes(resource + "/.default"@, resource, "/.default"@);
    text_laws::law_suffixes(scope, resource, "/.default"@);
    if forall|front: Seq<char>| scope != #[trigger] (front + "/.default"@) {
        if text::ends_with(scope, "/.default"@) {
            let front = scope.take(scope.len() - "/.default"@.len());
            assert(scope == front + "/.default"@);
        }
    }
}

/// A scope that ends in `/.default` begins with a request for what stands before that, at the
/// URL of the endpoint for it; only a URL of more than 32 bits' length is refused.
pub proof fn law_request_asks_for_the_resource(endpoint: Seq<char>, resource: Seq<char>)
    ensures
        ({
            let began = credential::begun(endpoint, seq![resource + "/.default"@]);
            let url = url::token_url(endpoint, resource);
            if url.len() <= 4294967295 {
                &&& began is Ok
                &&& began->Ok_0.flow == (FlowView::Challenge { url })
                &&& began->Ok_0.action is Send
                &&& began->Ok_0.action->Send_0.url == url
                &&& began->Ok_0.action->Send_0.headers == Map::<Seq<char>, Seq<char>>::empty(
                ).insert("metadata"@, "true"@)
            } else {
                began == Err::<StepView, ArcErrorView>(ArcErrorView::RequestTooLong)
            }
        }),
{
    law_resource_of_a_scope(resource, resource);
}

/// A scope that does not end in `/.default` begins with a request for the scope as it stands.
pub proof fn law_request_asks_for_the_scope(endpoint: Seq<char>, scope: Seq<char>)
    requires
        forall|front: Seq<char>| scope != #[trigger] (front + "/.default"@),
    ensures
        ({
            let began = credential::begun(endpoint, seq![scope]);
            let url = url::token_url(endpoint, scope);
            if url.len() <= 4294967295 {
                &&& began is Ok
                &&& began->Ok_0.flow == (FlowView::Challenge { url })
                &&& began->Ok_0.action is Send
                &&& began->Ok_0.action->Send_0.url == url
                &&& began->Ok_0.action->Send_0.headers == Map::<Seq<char>, Seq<char>>::empty(
                ).insert("metadata"@, "true"@)
            } else {
                began == Err::<StepView, ArcErrorView>(ArcErrorView::RequestTooLong)
            }
        }),
{
    law_resource_of_a_scope(scope, scope);
}

/// Exactly one scope is asked for: with none, or with more, nothing begins.
pub proof fn law_one_scope(endpoint: Seq<char>, scopes: Seq<Seq<char>>)
    ensures
        scopes.len() != 1 <==> credential::begun(endpoint, scopes) == Err::<StepView, ArcErrorView>(
            ArcErrorView::ScopeCount,
        ),
{
}

/// A token that is still good is the answer; without one, what begins is what begins for the
/// scopes.
pub proof fn law_kept_token_is_the_answer(
    endpoint: Seq<char>,
    token: TokenView,
    scopes: Seq<Seq<char>>,
)
    ensures
        credential::requested(endpoint, Some(token), scopes) is Ok,
        credential::requested(endpoint, Some(token), scopes)->Ok_0.flow is Done,
        credential::requested(endpoint, Some(token), scopes)->Ok_0.action == ActionView::Finish(
            token,
        ),
        credential::requested(endpoint, None, scopes) == credential::begun(endpoint, scopes),
{
}

/// A token is good until the second in which it expires, however long it is.
pub proof fn law_token_is_good_until_it_expires(token: TokenView, now: i64)
    ensures
        now < token.expires_on ==> cache::fresh(Some(token), now) == Some(token),
        now >= token.expires_on ==> cache::fresh(Some(token), now) is None,
        cache::fresh(None, now) is None,
{
}

/// The token to keep is the one that a step ends with, whatever token that is, and there is
/// none where the step does not end with one.
pub proof fn law_token_of_a_step(step: StepView)
    ensures
        step.action matches ActionView::Finish(t) ==> cache::token_in(step) == Some(t),
        !(step.action is Finish) ==> cache::token_in(step) is None,
{
}

/// The path that a header names is what follows `Basic realm=`, in capitals or in small
/// letters, whatever stands before it that does not hold the same, and however long it all is.
pub proof fn law_path_behind_the_marker(before: Seq<char>, marker: Seq<char>, rest: Seq<char>)
    requires
        marker.len() == 12,
        forall|k: int|
            0 <= k < 12 ==> #[trigger] marker[k] == "basic realm="@[k] || ('a'
                <= "basic realm="@[k] <= 'z' && marker[k] as int == "basic realm="@[k] as int - 32),
        forall|i: int|
            #![trigger before.skip(i)]
            0 <= i <= before.len() - 12 ==> exists|k: int|
                0 <= k < 12 && (#[trigger] before.skip(i)[k]) != "basic realm="@[k] && !('a'
                    <= "basic realm="@[k] <= 'z' && before.skip(i)[k] as int
                    == "basic realm="@[k] as int - 32),
    ensures
        challenge::realm_path(before + marker + rest) == Some(challenge::bare_path(rest)),
{
    let word = "basic realm="@;
    assert(word.len() == 12 && (forall|k: int| 0 <= k < 12 ==> !('A' <= #[trigger] word[k] <= 'Z'))
        && word[11] == '=' && (forall|k: int| 0 <= k < 11 ==> #[trigger] word[k] != '=')) by {
        reveal_strlit("basic realm=");
    }
    let header = before + marker + rest;
    let at = before.len() as int;
    lemma_marker_is_there(header, marker, word, at);
    assert forall|i: int| 0 <= i < at implies !#[trigger] challenge::realm_at(header, i) by {
        if i + 12 <= at {
            let k = choose|k: int|
                0 <= k < 12 && (#[trigger] before.skip(i)[k]) != word[k] && !('a' <= word[k] <= 'z'
                    && before.skip(i)[k] as int == word[k] as int - 32);
            assert(header[i + k] == before.skip(i)[k]);
            lemma_marker_is_not_there(header, word, i, k);
        } else {
            let k = i + 11 - at;
            assert(header[i + 11] == marker[k]);
            assert(word[k] != '=');
            lemma_marker_is_not_there(header, word, i, 11);
        }
    }
    laws::law_path_follows_the_marker(header, at);
    assert(header.skip(at + 12) =~= rest);
}

proof fn lemma_marker_is_there(header: Seq<char>, marker: Seq<char>, word: Seq<char>, at: int)
    requires
        word == "basic realm="@,
        word.len() == 12,
        forall|k: int| 0 <= k < 12 ==> !('A' <= #[trigger] word[k] <= 'Z'),
        0 <= at,
        at + 12 <= header.len(),
        marker.len() == 12,
        forall|k: int| 0 <= k < 12 ==> header[at + k] == #[trigger] marker[k],
        forall|k: int|
            0 <= k < 12 ==> #[trigger] marker[k] == word[k] || ('a' <= word[k] <= 'z'
                && marker[k] as int == word[k] as int - 32),
    ensures
        challenge::realm_at(header, at),
{
    let here = header.subrange(at, at + 12);
    assert forall|k: int| 0 <= k < 12 implies text::ascii_lower(here)[k] == word[k] by {
        assert(here[k] == marker[k]);
        text_laws::law_lowering(here, k);
    }
    assert(text::ascii_lower(here) =~= word);
}

proof fn lemma_marker_is_not_there(header: Seq<char>, word: Seq<char>, i: int, k: int)
    requires
        word == "basic realm="@,
        word.len() == 12,
        0 <= i,
        0 <= k < 12,
        i + k < header.len(),
        header[i + k] != word[k],
        !('a' <= word[k] <= 'z' && header[i + k] as int == word[k] as int - 32),
    ensures
        !challenge::realm_at(header, i),
{
    if challenge::realm_at(header, i) {
        let there = header.subrange(i, i + 12);
        assert(there[k] == header[i + k]);
        text_laws::law_lowering(there, k);
        assert(text::ascii_lower(there)[k] == word[k]);
    }
}

/// A header that does not hold `Basic realm=`, in capitals or in small letters, names no path.
pub proof fn law_no_path_without_the_marker(header: Seq<char>)
    requires
        forall|i: int|
            #![trigger header.skip(i)]
            0 <= i <= header.len() - 12 ==> exists|k: int|
                0 <= k < 12 && (#[trigger] header.skip(i)[k]) != "basic realm="@[k] && !('a'
                    <= "basic realm="@[k] <= 'z' && header.skip(i)[k] as int
                    == "basic realm="@[k] as int - 32),
    ensures
        challenge::realm_path(header) is None,
{
    let word = "basic realm="@;
    assert(word.len() == 12) by {
        reveal_strlit("basic realm=");
    }
    assert forall|i: int| !#[trigger] challenge::realm_at(header, i) by {
        if 0 <= i <= header.len() - 12 {
            let k = choose|k: int|
                0 <= k < 12 && (#[trigger] header.skip(i)[k]) != word[k] && !('a' <= word[k] <= 'z'
                    && header.skip(i)[k] as int == word[k] as int - 32);
            assert(header[i + k] == header.skip(i)[k]);
            lemma_marker_is_not_there(header, word, i, k);
        }
    }
    laws::law_path_follows_the_marker(header, 0);
}

/// What is read of a path is the first word, and that without its quotes: the path comes out as
/// it was written between white space and quotes, and is empty where nothing stands there.
pub proof fn law_path_between_quotes(
    before: Seq<char>,
    a: Seq<char>,
    path: Seq<char>,
    b: Seq<char>,
    after: Seq<char>,
)
    requires
        forall|i: int| 0 <= i < before.len() ==> text::white_space(before[i]),
        forall|i: int| 0 <= i < a.len() ==> (#[trigger] a[i] == '"' || a[i] == '\''),
        forall|i: int| 0 <= i < b.len() ==> (#[trigger] b[i] == '"' || b[i] == '\''),
        forall|i: int| 0 <= i < path.len() ==> !text::white_space(path[i]),
        path.len() > 0 ==> path[0] != '"' && path[0] != '\'' && path.last() != '"' && path.last()
            != '\'',
        after.len() > 0 ==> text::white_space(after[0]),
        (a + path + b).len() == 0 ==> after.len() == 0,
    ensures
        challenge::bare_path(before + (a + path + b) + after) == path,
{
    let quoted = a + path + b;
    assert forall|i: int| 0 <= i < quoted.len() implies !text::white_space(quoted[i]) by {
        if i < a.len() {
            assert(quoted[i] == a[i]);
        } else if i < a.len() + path.len() {
            assert(quoted[i] == path[i - a.len()]);
        } else {
            assert(quoted[i] == b[i - a.len() - path.len()]);
        }
    }
    text_laws::law_first_word(before, quoted, after);
    text_laws::law_unquoted(a, path, b);
}

/// The encoding of a text is that of its bytes one by one: letters, digits, `*`, `-`, `.` and
/// `_` stand for themselves, a blank is a `+`, and any other byte is a `%` and its two
/// hexadecimal digits, with capitals.
pub proof fn law_bytes_are_encoded(s: Seq<char>, x: Seq<u8>, y: Seq<u8>, b: u8)
    ensures
        url::form_encode(s) == url::form_bytes(encode_utf8(s)),
        url::form_bytes(x + y) == url::form_bytes(x) + url::form_bytes(y),
        url::form_bytes(Seq::<u8>::empty()).len() == 0,
        ({
            let r = url::form_bytes(seq![b]);
            if ('0' as u8 <= b && b <= '9' as u8) || ('A' as u8 <= b && b <= 'Z' as u8) || ('a' as u8
                <= b && b <= 'z' as u8) || b == '*' as u8 || b == '-' as u8 || b == '.' as u8 || b
                == '_' as u8 {
                r.len() == 1 && r[0] as int == b
            } else if b == ' ' as u8 {
                r.len() == 1 && r[0] == '+'
            } else {
                &&& r.len() == 3
                &&& r[0] == '%'
                &&& (if r[1] <= '9' {
                    r[1] as int - 48
                } else {
                    r[1] as int - 55
                }) * 16 + (if r[2] <= '9' {
                    r[2] as int - 48
                } else {
                    r[2] as int - 55
                }) == b
                &&& '0' <= r[1] <= '9' || 'A' <= r[1] <= 'F'
                &&& '0' <= r[2] <= '9' || 'A' <= r[2] <= 'F'
            }
        }),
    decreases x.len(),
{
    let none = Seq::<u8>::empty();
    let one = seq![b];
    assert(one.drop_first() =~= none);
    assert(url::form_bytes(none) =~= Seq::<char>::empty());
    assert(url::form_bytes(one) =~= url::form_byte(b));
    if x.len() == 0 {
        assert(x + y =~= y);
        assert(url::form_bytes(x) + url::form_bytes(y) =~= url::form_bytes(y));
    } else {
        assert((x + y).drop_first() =~= x.drop_first() + y);
        law_bytes_are_encoded(s, x.drop_first(), y, b);
        assert(url::form_bytes(x + y) =~= url::form_bytes(x) + url::form_bytes(y));
    }
}

}
