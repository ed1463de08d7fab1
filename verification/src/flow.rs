//! Getting a token, one decision at a time: what has happened goes in, what to do next comes
//! out.
use crate::challenge;
use crate::challenge::parse_basic_realm_path;
use crate::error;
use crate::error::{refusal, ArcError, ArcErrorView, HttpFailureView};
use crate::http;
use crate::http::{answer_challenge, is_success, www_authenticate, ArcRequest, RequestView};
use crate::secret;
use crate::secret::{
    check_secret_extension, check_secret_location, check_secret_size, expected_dir_text,
    path_extension, path_parent,
};
use crate::text;
use crate::text::text_lossy;
use crate::token::{AccessToken, TokenView};
use azure_core::http::headers::Headers;
use vstd::pervasive::unreached;
use vstd::prelude::*;
use vstd::utf8::*;

verus! {

broadcast use vstd::string::group_string_axioms;

/// The status of a challenge.
pub const UNAUTHORIZED: u16 = 401;

/// What is being waited for.
pub enum TokenFlow {
    /// The response to the request for the challenge.
    Challenge { url: String },
    /// News of whether the secret file is there.
    Probe { url: String, path: String },
    /// The content of the secret file.
    Read { url: String, path: String },
    /// The response to the request that answers the challenge.
    Token,
    /// The token that the response holds.
    Decode,
    /// Nothing more.
    Done,
}

/// What is being waited for, as a mathematical value.
pub enum FlowView {
    Challenge { url: Seq<char> },
    Probe { url: Seq<char>, path: Seq<char> },
    Read { url: Seq<char>, path: Seq<char> },
    Token,
    Decode,
    Done,
}

impl View for TokenFlow {
    type V = FlowView;

    open spec fn view(&self) -> FlowView {
        match self {
            TokenFlow::Challenge { url } => FlowView::Challenge { url: url@ },
            TokenFlow::Probe { url, path } => FlowView::Probe { url: url@, path: path@ },
            TokenFlow::Read { url, path } => FlowView::Read { url: url@, path: path@ },
            TokenFlow::Token => FlowView::Token,
            TokenFlow::Decode => FlowView::Decode,
            TokenFlow::Done => FlowView::Done,
        }
    }
}

/// What has happened.
pub enum FlowEvent {
    /// The request for the challenge has been answered.
    Challenged { status: u16, headers: Headers, body: Vec<u8> },
    /// Whether the secret file is there; the directory of the secret files; whether the
    /// environment of the process names a directory in place of the default.
    Probed { present: bool, tokens_dir: Option<String>, overridden: bool },
    /// The content of the secret file, if it could be read.
    SecretRead { secret: Option<Vec<u8>> },
    /// The request that answers the challenge has been answered.
    TokenReceived { status: u16, body: Vec<u8> },
    /// The token that the response holds, if it could be decoded.
    TokenDecoded { token: Option<AccessToken> },
}

/// What has happened, as a mathematical value.
pub enum EventView {
    Challenged { status: u16, challenge: Option<Seq<char>>, body: Seq<u8> },
    Probed { present: bool, tokens_dir: Option<Seq<char>>, overridden: bool },
    SecretRead { secret: Option<Seq<u8>> },
    TokenReceived { status: u16, body: Seq<u8> },
    TokenDecoded { token: Option<TokenView> },
}

impl View for FlowEvent {
    type V = EventView;

    open spec fn view(&self) -> EventView {
        match self {
            FlowEvent::Challenged { status, headers, body } => EventView::Challenged {
                status: *status,
                challenge: http::challenge_in(*headers),
                body: body@,
            },
            FlowEvent::Probed { present, tokens_dir, overridden } => EventView::Probed {
                present: *present,
                tokens_dir: text::text_of(*tokens_dir),
                overridden: *overridden,
            },
            FlowEvent::SecretRead { secret } => EventView::SecretRead {
                secret: match secret {
                    Some(s) => Some(s@),
                    None => None,
                },
            },
            FlowEvent::TokenReceived { status, body } => EventView::TokenReceived {
                status: *status,
                body: body@,
            },
            FlowEvent::TokenDecoded { token } => EventView::TokenDecoded {
                token: match token {
                    Some(t) => Some(t@),
                    None => None,
                },
            },
        }
    }
}

/// What to do next.
pub enum FlowAction {
    /// Send a request.
    Send(ArcRequest),
    /// Find out whether there is a file at the path.
    Probe { path: String },
    /// Read the file at the path.
    Read { path: String },
    /// Decode a token response.
    Decode { body: Vec<u8> },
    /// Nothing: this is the token.
    Finish(AccessToken),
    /// Nothing: there is no token.
    Fail(ArcError),
}

/// What to do next, as a mathematical value.
pub enum ActionView {
    Send(RequestView),
    Probe { path: Seq<char> },
    Read { path: Seq<char> },
    Decode { body: Seq<u8> },
    Finish(TokenView),
    Fail(ArcErrorView),
}

impl View for FlowAction {
    type V = ActionView;

    open spec fn view(&self) -> ActionView {
        match self {
            FlowAction::Send(request) => ActionView::Send(request@),
            FlowAction::Probe { path } => ActionView::Probe { path: path@ },
            FlowAction::Read { path } => ActionView::Read { path: path@ },
            FlowAction::Decode { body } => ActionView::Decode { body: body@ },
            FlowAction::Finish(token) => ActionView::Finish(token@),
            FlowAction::Fail(e) => ActionView::Fail(e@),
        }
    }
}

/// What to do next, and what will be waited for then.
pub struct Step {
    pub flow: TokenFlow,
    pub action: FlowAction,
}

/// What to do next, and what will be waited for then, as a mathematical value.
pub struct StepView {
    pub flow: FlowView,
    pub action: ActionView,
}

impl View for Step {
    type V = StepView;

    open spec fn view(&self) -> StepView {
        StepView { flow: self.flow@, action: self.action@ }
    }
}

/// The first step, to the URL of the requests.
pub open spec fn started(url: Seq<char>) -> StepView {
    StepView {
        flow: FlowView::Challenge { url },
        action: ActionView::Send(http::challenge_request(url)),
    }
}

/// The last step where there is no token.
pub open spec fn failed(e: ArcErrorView) -> StepView {
    StepView { flow: FlowView::Done, action: ActionView::Fail(e) }
}

/// The last step where there is a token.
pub open spec fn finished(token: TokenView) -> StepView {
    StepView { flow: FlowView::Done, action: ActionView::Finish(token) }
}

/// The error for a response that is no challenge, where `error_code` is what its body gives.
pub open spec fn unchallenged(status: u16, error_code: Option<Seq<char>>) -> ArcErrorView {
    if http::success(status) {
        ArcErrorView::Unchallenged { status }
    } else {
        ArcErrorView::Http(HttpFailureView { status, error_code })
    }
}

/// The step once the path of the secret file is known, where `ext` is its extension.
pub open spec fn path_known(url: Seq<char>, path: Seq<char>, ext: Option<Seq<char>>) -> StepView {
    match secret::extension_verdict(ext) {
        Ok(_) => StepView {
            flow: FlowView::Probe { url, path },
            action: ActionView::Probe { path },
        },
        Err(e) => failed(e),
    }
}

/// The step after the response to the first request. `ext` is the extension of the path that
/// the challenge names.
pub open spec fn challenged(
    url: Seq<char>,
    status: u16,
    challenge: Option<Seq<char>>,
    body: Seq<u8>,
    ext: Option<Seq<char>>,
) -> StepView {
    if status != UNAUTHORIZED {
        failed(unchallenged(status, error::error_code_in_body(body)))
    } else {
        match challenge {
            None => failed(ArcErrorView::MissingChallenge),
            Some(header) => match challenge::realm_path(header) {
                None => failed(ArcErrorView::MissingRealm),
                Some(path) => path_known(url, path, ext),
            },
        }
    }
}

/// The step once it is known whether the secret file is there. `parent` is the directory of
/// its path.
pub open spec fn probed(
    url: Seq<char>,
    path: Seq<char>,
    parent: Option<Seq<char>>,
    present: bool,
    tokens_dir: Option<Seq<char>>,
    overridden: bool,
) -> StepView {
    match secret::location_verdict(
        parent,
        secret::expected_dir(tokens_dir),
        present,
        overridden,
    ) {
        Ok(_) => StepView { flow: FlowView::Read { url, path }, action: ActionView::Read { path } },
        Err(e) => failed(e),
    }
}

/// The step once the secret file has been read.
pub open spec fn secret_read(
    url: Seq<char>,
    path: Seq<char>,
    content: Option<Seq<u8>>,
) -> StepView {
    match content {
        None => failed(ArcErrorView::SecretUnreadable { path }),
        Some(bytes) => match secret::size_verdict(bytes) {
            Ok(_) => StepView {
                flow: FlowView::Token,
                action: ActionView::Send(http::authorized_request(url, text::utf8_lossy(bytes))),
            },
            Err(e) => failed(e),
        },
    }
}

/// The step after the response to the second request.
pub open spec fn token_received(status: u16, body: Seq<u8>) -> StepView {
    if http::success(status) {
        StepView { flow: FlowView::Decode, action: ActionView::Decode { body } }
    } else {
        failed(
            ArcErrorView::Http(
                HttpFailureView { status, error_code: error::error_code_in_body(body) },
            ),
        )
    }
}

/// The step once the token response has been decoded.
pub open spec fn token_decoded(token: Option<TokenView>) -> StepView {
    match token {
        Some(t) => finished(t),
        None => failed(ArcErrorView::InvalidTokenResponse),
    }
}

/// Whether an event is one that is being waited for.
pub open spec fn awaited(flow: FlowView, event: EventView) -> bool {
    match flow {
        FlowView::Challenge { .. } => event is Challenged,
        FlowView::Probe { .. } => event is Probed,
        FlowView::Read { .. } => event is SecretRead,
        FlowView::Token => event is TokenReceived,
        FlowView::Decode => event is TokenDecoded,
        FlowView::Done => false,
    }
}

/// The path that the response to the first request names, if it is a challenge that names
/// one.
pub open spec fn named_path(event: EventView) -> Option<Seq<char>> {
    match event {
        EventView::Challenged { status, challenge: Some(header), body: _ } => {
            if status == UNAUTHORIZED {
                challenge::realm_path(header)
            } else {
                None
            }
        },
        _ => None,
    }
}

/// What may come out as the extension of the path that the response to the first request
/// names.
pub open spec fn may_name_extension(event: EventView, ext: Option<Seq<char>>) -> bool {
    named_path(event) matches Some(path) ==> secret::may_have_extension(path, ext)
}

/// Whether `step` may follow when `event` happens while `flow` is waited for. The platform
/// has its say in it only where a path is not portable.
pub open spec fn may_follow(flow: FlowView, event: EventView, step: StepView) -> bool {
    match (flow, event) {
        (
            FlowView::Challenge { url },
            EventView::Challenged { status, challenge, body },
        ) => exists|ext: Option<Seq<char>>|
            #[trigger] may_name_extension(event, ext) && step == challenged(
                url,
                status,
                challenge,
                body,
                ext,
            ),
        (
            FlowView::Probe { url, path },
            EventView::Probed { present, tokens_dir, overridden },
        ) => exists|parent: Option<Seq<char>>|
            #[trigger] secret::may_have_parent(path, parent) && step == probed(
                url,
                path,
                parent,
                present,
                tokens_dir,
                overridden,
            ),
        (FlowView::Read { url, path }, EventView::SecretRead { secret }) => step == secret_read(
            url,
            path,
            secret,
        ),
        (FlowView::Token, EventView::TokenReceived { status, body }) => step == token_received(
            status,
            body,
        ),
        (FlowView::Decode, EventView::TokenDecoded { token }) => step == token_decoded(token),
        _ => false,
    }
}

fn fail(e: ArcError) -> (r: Step)
    ensures
        r@ == failed(e@),
{
    Step { flow: TokenFlow::Done, action: FlowAction::Fail(e) }
}

/// The error for a response that is no challenge.
pub fn unchallenged_error(status: u16, body: &[u8]) -> (r: ArcError)
    ensures
        r@ == unchallenged(status, error::error_code_in_body(body@)),
{
    if is_success(status) {
        ArcError::Unchallenged { status }
    } else {
        refusal(status, body)
    }
}

/// The step once the path of the secret file is known, given its extension.
pub fn step_to_path(url: String, path: String, ext: Option<String>) -> (r: Step)
    ensures
        r@ == path_known(url@, path@, text::text_of(ext)),
{
    match check_secret_extension(ext) {
        Ok(_) => {
            let action: FlowAction = FlowAction::Probe { path: path.clone() };
            Step { flow: TokenFlow::Probe { url, path }, action }
        },
        Err(e) => fail(e),
    }
}

/// The step once it is known whether the secret file is there, given the directory of its
/// path.
pub fn step_to_secret(
    url: String,
    path: String,
    parent: Option<String>,
    present: bool,
    tokens_dir: Option<String>,
    overridden: bool,
) -> (r: Step)
    ensures
        r@ == probed(
            url@,
            path@,
            text::text_of(parent),
            present,
            text::text_of(tokens_dir),
            overridden,
        ),
{
    let expected: String = expected_dir_text(tokens_dir);
    match check_secret_location(parent, expected.as_str(), present, overridden) {
        Ok(_) => {
            let action: FlowAction = FlowAction::Read { path: path.clone() };
            Step { flow: TokenFlow::Read { url, path }, action }
        },
        Err(e) => fail(e),
    }
}

impl TokenFlow {
    /// The next step, once `event` has happened. Where the path is one that every platform
    /// takes apart alike, there is but one step that may follow. A secret that is valid UTF-8
    /// is sent as it stands.
    pub fn step(self, event: FlowEvent) -> (r: Step)
        requires
            awaited(self@, event@),
        ensures
            may_follow(self@, event@, r@),
            ({
                &&& self@ is Read
                &&& event@->secret matches Some(bytes)
                &&& bytes.len() <= error::ARC_MAX_FILE_SIZE
                &&& valid_utf8(bytes)
            }) ==> r@.action == ActionView::Send(
                http::authorized_request(self@->Read_url, decode_utf8(event@->secret->0)),
            ),
    {
        let ghost happened = event@;
        match (self, event) {
            (TokenFlow::Challenge { url }, FlowEvent::Challenged { status, headers, body }) => {
                assert(named_path(happened) is None ==> may_name_extension(happened, None));
                if status != UNAUTHORIZED {
                    return fail(unchallenged_error(status, body.as_slice()));
                }
                let header: String = match www_authenticate(&headers) {
                    Some(header) => header,
                    None => {
                        return fail(ArcError::MissingChallenge);
                    },
                };
                match parse_basic_realm_path(header.as_str()) {
                    None => fail(ArcError::MissingRealm),
                    Some(path) => {
                        let ext: Option<String> = path_extension(path.as_str());
                        assert(may_name_extension(happened, text::text_of(ext)));
                        step_to_path(url, path, ext)
                    },
                }
            },
            (
                TokenFlow::Probe { url, path },
                FlowEvent::Probed { present, tokens_dir, overridden },
            ) => {
                let parent: Option<String> = path_parent(path.as_str());
                assert(secret::may_have_parent(path@, text::text_of(parent)));
                step_to_secret(url, path, parent, present, tokens_dir, overridden)
            },
            (TokenFlow::Read { url, path }, FlowEvent::SecretRead { secret }) => {
                match secret {
                    None => fail(ArcError::SecretUnreadable { path }),
                    Some(bytes) => match check_secret_size(&bytes) {
                        Ok(_) => {
                            let content: String = text_lossy(bytes.as_slice());
                            let request: ArcRequest = answer_challenge(
                                url.as_str(),
                                content.as_str(),
                            );
                            Step { flow: TokenFlow::Token, action: FlowAction::Send(request) }
                        },
                        Err(e) => fail(e),
                    },
                }
            },
            (TokenFlow::Token, FlowEvent::TokenReceived { status, body }) => {
                if is_success(status) {
                    Step { flow: TokenFlow::Decode, action: FlowAction::Decode { body } }
                } else {
                    fail(refusal(status, body.as_slice()))
                }
            },
            (TokenFlow::Decode, FlowEvent::TokenDecoded { token }) => {
                match token {
                    Some(t) => Step { flow: TokenFlow::Done, action: FlowAction::Finish(t) },
                    None => fail(ArcError::InvalidTokenResponse),
                }
            },
            _ => unreached(),
        }
    }
}

}
