//! The credential: where the service is, and what is asked of it.
use crate::cache;
use crate::cache::TokenCache;
use crate::error::{ArcError, ArcErrorView};
use crate::flow::{Step, TokenFlow, FlowAction};
use crate::flow;
use crate::http::ask_for_challenge;
use crate::text;
use crate::text::strip_suffix_text;
use crate::token::TokenView;
use crate::url;
use crate::url::{parse_url, token_url_text, DEFAULT_ENDPOINT};
use vstd::prelude::*;

verus! {

broadcast use vstd::string::group_string_axioms;

/// What a scope has behind the resource.
pub const SCOPE_SUFFIX: &'static str = "/.default";

/// Gets tokens for the identity that Azure Arc has given to the machine.
pub struct AzureArcManagedIdentityCredential {
    source: String,
    endpoint: String,
}

/// The endpoint to use: the one that the environment names, or else the default.
pub open spec fn endpoint_source(identity_endpoint: Option<Seq<char>>) -> Seq<char> {
    match identity_endpoint {
        Some(e) => e,
        None => DEFAULT_ENDPOINT@,
    }
}

/// The endpoint to use, where `identity_endpoint` is what the environment names.
pub fn endpoint_source_text(identity_endpoint: Option<String>) -> (r: String)
    ensures
        r@ == endpoint_source(text::text_of(identity_endpoint)),
{
    match identity_endpoint {
        Some(e) => e,
        None => DEFAULT_ENDPOINT.to_owned(),
    }
}

/// What is said of an endpoint, where `parsed` is the text of its URL, if it is one.
pub open spec fn endpoint_verdict(source: Seq<char>, parsed: Option<Seq<char>>) -> Result<
    Seq<char>,
    ArcErrorView,
> {
    match parsed {
        Some(endpoint) => Ok(endpoint),
        None => Err(ArcErrorView::InvalidEndpoint { endpoint: source }),
    }
}

/// Refuses an endpoint that is not a URL; `parsed` is the text of its URL, if it is one.
pub fn check_endpoint(source: &str, parsed: Option<String>) -> (r: Result<String, ArcError>)
    ensures
        match r {
            Ok(endpoint) => endpoint_verdict(source@, text::text_of(parsed))
                == Ok::<Seq<char>, ArcErrorView>(endpoint@),
            Err(e) => endpoint_verdict(source@, text::text_of(parsed))
                == Err::<Seq<char>, ArcErrorView>(e@),
        },
{
    match parsed {
        Some(endpoint) => Ok(endpoint),
        None => Err(ArcError::InvalidEndpoint { endpoint: source.to_owned() }),
    }
}

/// The resource that a scope is for.
pub open spec fn resource_of(scope: Seq<char>) -> Seq<char> {
    if text::ends_with(scope, SCOPE_SUFFIX@) {
        scope.take(scope.len() - SCOPE_SUFFIX@.len())
    } else {
        scope
    }
}

/// The resource that a scope is for: the scope without `/.default` at its end.
pub fn resource_of_scope(scope: &str) -> (r: &str)
    ensures
        r@ == resource_of(scope@),
{
    match strip_suffix_text(scope, SCOPE_SUFFIX) {
        Some(resource) => resource,
        None => scope,
    }
}

/// The texts of the scopes.
pub open spec fn scope_texts(scopes: &[&str]) -> Seq<Seq<char>> {
    scopes@.map_values(|s: &str| s@)
}

/// How getting a token begins at an endpoint.
pub open spec fn begun(endpoint: Seq<char>, scopes: Seq<Seq<char>>) -> Result<
    flow::StepView,
    ArcErrorView,
> {
    if scopes.len() != 1 {
        Err(ArcErrorView::ScopeCount)
    } else if !url::token_url_fits(endpoint, resource_of(scopes[0])) {
        Err(ArcErrorView::RequestTooLong)
    } else {
        Ok(flow::started(url::token_url(endpoint, resource_of(scopes[0]))))
    }
}

/// How getting a token begins, where `cached` is a token that is still good.
pub open spec fn requested(
    endpoint: Seq<char>,
    cached: Option<TokenView>,
    scopes: Seq<Seq<char>>,
) -> Result<flow::StepView, ArcErrorView> {
    match cached {
        Some(t) => Ok(flow::finished(t)),
        None => begun(endpoint, scopes),
    }
}

/// What a first step is, as a mathematical value.
pub open spec fn first_step(r: Result<Step, ArcError>) -> Result<flow::StepView, ArcErrorView> {
    match r {
        Ok(step) => Ok(step@),
        Err(e) => Err(e@),
    }
}

impl AzureArcManagedIdentityCredential {
    #[verifier::type_invariant]
    spec fn well_formed(self) -> bool {
        url::parsed_url(self.source@) == Some(self.endpoint@)
    }

    /// The text of the URL of the endpoint.
    pub closed spec fn endpoint(self) -> Seq<char> {
        self.endpoint@
    }

    /// Makes a credential, given the endpoint that the environment names.
    pub fn new(identity_endpoint: Option<String>) -> (r: Result<Self, ArcError>)
        ensures
            match r {
                Ok(credential) => endpoint_verdict(
                    endpoint_source(text::text_of(identity_endpoint)),
                    url::parsed_url(endpoint_source(text::text_of(identity_endpoint))),
                ) == Ok::<Seq<char>, ArcErrorView>(credential.endpoint()),
                Err(e) => endpoint_verdict(
                    endpoint_source(text::text_of(identity_endpoint)),
                    url::parsed_url(endpoint_source(text::text_of(identity_endpoint))),
                ) == Err::<Seq<char>, ArcErrorView>(e@),
            },
    {
        let source: String = endpoint_source_text(identity_endpoint);
        let parsed: Option<String> = parse_url(source.as_str());
        match check_endpoint(source.as_str(), parsed) {
            Ok(endpoint) => Ok(AzureArcManagedIdentityCredential { source, endpoint }),
            Err(e) => Err(e),
        }
    }

    /// Begins to get a token for `scopes`: gives what to do first.
    pub fn get_token_impl(&self, scopes: &[&str]) -> (r: Result<Step, ArcError>)
        ensures
            first_step(r) == begun(self.endpoint(), scope_texts(scopes)),
    {
        if scopes.len() != 1 {
            return Err(ArcError::ScopeCount);
        }
        proof {
            use_type_invariant(self);
        }
        let resource: &str = resource_of_scope(scopes[0]);
        assert(scope_texts(scopes)[0] == scopes@[0]@);
        match token_url_text(self.source.as_str(), self.endpoint.as_str(), resource) {
            Some(url) => {
                let request = ask_for_challenge(url.as_str());
                Ok(Step { flow: TokenFlow::Challenge { url }, action: FlowAction::Send(request) })
            },
            None => Err(ArcError::RequestTooLong),
        }
    }

    /// Begins to get a token for `scopes` at the time `now`: gives what to do first, which is
    /// nothing where `cache` keeps a token for them that has not expired.
    pub fn get_token(&self, cache: &TokenCache, scopes: &[&str], now: i64) -> (r: Result<
        Step,
        ArcError,
    >)
        ensures
            first_step(r) == requested(
                self.endpoint(),
                cache::fresh(cache.lookup(scope_texts(scopes)), now),
                scope_texts(scopes),
            ),
    {
        match cache.get(scopes, now) {
            Some(token) => Ok(Step { flow: TokenFlow::Done, action: FlowAction::Finish(token) }),
            None => self.get_token_impl(scopes),
        }
    }
}

}
