use arc_identity::cache::TokenCache;
use arc_identity::credential::AzureArcManagedIdentityCredential;
use arc_identity::error::{ArcError, HttpFailure, ARC_MAX_FILE_SIZE};
use arc_identity::flow::{FlowAction, FlowEvent, Step, TokenFlow};
use arc_identity::http::{ArcRequest, HEADER_WWW_AUTHENTICATE};
use arc_identity::secret::{tokens_dir, Platform};
use arc_identity::token::{expires_on_string, AccessToken};
use azure_core::http::headers::{HeaderName, Headers};
use azure_core::json::from_json;
use std::collections::HashMap;

const ENDPOINT: &str = "http://localhost:40342/metadata/identity/oauth2/token";
const SCOPE: &str = "https://management.azure.com/.default";
const TOKEN_URL: &str = "http://localhost:40342/metadata/identity/oauth2/token/\
    ?api-version=2020-06-01&resource=https%3A%2F%2Fmanagement.azure.com";
const NOW: i64 = 1_700_000_000;

struct Response {
    status: u16,
    challenge: Option<String>,
    body: Vec<u8>,
}

/// A service that answers in turn, a set of files, and what the environment says.
struct World {
    responses: Vec<Response>,
    files: HashMap<String, Vec<u8>>,
    override_dir: Option<String>,
    overridden: bool,
    sent: Vec<ArcRequest>,
    cache: TokenCache,
    credential: AzureArcManagedIdentityCredential,
}

impl World {
    fn new(responses: Vec<Response>, files: Vec<(&str, Vec<u8>)>, dir: Option<&str>) -> World {
        World {
            responses,
            files: files
                .into_iter()
                .map(|(path, content)| (path.to_string(), content))
                .collect(),
            override_dir: dir.map(|d| d.to_string()),
            overridden: false,
            sent: Vec::new(),
            cache: TokenCache::new(),
            credential: match AzureArcManagedIdentityCredential::new(Some(ENDPOINT.to_string())) {
                Ok(credential) => credential,
                Err(e) => panic!("{:?}", e),
            },
        }
    }

    fn get_token(&mut self, scopes: &[&str]) -> Result<AccessToken, ArcError> {
        let mut step: Step = self.credential.get_token(&self.cache, scopes, NOW)?;
        loop {
            self.cache.keep(scopes, &step);
            let event = match step.action {
                FlowAction::Send(request) => {
                    self.sent.push(request);
                    let response = self.responses.remove(0);
                    let mut headers = Headers::default();
                    if let Some(value) = response.challenge {
                        headers.insert(HeaderName::from_static(HEADER_WWW_AUTHENTICATE), value);
                    }
                    let (status, body) = (response.status, response.body);
                    match step.flow {
                        TokenFlow::Challenge { .. } => {
                            FlowEvent::Challenged { status, headers, body }
                        }
                        _ => FlowEvent::TokenReceived { status, body },
                    }
                }
                FlowAction::Probe { path } => FlowEvent::Probed {
                    present: self.files.contains_key(&path),
                    tokens_dir: tokens_dir(self.override_dir.clone(), Platform::Other),
                    overridden: self.overridden,
                },
                FlowAction::Read { path } => FlowEvent::SecretRead {
                    secret: self.files.get(&path).cloned(),
                },
                FlowAction::Decode { body } => FlowEvent::TokenDecoded { token: decode(&body) },
                FlowAction::Finish(token) => return Ok(token),
                FlowAction::Fail(e) => return Err(e),
            };
            step = step.flow.step(event);
        }
    }
}

fn decode(body: &[u8]) -> Option<AccessToken> {
    let fields: HashMap<String, String> = from_json(body).ok()?;
    Some(AccessToken {
        token: fields.get("access_token")?.clone(),
        expires_on: expires_on_string(fields.get("expires_on")?).ok()?,
    })
}

fn challenge(path: &str) -> Response {
    Response {
        status: 401,
        challenge: Some(format!("Basic realm={}", path)),
        body: Vec::new(),
    }
}

fn answer(status: u16, body: &str) -> Response {
    Response { status, challenge: None, body: body.as_bytes().to_vec() }
}

fn token_body(expires_on: &str) -> String {
    format!(
        "{{\"access_token\":\"*\",\"expires_on\":\"{}\",\"token_type\":\"Bearer\",\"resource\":\"https://management.azure.com\"}}",
        expires_on
    )
}

fn header(request: &ArcRequest, name: &'static str) -> Option<String> {
    request
        .headers
        .get_str(&HeaderName::from_static(name))
        .ok()
        .map(|v| v.to_string())
}

fn error_of(r: Result<AccessToken, ArcError>, expected: &str) -> ArcError {
    match r {
        Ok(_) => panic!("{}", expected),
        Err(e) => e,
    }
}

fn message(e: &ArcError) -> String {
    e.message().unwrap_or_default()
}

#[test]
fn arc_challenge_flow() {
    let path = "/tmp/arc_test_1/secret.key";
    let expires_on = NOW + 3600;
    let mut world = World::new(
        vec![challenge(path), answer(200, &token_body(&expires_on.to_string()))],
        vec![(path, b"arc-secret".to_vec())],
        Some("/tmp/arc_test_1"),
    );
    let token = world.get_token(&[SCOPE]).unwrap();
    assert_eq!(token.token, "*");
    assert_eq!(token.expires_on, expires_on);
    assert_eq!(world.sent.len(), 2);

    // Cache hit
    let token2 = world.get_token(&[SCOPE]).unwrap();
    assert_eq!(token2.token, "*");
    assert_eq!(world.sent.len(), 2);

    assert_eq!(world.sent[0].url, TOKEN_URL);
    assert_eq!(header(&world.sent[0], "metadata").as_deref(), Some("true"));
    assert_eq!(header(&world.sent[0], "authorization"), None);
    assert_eq!(world.sent[1].url, TOKEN_URL);
    assert_eq!(header(&world.sent[1], "metadata").as_deref(), Some("true"));
    assert_eq!(header(&world.sent[1], "authorization").as_deref(), Some("Basic arc-secret"));
}

#[test]
fn arc_missing_header() {
    let mut world = World::new(vec![answer(401, "")], vec![], Some("/tmp/arc_test_missing_hdr_1"));
    let err = error_of(world.get_token(&[SCOPE]), "expected error for missing header");
    assert!(
        message(&err).contains("missing www-authenticate"),
        "unexpected error: {:?}",
        err
    );
    assert_eq!(world.sent.len(), 1);
}

#[test]
fn arc_secret_bad_extension() {
    let path = "/tmp/arc_test_bad_ext_1/secret.txt";
    let mut world = World::new(
        vec![challenge(path)],
        vec![(path, b"ignored".to_vec())],
        Some("/tmp/arc_test_bad_ext_1"),
    );
    let err = error_of(world.get_token(&[SCOPE]), "expected error for bad extension");
    assert!(
        message(&err).contains("must have .key extension"),
        "unexpected error: {:?}",
        err
    );
    assert_eq!(world.sent.len(), 1);
}

#[test]
fn arc_secret_too_large() {
    let path = "/tmp/arc_test_large_1/secret.key";
    let large = vec![b'a'; (ARC_MAX_FILE_SIZE + 10) as usize];
    let mut world = World::new(
        vec![challenge(path)],
        vec![(path, large)],
        Some("/tmp/arc_test_large_1"),
    );
    let err = error_of(world.get_token(&[SCOPE]), "expected error for oversized secret");
    assert!(
        message(&err).contains("secret file too large"),
        "unexpected error: {:?}",
        err
    );
    assert_eq!(
        message(&err),
        "Azure Arc secret file too large (4106 bytes, max 4096)"
    );
    assert_eq!(world.sent.len(), 1);
}

#[test]
fn largest_secret_is_accepted() {
    let path = "/var/opt/azcmagent/tokens/secret.key";
    let mut world = World::new(
        vec![challenge(path), answer(200, &token_body("1700003600"))],
        vec![(path, vec![b'a'; 4096])],
        None,
    );
    assert!(world.get_token(&[SCOPE]).is_ok());
    assert_eq!(world.sent.len(), 2);
}

#[test]
fn scopes_are_counted() {
    let mut world = World::new(vec![], vec![], None);
    let err = error_of(world.get_token(&[]), "expected an error");
    assert_eq!(err, ArcError::ScopeCount);
    assert_eq!(error_of(world.get_token(&["a", "b"]), "expected an error"), ArcError::ScopeCount);
    assert_eq!(message(&err), "Azure Arc managed identity requires exactly one scope");
    assert!(world.sent.is_empty());
}

#[test]
fn success_is_no_challenge() {
    let mut world = World::new(vec![answer(204, "")], vec![], None);
    let err = error_of(world.get_token(&[SCOPE]), "expected an error");
    assert_eq!(err, ArcError::Unchallenged { status: 204 });
    assert_eq!(message(&err), "Azure Arc challenge expected HTTP 401, received 204");
}

#[test]
fn refusals_carry_their_error_code() {
    let mut world = World::new(
        vec![answer(403, "{\"error\":{\"code\":\"forbidden\",\"message\":\"no\"}}")],
        vec![],
        None,
    );
    assert_eq!(
        error_of(world.get_token(&[SCOPE]), "expected an error"),
        ArcError::Http(HttpFailure { status: 403, error_code: Some("forbidden".to_string()) })
    );

    let path = "/var/opt/azcmagent/tokens/secret.key";
    let mut world = World::new(
        vec![challenge(path), answer(500, "oops")],
        vec![(path, b"s".to_vec())],
        None,
    );
    let err = error_of(world.get_token(&[SCOPE]), "expected an error");
    assert_eq!(err, ArcError::Http(HttpFailure { status: 500, error_code: None }));
    assert_eq!(err.message(), None);
    assert_eq!(world.sent.len(), 2);
}

#[test]
fn challenge_without_a_path() {
    let mut world = World::new(
        vec![Response {
            status: 401,
            challenge: Some("Bearer realm=x".to_string()),
            body: Vec::new(),
        }],
        vec![],
        None,
    );
    let err = error_of(world.get_token(&[SCOPE]), "expected an error");
    assert_eq!(err, ArcError::MissingRealm);
    assert_eq!(
        message(&err),
        "Azure Arc www-authenticate header missing expected Basic realm path"
    );
}

#[test]
fn challenge_with_more_than_a_path() {
    // What stands before the marker, or behind the path, does not matter.
    let path = "/var/opt/azcmagent/tokens/secret.key";
    for challenge in [
        format!("\u{212a}\u{e9}x basic realm={}", path),
        format!("\u{130}Basic realm={}", path),
        format!("Basic realm= '\"{}\"' charset=x", path),
    ] {
        let mut world = World::new(
            vec![
                Response { status: 401, challenge: Some(challenge), body: Vec::new() },
                answer(200, &token_body("1700003600")),
            ],
            vec![(path, b"s".to_vec())],
            None,
        );
        assert!(world.get_token(&[SCOPE]).is_ok());
        assert_eq!(header(&world.sent[1], "authorization").as_deref(), Some("Basic s"));
    }
}

#[test]
fn only_files_of_the_directory_are_read() {
    let secrets = "/var/opt/azcmagent/tokens";
    for (path, found) in [
        ("/evil//x.key", "/evil"),
        ("//evil/share/x.key", "//evil/share"),
        ("//evil/share/y/x.key", "//evil/share/y"),
        ("C:/evil/x.key", "C:/evil"),
        ("/var/opt/azcmagent/tokens/../x.key", "/var/opt/azcmagent/tokens/.."),
        ("/var/opt/azcmagent/tokens/sub/x.key", "/var/opt/azcmagent/tokens/sub"),
        ("x.key", ""),
        ("./x.key", "."),
    ] {
        let mut world = World::new(vec![challenge(path)], vec![(path, b"s".to_vec())], None);
        let err = error_of(world.get_token(&[SCOPE]), "expected an error");
        let dir = ArcError::SecretDirectory {
            expected: secrets.to_string(),
            found: found.to_string(),
        };
        // On Windows the root of a share keeps its slash.
        if std::path::MAIN_SEPARATOR == '/' || found != "//evil/share" {
            assert_eq!(err, dir);
        }
        assert_eq!(world.sent.len(), 1);
    }
    for path in [
        "/var/opt/azcmagent/tokens//x.key",
        "/var/opt/azcmagent/tokens/./x.key",
        "/var/opt/azcmagent/tokens/x.key/",
        "/var/opt/azcmagent/tokens/x.key/.",
    ] {
        let mut world = World::new(
            vec![challenge(path), answer(200, &token_body("1700003600"))],
            vec![(path, b"s".to_vec())],
            None,
        );
        assert!(world.get_token(&[SCOPE]).is_ok());
    }
}

#[test]
fn missing_secret_file() {
    let mut world = World::new(
        vec![challenge("/var/opt/azcmagent/tokens/secret.key")],
        vec![],
        None,
    );
    let err = error_of(world.get_token(&[SCOPE]), "expected an error");
    assert_eq!(err, ArcError::SecretMissing);
    assert_eq!(message(&err), "Azure Arc secret file does not exist");
}

#[test]
fn secret_in_another_directory() {
    let path = "/tmp/elsewhere/secret.key";
    let files = vec![(path, b"s".to_vec())];
    let mut world = World::new(vec![challenge(path)], files.clone(), None);
    let err = error_of(world.get_token(&[SCOPE]), "expected an error");
    assert_eq!(
        message(&err),
        "Azure Arc secret file directory mismatch (expected /var/opt/azcmagent/tokens, got /tmp/elsewhere)"
    );

    // The directory does not matter where the environment of the process names one.
    let mut world = World::new(
        vec![challenge(path), answer(200, &token_body("1700003600"))],
        files,
        None,
    );
    world.overridden = true;
    assert!(world.get_token(&[SCOPE]).is_ok());
}

#[test]
fn unreadable_secret_file() {
    let flow = TokenFlow::Read { url: TOKEN_URL.to_string(), path: "/a/b.key".to_string() };
    let step = flow.step(FlowEvent::SecretRead { secret: None });
    match step.action {
        FlowAction::Fail(err) => {
            assert_eq!(message(&err), "Azure Arc failed to read secret file '/a/b.key'")
        }
        _ => panic!("expected an error"),
    }
}

#[test]
fn secret_that_is_not_text() {
    let path = "/var/opt/azcmagent/tokens/secret.key";
    let mut world = World::new(
        vec![challenge(path), answer(200, &token_body("1700003600"))],
        vec![(path, vec![b'a', 0xff, b'b'])],
        None,
    );
    assert!(world.get_token(&[SCOPE]).is_ok());
    assert_eq!(
        header(&world.sent[1], "authorization").as_deref(),
        Some("Basic a\u{fffd}b")
    );
}

#[test]
fn token_that_cannot_be_decoded() {
    let path = "/var/opt/azcmagent/tokens/secret.key";
    for body in [token_body("soon"), token_body("253402300800"), "[]".to_string()] {
        let mut world = World::new(
            vec![challenge(path), answer(200, &body)],
            vec![(path, b"s".to_vec())],
            None,
        );
        let err = error_of(world.get_token(&[SCOPE]), "expected an error");
        assert_eq!(err, ArcError::InvalidTokenResponse);
        assert_eq!(message(&err), "Azure Arc token response invalid JSON");
    }
}

#[test]
fn expired_token_is_fetched_again() {
    let path = "/var/opt/azcmagent/tokens/secret.key";
    let expired = NOW.to_string();
    let mut world = World::new(
        vec![
            challenge(path),
            answer(200, &token_body(&expired)),
            challenge(path),
            answer(200, &token_body("1700003600")),
        ],
        vec![(path, b"s".to_vec())],
        None,
    );
    assert_eq!(world.get_token(&[SCOPE]).unwrap().expires_on, NOW);
    assert_eq!(world.get_token(&[SCOPE]).unwrap().expires_on, NOW + 3600);
    assert_eq!(world.sent.len(), 4);
}

#[test]
fn tokens_are_kept_by_scopes() {
    let mut cache = TokenCache::new();
    let token = |name: &str| AccessToken { token: name.to_string(), expires_on: 10 };
    cache.insert(&["a"], token("first"));
    cache.insert(&["a", "b"], token("second"));
    cache.insert(&["a"], token("third"));
    let kept = |scopes: &[&str], now: i64| cache.get(scopes, now).map(|t| t.token);
    assert_eq!(kept(&["a"], 9).as_deref(), Some("third"));
    assert_eq!(kept(&["a", "b"], 9).as_deref(), Some("second"));
    assert_eq!(kept(&["b"], 9), None);
    assert_eq!(kept(&["a"], 10), None);

    // A step is kept where it ends with a token, and changes nothing where it does not.
    let step = |action: FlowAction| Step { flow: TokenFlow::Done, action };
    cache.keep(&["a"], &step(FlowAction::Finish(token("fourth"))));
    cache.keep(&["a"], &step(FlowAction::Fail(ArcError::SecretMissing)));
    cache.keep(&["c"], &step(FlowAction::Probe { path: "/x.key".to_string() }));
    let kept = |scopes: &[&str]| cache.get(scopes, 9).map(|t| t.token);
    assert_eq!(kept(&["a"]).as_deref(), Some("fourth"));
    assert_eq!(kept(&["a", "b"]).as_deref(), Some("second"));
    assert_eq!(kept(&["c"]), None);
}
