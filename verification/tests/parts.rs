use arc_identity::challenge::parse_basic_realm_path;
use arc_identity::credential::{
    check_endpoint, endpoint_source_text, resource_of_scope, AzureArcManagedIdentityCredential,
};
use arc_identity::error::ArcError;
use arc_identity::flow::{unchallenged_error, FlowAction, Step};
use arc_identity::http::{answer_challenge, ask_for_challenge, is_success, www_authenticate};
use arc_identity::secret::{
    check_secret_extension, check_secret_location, check_secret_size, expected_dir_text,
    tokens_dir, validate_arc_secret_path, Platform,
};
use arc_identity::text::{
    ascii_lower_of, chars_of, decimal_text, first_word_of, is_white_space, parse_i64, same_text,
    strip_suffix_text, unquote,
};
use arc_identity::token::{expires_on_string, ExpiresOnError};

fn url_of(endpoint: Option<&str>, scope: &str) -> String {
    let credential = match AzureArcManagedIdentityCredential::new(endpoint.map(|e| e.to_string())) {
        Ok(credential) => credential,
        Err(e) => panic!("{:?}", e),
    };
    let step: Step = match credential.get_token_impl(&[scope]) {
        Ok(step) => step,
        Err(e) => panic!("{:?}", e),
    };
    match step.action {
        FlowAction::Send(request) => request.url,
        _ => panic!("expected a request"),
    }
}

#[test]
fn white_space_is_that_of_unicode() {
    for n in 0..=0x10ffffu32 {
        if let Some(c) = char::from_u32(n) {
            assert_eq!(is_white_space(c), c.is_whitespace(), "{:x}", n);
        }
    }
}

#[test]
fn words_and_quotes_agree_with_the_standard_library() {
    for s in ["", " ", "a", " a ", "\u{3000}a b\t\n", "\"\"a\"b\"", "''", "'\"x", "x\u{a0}y", "a'\"'"] {
        assert_eq!(first_word_of(s), s.split_whitespace().next().unwrap_or(""));
        assert_eq!(unquote(s), s.trim_matches(|c| c == '"' || c == '\''));
        assert_eq!(chars_of(s), s.chars().collect::<Vec<char>>());
    }
    for c in ['A', 'M', 'Z', 'a', '@', '[', '\u{130}', '\u{212a}', '\u{e9}', '='] {
        assert_eq!(ascii_lower_of(c), c.to_ascii_lowercase());
    }
}

#[test]
fn comparing_agrees_with_the_standard_library() {
    for (hay, needle) in [("", ""), ("abc", ""), ("abc", "c"), ("ababac", "abac"), ("ab", "abc")] {
        assert_eq!(strip_suffix_text(hay, needle), hay.strip_suffix(needle));
        assert_eq!(same_text(hay, needle), hay == needle);
    }
}

#[test]
fn integers_agree_with_the_standard_library() {
    for s in [
        "", "+", "-", "0", "-0", "+7", "007", "1700000000", "9223372036854775807",
        "9223372036854775808", "-9223372036854775808", "-9223372036854775809",
        "99999999999999999999999", "12a", " 1", "1 ", "1_0", "--1", "\u{661}",
    ] {
        assert_eq!(parse_i64(s), s.parse::<i64>().ok(), "{:?}", s);
    }
    for n in [0, 9, 10, 4096, 4106, u64::MAX] {
        assert_eq!(decimal_text(n), n.to_string());
    }
}

#[test]
fn realm_is_read() {
    for (header, path) in [
        ("Basic realm=/a/b.key", "/a/b.key"),
        ("BASIC REALM=\"/a/B.key\"", "/a/B.key"),
        ("Digest x, basic realm= '/a/b.key' ", "/a/b.key"),
        ("Basic realm=", ""),
        ("Basic realm=/a/b.key extra", "/a/b.key"),
        ("Basic realm=\"/a b/c.key\"", "/a"),
        ("Basic realm='\"/a.key\"'", "/a.key"),
        ("Basic realm=\"'\"/a'b.key'", "/a'b.key"),
        ("Basic realm=''", ""),
        ("Basic realm=/\u{130}/c.key", "/\u{130}/c.key"),
        ("\u{e9} Basic realm=/x.key", "/x.key"),
        ("\u{130}Basic realm=/a.key", "/a.key"),
        ("\u{130}basic realm=\u{e9}", "\u{e9}"),
        ("basic basic realm=basic realm=/x", "basic"),
        ("Basic realm=/x Basic realm=/y", "/x"),
    ] {
        assert_eq!(parse_basic_realm_path(header).as_deref(), Some(path), "{}", header);
    }
    for header in ["", "Basic", "Basic realm", "Bearer realm=/a", "Bas\u{130}c realm=/a"] {
        assert_eq!(parse_basic_realm_path(header), None);
    }
}

#[test]
fn scopes_name_resources() {
    assert_eq!(
        resource_of_scope("https://vault.azure.net/.default"),
        "https://vault.azure.net"
    );
    assert_eq!(resource_of_scope("https://vault.azure.net"), "https://vault.azure.net");
    assert_eq!(resource_of_scope("a/.default/.default"), "a/.default");
    assert_eq!(resource_of_scope("/.default"), "");
}

#[test]
fn urls_carry_version_and_resource() {
    assert_eq!(
        url_of(None, "r"),
        "http://127.0.0.1:40342/metadata/identity/oauth2/token/?api-version=2020-06-01&resource=r"
    );
    assert_eq!(
        url_of(None, "https://management.azure.com/.default"),
        "http://127.0.0.1:40342/metadata/identity/oauth2/token/\
            ?api-version=2020-06-01&resource=https%3A%2F%2Fmanagement.azure.com"
    );
    assert_eq!(
        url_of(Some("http://h/x/"), "r"),
        "http://h/x/?api-version=2020-06-01&resource=r"
    );
    assert_eq!(
        url_of(Some("http://h/x#f"), "r"),
        "http://h/x/?api-version=2020-06-01&resource=r#f"
    );
    assert_eq!(
        url_of(Some("http://h/x?y=1"), "r"),
        "http://h/x?y=1&api-version=2020-06-01&resource=r"
    );
    assert_eq!(url_of(Some("http://h"), "r"), "http://h/?api-version=2020-06-01&resource=r");
    assert_eq!(
        url_of(Some("HTTP://Example.com?x=1#top"), "a b&c=\u{e9}"),
        "http://example.com/?x=1&api-version=2020-06-01&resource=a+b%26c%3D%C3%A9#top"
    );
    assert_eq!(
        url_of(Some("http://h/?#f"), "*-._~"),
        "http://h/?api-version=2020-06-01&resource=*-._%7E#f"
    );
}

#[test]
fn different_resources_have_different_urls() {
    let resources = ["a b", "a+b", "a%20b", "a%2Bb", "a", "", "a#b", "a&resource=b"];
    for (i, a) in resources.iter().enumerate() {
        for b in &resources[i + 1..] {
            assert_ne!(url_of(None, a), url_of(None, b));
        }
    }
    assert_eq!(
        url_of(None, "AZaz09*-._"),
        "http://127.0.0.1:40342/metadata/identity/oauth2/token/\
            ?api-version=2020-06-01&resource=AZaz09*-._"
    );
}

#[test]
fn requests_and_responses() {
    let first = ask_for_challenge("http://h/");
    assert_eq!(first.url, "http://h/");
    assert_eq!(www_authenticate(&first.headers), None);
    let second = answer_challenge("http://h/", "s");
    assert_eq!(second.headers.iter().count(), first.headers.iter().count() + 1);
    assert_eq!(
        [199, 200, 299, 300].map(is_success),
        [false, true, true, false]
    );
    assert_eq!(unchallenged_error(200, b""), ArcError::Unchallenged { status: 200 });
    assert!(matches!(unchallenged_error(302, b""), ArcError::Http(f) if f.status == 302));
}

#[test]
fn endpoint_must_be_a_url() {
    assert_eq!(
        endpoint_source_text(None),
        "http://127.0.0.1:40342/metadata/identity/oauth2/token"
    );
    assert_eq!(endpoint_source_text(Some(String::new())), "");
    assert_eq!(check_endpoint("x", Some("y".to_string())), Ok("y".to_string()));
    assert_eq!(
        check_endpoint("x", None),
        Err(ArcError::InvalidEndpoint { endpoint: "x".to_string() })
    );
    match AzureArcManagedIdentityCredential::new(Some("not a url".to_string())) {
        Ok(_) => panic!("expected an error"),
        Err(e) => assert_eq!(
            e.message().as_deref(),
            Some("Azure Arc endpoint must be a valid URL, got 'not a url'")
        ),
    }
}

#[test]
fn secret_paths_are_checked() {
    let dir = "/var/opt/azcmagent/tokens";
    let path = "/var/opt/azcmagent/tokens/secret.key";
    assert_eq!(validate_arc_secret_path(path, dir, true, false), Ok(()));
    assert_eq!(
        validate_arc_secret_path(path, dir, false, true),
        Err(ArcError::SecretMissing)
    );
    assert_eq!(
        validate_arc_secret_path(path, "/other", true, false),
        Err(ArcError::SecretDirectory { expected: "/other".to_string(), found: dir.to_string() })
    );
    assert_eq!(validate_arc_secret_path(path, "/other", true, true), Ok(()));
    for bad in ["/t/secret.txt", "/t/secret", "/t/.key", "/t/key", "", "/", "/t/secret.KEY"] {
        assert_eq!(
            validate_arc_secret_path(bad, "/t", true, false),
            Err(ArcError::SecretExtension)
        );
    }
    assert_eq!(validate_arc_secret_path("/a.key", "/", true, false), Ok(()));
    assert_eq!(validate_arc_secret_path("a.key", "", true, false), Ok(()));
    assert_eq!(validate_arc_secret_path("./a.b.key", ".", true, false), Ok(()));
    assert_eq!(validate_arc_secret_path("/t:u/a:b.key", "/t:u", true, false), Ok(()));
    assert_eq!(validate_arc_secret_path("/t/..x.key", "/t", true, false), Ok(()));

    assert_eq!(validate_arc_secret_path("/t//a.key/./", "/t", true, false), Ok(()));
    assert_eq!(validate_arc_secret_path("/t/./a.key", "/t", true, false), Ok(()));
    for (path, found) in [("/evil//x.key", "/evil"), ("/x.key", "/"), ("../x.key", "..")] {
        assert_eq!(
            validate_arc_secret_path(path, "/t", true, false),
            Err(ArcError::SecretDirectory {
                expected: "/t".to_string(),
                found: found.to_string(),
            })
        );
    }
    for bad in ["/tokens/y.txt/", "/t/x.key/..", ".", "..", "./", "/.", "/t/x.key.", "/t/x.key/y"] {
        assert_eq!(
            validate_arc_secret_path(bad, "/tokens", true, true),
            Err(ArcError::SecretExtension)
        );
    }

    // By slashes alone, every platform goes below a share or a drive alike.
    assert_eq!(validate_arc_secret_path("//s/t/u/a.key", "//s/t/u", true, false), Ok(()));
    assert_eq!(validate_arc_secret_path("C:/a//b.key/.", "C:/a", true, false), Ok(()));
    for bad in ["//s/t/u/a.txt", "//s/t/u", "//s/t/.key", "C:/a/b", "C:/a/.key"] {
        assert_eq!(
            validate_arc_secret_path(bad, "/t", true, true),
            Err(ArcError::SecretExtension)
        );
    }
    let root = if std::path::MAIN_SEPARATOR == '/' { "" } else { "/" };
    for (path, dir) in [("//s/t/a.key", "//s/t"), ("C:/a.key", "C:")] {
        let dir = format!("{}{}", dir, root);
        assert_eq!(validate_arc_secret_path(path, &dir, true, false), Ok(()));
    }

    // With backslashes, a path with a drive has a directory on Windows only.
    let drive = "C:\\ProgramData\\Tokens\\a.key";
    let dir = if std::path::MAIN_SEPARATOR == '/' { "" } else { "C:\\ProgramData\\Tokens" };
    assert_eq!(validate_arc_secret_path(drive, dir, true, false), Ok(()));
}

#[test]
fn override_allows_any_directory() {
    for path in ["/t/a.key", "/t//a.key", "a.key", "C:\\t\\a.key", "/t/a.txt", "/t/a"] {
        for present in [true, false] {
            let first = validate_arc_secret_path(path, "/t", present, true);
            assert_eq!(first, validate_arc_secret_path(path, "/other", present, true));
            assert_eq!(first.is_ok(), path.ends_with(".key") && present);
        }
    }
}

#[test]
fn verdicts_on_parts_of_a_path() {
    assert_eq!(check_secret_extension(Some("key".to_string())), Ok(()));
    assert_eq!(check_secret_extension(None), Err(ArcError::SecretExtension));
    assert_eq!(check_secret_location(None, "/a", true, false), Ok(()));
    assert_eq!(
        check_secret_location(Some("/b".to_string()), "/a", true, false),
        Err(ArcError::SecretDirectory { expected: "/a".to_string(), found: "/b".to_string() })
    );
    assert_eq!(check_secret_size(&vec![0; 4096]), Ok(()));
    assert_eq!(
        check_secret_size(&vec![0; 4097]),
        Err(ArcError::SecretTooLarge { size: 4097 })
    );
}

#[test]
fn directory_of_the_secrets() {
    assert_eq!(
        tokens_dir(None, Platform::Other).as_deref(),
        Some("/var/opt/azcmagent/tokens")
    );
    assert_eq!(
        tokens_dir(Some("/x".to_string()), Platform::Other).as_deref(),
        Some("/x")
    );
    assert_eq!(tokens_dir(None, Platform::Windows { program_data: None }), None);
    let base = "C:\\ProgramData".to_string();
    let joined = tokens_dir(None, Platform::Windows { program_data: Some(base) }).unwrap();
    let sep = std::path::MAIN_SEPARATOR;
    assert_eq!(
        joined,
        format!("C:\\ProgramData{}AzureConnectedMachineAgent{}Tokens", sep, sep)
    );
    let windows = sep == '\\';
    for (base, gap) in [
        ("C:\\ProgramData\\", !windows),
        ("/data/", false),
        ("", false),
        ("C:", !windows),
        ("D", true),
    ] {
        let platform = Platform::Windows { program_data: Some(base.to_string()) };
        let between = if gap { sep.to_string() } else { String::new() };
        assert_eq!(
            tokens_dir(None, platform).unwrap(),
            format!("{}{}AzureConnectedMachineAgent{}Tokens", base, between, sep)
        );
    }
    assert_eq!(expected_dir_text(None), "<unavailable default tokens dir>");
    assert_eq!(expected_dir_text(Some("/x".to_string())), "/x");
}

#[test]
fn times_of_expiry() {
    assert_eq!(expires_on_string("1700003600"), Ok(1_700_003_600));
    assert_eq!(expires_on_string("253402300799"), Ok(253_402_300_799));
    assert_eq!(expires_on_string("-1"), Ok(-1));
    assert_eq!(expires_on_string("-377705116800"), Ok(-377_705_116_800));
    assert_eq!(expires_on_string("253402300800"), Err(ExpiresOnError::OutOfRange));
    assert_eq!(expires_on_string("-377705116801"), Err(ExpiresOnError::OutOfRange));
    assert_eq!(expires_on_string("1.5"), Err(ExpiresOnError::NotAnInteger));
    assert_eq!(expires_on_string(""), Err(ExpiresOnError::NotAnInteger));
}
