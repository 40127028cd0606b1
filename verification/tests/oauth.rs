use agentyk::mcp::oauth::{
    authorize_url, check_endpoints, choose_scope, decide_callback, expected_issuer,
    fetch_outcome, html_escape, issuer_origin, no_metadata, on_callback, on_callback_bytes, pkce_challenge,
    random_pkce_verifier, random_token, redirect_uri, registration_endpoint, reply,
    require_secure, resource_metadata_url, room_for, server_metadata_urls, token_from, well_known,
    Authorization, CallbackOutcome, ExpectedIssuer, Fetched, McpOAuthTokenProvider,
    McpOAuthTokenSet, OAuthClient, OAuthEndpoints, PreparedMcpOAuthLogin, TokenResponse,
    CALLBACK_PATH, EARLIEST, LATEST, SECOND,
};
use agentyk::message::Error;

fn told(error: &Error) -> String {
    match error {
        Error::Mcp(text) => text.clone(),
        other => panic!("{other:?}"),
    }
}

fn endpoints() -> OAuthEndpoints {
    OAuthEndpoints {
        authorization_endpoint: "https://auth.example/authorize".into(),
        token_endpoint: "https://auth.example/token".into(),
        registration_endpoint: None,
        scopes_supported: None,
    }
}

fn query(url: &str) -> Vec<(String, String)> {
    require_secure(url, "url").unwrap().query
}

fn find(pairs: &Vec<(String, String)>, name: &str) -> String {
    pairs.iter().find(|(key, _)| key == name).map(|(_, value)| value.clone()).unwrap()
}

#[test]
fn pkce_challenge_matches_rfc_7636() {
    assert_eq!(
        pkce_challenge("dBjftJeZ4CVP-mB92K27uhbUJU1p1r_wW1gFWFOEjXk"),
        "E9Melhoa2OwvFrEMTJguCHaoeK1t8URWbuGJSstw-cM"
    );
}

#[test]
fn rejects_plaintext_non_loopback_endpoints() {
    assert!(require_secure("https://mcp.example/mcp", "server").is_ok());
    assert!(require_secure("http://127.0.0.1:8080/mcp", "server").is_ok());
    assert!(require_secure("http://mcp.example/mcp", "server").is_err());
    assert!(require_secure("http://localhost/mcp", "server").is_ok());
    assert!(require_secure("http://[::1]:8080/mcp", "server").is_ok());
    assert!(require_secure("http://[::2]/mcp", "server").is_err());
    assert!(require_secure("ftp://mcp.example", "server").is_err());
    let error = require_secure("not a url", "server").unwrap_err();
    assert!(told(&error).starts_with("OAuth: parse server URL `not a url`: "), "{error:?}");
}

#[test]
fn authorize_url_contains_pkce_state_and_scope() {
    let url = authorize_url(
        &endpoints(),
        "client",
        "http://127.0.0.1:9/callback",
        "challenge",
        "state",
        &Some("read write".to_string()),
    )
    .unwrap();
    let pairs = query(&url);
    assert_eq!(find(&pairs, "code_challenge_method"), "S256");
    assert_eq!(find(&pairs, "state"), "state");
    assert_eq!(find(&pairs, "scope"), "read write");
    assert_eq!(find(&pairs, "redirect_uri"), "http://127.0.0.1:9/callback");
}

#[test]
fn an_address_has_room_for_what_is_added_to_it() {
    let mut address = require_secure("https://h/é", "url").unwrap();
    assert_eq!(address.length, "https://h/%C3%A9".len());
    let pairs = vec![("a".to_string(), "é".to_string()), ("b".to_string(), String::new())];
    assert!(room_for(&address, &pairs));
    // Three bytes in the first pair, one in the second, and what joins them.
    let added = 3 * 4 + 2 * 2;
    address.length = u32::MAX as usize - added;
    assert!(room_for(&address, &pairs));
    address.length += 1;
    assert!(!room_for(&address, &pairs));
    address.length = u32::MAX as usize + 1;
    assert!(!room_for(&address, &vec![]));
}

#[test]
fn an_endpoint_that_cannot_be_read_is_refused() {
    let mut endpoints = endpoints();
    endpoints.authorization_endpoint = "not a url".to_string();
    let error = authorize_url(&endpoints, "c", "r", "x", "s", &None).unwrap_err();
    assert!(told(&error).starts_with("OAuth: parse authorization endpoint: "), "{error:?}");
}

fn tokens(expires_at: Option<i128>) -> McpOAuthTokenSet {
    McpOAuthTokenSet {
        access_token: "access".into(),
        refresh_token: Some("refresh".into()),
        token_type: "Bearer".into(),
        expires_at,
        scope: Some("read".into()),
        token_endpoint: "https://auth.example/token".into(),
        client_id: "client".into(),
        client_secret: None,
    }
}

const NOW: i128 = 1_700_000_000 * SECOND;

#[test]
fn refreshes_only_when_expiring_and_refreshable() {
    let mut tokens = tokens(Some(NOW + 10 * SECOND));
    assert!(tokens.needs_refresh(NOW));
    tokens.refresh_token = None;
    assert!(!tokens.needs_refresh(NOW));
}

#[test]
fn a_token_expires_at_its_instant() {
    let tokens = tokens(Some(NOW));
    assert!(tokens.is_expired(NOW));
    assert!(!tokens.is_expired(NOW - 1));
    assert!(tokens.needs_refresh(NOW - 60 * SECOND));
    assert!(!tokens.needs_refresh(NOW - 60 * SECOND - 1));
}

fn answer(expires_in: Option<i64>, refresh_token: Option<&str>) -> TokenResponse {
    TokenResponse {
        access_token: "access-2".into(),
        refresh_token: refresh_token.map(str::to_string),
        token_type: None,
        expires_in,
        scope: None,
    }
}

#[test]
fn a_provider_refreshes_before_returning_authorization() {
    let mut provider = McpOAuthTokenProvider::new(tokens(Some(NOW - SECOND)));
    match provider.authorization(NOW) {
        Authorization::Refresh(form) => {
            assert_eq!(find(&form, "grant_type"), "refresh_token");
            assert_eq!(find(&form, "refresh_token"), "refresh");
            assert_eq!(find(&form, "client_id"), "client");
            assert_eq!(form.len(), 3);
        }
        _ => panic!("no refresh"),
    }
    provider.renew(answer(Some(3600), Some("refresh-2")), NOW);
    match provider.authorization(NOW) {
        Authorization::Header(header) => assert_eq!(header, "Bearer access-2"),
        _ => panic!("no header"),
    }
    assert_eq!(provider.tokens().refresh_token.as_deref(), Some("refresh-2"));
    assert_eq!(provider.tokens().expires_at, Some(NOW + 3600 * SECOND));
}

#[test]
fn renewing_keeps_what_the_answer_leaves_out() {
    let renewed = tokens(Some(NOW)).refreshed(answer(Some(0), None), NOW);
    assert_eq!(renewed.refresh_token.as_deref(), Some("refresh"));
    assert_eq!(renewed.scope.as_deref(), Some("read"));
    assert_eq!(renewed.token_type, "Bearer");
    assert_eq!(renewed.expires_at, None);
    assert_eq!(renewed.header(), "Bearer access-2");
}

#[test]
fn tokens_that_cannot_be_renewed_say_why() {
    let mut without = tokens(Some(NOW));
    without.refresh_token = None;
    assert_eq!(
        told(&without.refresh_form().unwrap_err()),
        "OAuth: stored token has no refresh token"
    );
    let mut plaintext = tokens(Some(NOW));
    plaintext.token_endpoint = "http://auth.example/token".to_string();
    match McpOAuthTokenProvider::new(plaintext).authorization(NOW) {
        Authorization::Failed(error) => {
            assert!(told(&error).contains("http://auth.example/token"), "{error:?}")
        }
        _ => panic!("no failure"),
    }
    let mut secret = tokens(None);
    secret.client_secret = Some("s".to_string());
    assert_eq!(find(&secret.refresh_form().unwrap(), "client_secret"), "s");
}

#[test]
fn discovery_follows_the_origin() {
    let (origin, url) = resource_metadata_url("https://mcp.example:8443/a/mcp").unwrap();
    assert_eq!(origin, "https://mcp.example:8443");
    assert_eq!(url, "https://mcp.example:8443/.well-known/oauth-protected-resource");
    assert_eq!(issuer_origin(&origin, &None).unwrap(), origin);
    assert_eq!(
        issuer_origin(&origin, &Some(vec!["https://auth.example/tenant".to_string()])).unwrap(),
        "https://auth.example"
    );
    assert!(issuer_origin(&origin, &Some(vec!["http://auth.example".to_string()])).is_err());
    assert_eq!(
        server_metadata_urls("https://a"),
        vec![
            "https://a/.well-known/oauth-authorization-server",
            "https://a/.well-known/openid-configuration"
        ]
    );
    assert_eq!(well_known("https://a", "x"), "https://a/.well-known/x");
    assert_eq!(
        told(&no_metadata("https://a")),
        "OAuth: no authorization-server metadata found for https://a"
    );
}

#[test]
fn only_a_missing_page_means_there_is_no_metadata() {
    assert!(matches!(fetch_outcome("u", 404, "404"), Fetched::Missing));
    assert!(matches!(fetch_outcome("u", 200, "200"), Fetched::Present));
    match fetch_outcome("u", 500, "500 Oops") {
        Fetched::Failed(error) => assert_eq!(told(&error), "OAuth: GET u returned 500 Oops"),
        other => panic!("{other:?}"),
    }
}

#[test]
fn endpoints_must_be_secure_and_registration_offered() {
    assert!(check_endpoints(endpoints()).is_ok());
    let mut plain = endpoints();
    plain.token_endpoint = "http://auth.example/token".to_string();
    assert!(told(&check_endpoints(plain).unwrap_err()).contains("token endpoint"));
    let error = registration_endpoint(&endpoints()).unwrap_err();
    assert!(told(&error).contains("dynamic client registration"), "{error:?}");
}

#[test]
fn a_login_asks_for_what_the_server_offers() {
    let mut endpoints = endpoints();
    assert_eq!(choose_scope(&None, &endpoints), None);
    endpoints.scopes_supported = Some(vec!["a".to_string(), "b".to_string()]);
    assert_eq!(choose_scope(&None, &endpoints).as_deref(), Some("a b"));
    assert_eq!(choose_scope(&Some("c".to_string()), &endpoints).as_deref(), Some("c"));
    let client = OAuthClient { client_id: "id".to_string(), client_secret: None };
    let login = PreparedMcpOAuthLogin::prepare(
        endpoints,
        client,
        redirect_uri(4000),
        &None,
        "verifier".to_string(),
        "the state".to_string(),
        issuer(),
    )
    .unwrap();
    let pairs = query(login.authorize_url());
    assert_eq!(find(&pairs, "client_id"), "id");
    assert_eq!(find(&pairs, "state"), "the state");
    assert_eq!(find(&pairs, "scope"), "a b");
    assert_eq!(find(&pairs, "code_challenge"), pkce_challenge("verifier"));
    let form = login.exchange_form("the-code");
    assert_eq!(find(&form, "code"), "the-code");
    assert_eq!(find(&form, "code_verifier"), "verifier");
    assert_eq!(find(&form, "redirect_uri"), format!("http://127.0.0.1:4000{CALLBACK_PATH}"));
    let tokens = login.exchanged(answer(Some(10), None), NOW);
    assert_eq!(tokens.access_token, "access-2");
    assert_eq!(tokens.scope.as_deref(), Some("a b"));
    assert_eq!(tokens.expires_at, Some(NOW + 10 * SECOND));
}

#[test]
fn random_tokens_can_stand_in_an_address() {
    let a = random_pkce_verifier();
    let b = random_pkce_verifier();
    assert_eq!(a.len(), 64);
    assert_ne!(a, b);
    assert!(a.chars().all(|c| c.is_ascii_alphanumeric() || c == '-' || c == '_'));
    assert_eq!(random_token(1).len(), 2);
    assert_eq!(token_from(&vec![0xfb, 0xff]), "-_8");
}

fn issuer() -> ExpectedIssuer {
    expected_issuer("https://auth.example", None, false)
}

#[test]
fn the_issuer_is_named_by_its_metadata_or_by_its_origin() {
    assert_eq!(issuer().issuer, "https://auth.example");
    let named =
        expected_issuer("https://auth.example", Some("https://auth.example/t".to_string()), true);
    assert_eq!(named.issuer, "https://auth.example/t");
    assert!(named.always_named);
}

#[test]
fn a_callback_of_another_issuer_yields_no_code() {
    let refused = |target: String, issuer: &ExpectedIssuer| {
        let reply = on_callback(&request(&target), "s", issuer).unwrap();
        assert!(reply.response.starts_with("HTTP/1.1 400 Bad Request\r\n"), "{}", reply.response);
        match &reply.outcome {
            CallbackOutcome::Failed(error) => told(error),
            other => panic!("{other:?}"),
        }
    };
    let plain = format!("{CALLBACK_PATH}?code=c&state=s");
    let foreign = format!("{plain}&iss=https%3A%2F%2Fevil.example");
    assert_eq!(refused(foreign, &issuer()), "OAuth: callback issuer mismatch");
    let strict = expected_issuer("https://auth.example", None, true);
    assert_eq!(refused(plain.clone(), &strict), "OAuth: callback issuer mismatch");
    let own = format!("{plain}&iss=https%3A%2F%2Fauth.example");
    let reply = on_callback(&request(&own), "s", &strict).unwrap();
    assert!(matches!(&reply.outcome, CallbackOutcome::Code(code) if code == "c"));
}

fn request(target: &str) -> String {
    format!("GET {target} HTTP/1.1\r\nHost: localhost\r\n\r\n")
}

#[test]
fn a_callback_with_the_state_yields_its_code() {
    let target = format!("{CALLBACK_PATH}?code=the%2Dcode&state=s");
    let reply = on_callback(&request(&target), "s", &issuer()).unwrap();
    assert!(matches!(&reply.outcome, CallbackOutcome::Code(code) if code == "the-code"));
    assert!(reply.response.starts_with("HTTP/1.1 200 OK\r\n"), "{}", reply.response);
    let reply = on_callback_bytes(&request(&target).into_bytes(), "s", &issuer()).unwrap();
    assert!(matches!(&reply.outcome, CallbackOutcome::Code(code) if code == "the-code"));
}

#[test]
fn a_callback_without_the_state_is_refused() {
    let target = format!("{CALLBACK_PATH}?code=c&state=other");
    let reply = on_callback(&request(&target), "s", &issuer()).unwrap();
    match &reply.outcome {
        CallbackOutcome::Failed(error) => assert_eq!(told(error), "OAuth: callback state mismatch"),
        other => panic!("{other:?}"),
    }
    assert!(reply.response.starts_with("HTTP/1.1 400 Bad Request\r\n"), "{}", reply.response);
}

#[test]
fn other_callbacks_are_answered_in_kind() {
    let reply = on_callback(&request("/favicon.ico"), "s", &issuer()).unwrap();
    assert!(matches!(reply.outcome, CallbackOutcome::Wait));
    assert!(reply.response.starts_with("HTTP/1.1 404 Not Found\r\n"));
    let pairs = |list: &[(&str, &str)]| -> Vec<(String, String)> {
        list.iter().map(|(k, v)| (k.to_string(), v.to_string())).collect()
    };
    let decide = |list: &[(&str, &str)]| decide_callback(CALLBACK_PATH, &pairs(list), "s", &issuer());
    let denied = decide(&[("state", "s"), ("error", "no")]);
    match &denied.outcome {
        CallbackOutcome::Failed(error) => {
            assert_eq!(told(error), "OAuth: authorization server returned `no`")
        }
        other => panic!("{other:?}"),
    }
    let empty = decide(&[("state", "s")]);
    match &empty.outcome {
        CallbackOutcome::Failed(error) => {
            assert_eq!(told(error), "OAuth: callback missing authorization code")
        }
        other => panic!("{other:?}"),
    }
    let error = on_callback("GET", "s", &issuer()).unwrap_err();
    assert_eq!(told(&error), "OAuth: invalid OAuth callback request");
}

#[test]
fn a_reply_tells_its_length_in_bytes() {
    let text = reply("400 Bad Request", "ü < x");
    let (head, body) = text.split_once("\r\n\r\n").unwrap();
    assert!(head.contains(&format!("Content-Length: {}\r\n", body.len())), "{head}");
    assert!(body.contains("ü &lt; x"), "{body}");
    assert!(body.contains("MCP login failed"), "{body}");
    assert_eq!(html_escape("<a href=\"x\">&</a>"), "&lt;a href=&quot;x&quot;&gt;&amp;&lt;/a&gt;");
}

#[test]
fn oauth_tokens_do_not_leak_through_debug() {
    let tokens = McpOAuthTokenSet {
        access_token: "access-secret".into(),
        refresh_token: Some("refresh-secret".into()),
        token_type: "Bearer".into(),
        expires_at: None,
        scope: None,
        token_endpoint: "https://auth.example/token".into(),
        client_id: "client".into(),
        client_secret: Some("client-secret".into()),
    };
    let debug = tokens.debug_text();
    assert!(!debug.contains("access-secret"));
    assert!(!debug.contains("refresh-secret"));
    assert!(!debug.contains("client-secret"));
}

#[test]
fn debug_shows_everything_but_the_secrets() {
    let tokens = McpOAuthTokenSet {
        access_token: "access-secret".into(),
        refresh_token: Some("refresh-secret".into()),
        token_type: "Bearer".into(),
        expires_at: Some(1_500_000_000),
        scope: Some("read \"all\"".into()),
        token_endpoint: "https://auth.example/token".into(),
        client_id: "client".into(),
        client_secret: None,
    };
    assert_eq!(
        tokens.debug_text(),
        "McpOAuthTokenSet { access_token: \"[REDACTED]\", \
         refresh_token: Some(\"[REDACTED]\"), token_type: \"Bearer\", \
         expires_at: Some(1970-01-01T00:00:01.500Z), scope: Some(\"read \\\"all\\\"\"), \
         token_endpoint: \"https://auth.example/token\", client_id: \"client\", \
         client_secret: None }"
    );
}

#[test]
fn debug_tells_the_first_and_the_last_instant() {
    let mut tokens = McpOAuthTokenSet {
        access_token: "a".into(),
        refresh_token: None,
        token_type: "Bearer".into(),
        expires_at: Some(-1),
        scope: None,
        token_endpoint: "t".into(),
        client_id: "c".into(),
        client_secret: None,
    };
    assert!(tokens.debug_text().contains("Some(1969-12-31T23:59:59.999999999Z)"));
    tokens.expires_at = Some(LATEST);
    assert!(tokens.debug_text().contains("Some(+262142-12-31T23:59:59.999999999Z)"));
    tokens.expires_at = Some(EARLIEST);
    assert!(tokens.debug_text().contains("Some(-262143-01-01T00:00:00Z)"));
}
