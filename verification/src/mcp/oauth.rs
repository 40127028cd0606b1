//! OAuth 2.1 for remote servers: finding the endpoints, the browser login with
//! a proof key, the callback, and keeping tokens fresh.
//!
//! A host makes the requests and listens for the callback. An instant is the
//! number of nanoseconds since 1970 began, in UTC.

use vstd::prelude::*;
use vstd::utf8::encode_utf8;

use crate::json::{items_view, jstr, Json, JsonView};
use crate::message::Error;
use crate::text::{byte_len, byte_len_of, cat2, cat3, cat4, cat5, chars_of, clone_opt, decimal,
    decimal_of, is_space, is_space_char, join, joined, lines, lines_of, lossy_text, opt_text,
    or_else, same, starts_with, string_of, text_pairs, texts, trim_start, trimmed_start,
    utf8_lossy};

verus! {

/// The path that a login is sent back to.
pub const CALLBACK_PATH: &'static str = "/callback";

/// How long before its expiry a token is renewed.
pub const REFRESH_SKEW: i128 = 60_000_000_000;

/// How many nanoseconds a second has.
pub const SECOND: i128 = 1_000_000_000;

/// The first instant that can be told: the beginning of the year -262143.
pub const EARLIEST: i128 = -8_334_601_228_800_000_000_000;

/// The last instant that can be told: the end of the year 262142.
pub const LATEST: i128 = 8_210_266_876_799_999_999_999;

/// The text of a failure of the login.
pub open spec fn oauth_says(what: Seq<char>) -> Seq<char> {
    "OAuth: "@ + what
}

/// A failure of the login.
pub fn oauth_error(what: &str) -> (r: Error)
    ensures
        r.is_mcp(oauth_says(what@)),
{
    Error::Mcp(cat2("OAuth: ", what))
}

// ------------------------------------------------------------------ addresses

/// What is read of an address.
#[derive(Debug)]
pub struct UrlParts {
    pub scheme: String,
    pub host: Option<String>,
    pub port: Option<u16>,
    pub path: String,
    /// The pairs of the query, decoded, in order.
    pub query: Vec<(String, String)>,
    /// How many bytes the whole address has.
    pub length: usize,
}

/// The content of a [`UrlParts`].
pub ghost struct UrlView {
    pub scheme: Seq<char>,
    pub host: Option<Seq<char>>,
    pub port: Option<u16>,
    pub path: Seq<char>,
    pub query: Seq<(Seq<char>, Seq<char>)>,
    pub length: int,
}

impl View for UrlParts {
    type V = UrlView;

    open spec fn view(&self) -> UrlView {
        UrlView {
            scheme: self.scheme@,
            host: opt_text(self.host),
            port: self.port,
            path: self.path@,
            query: text_pairs(self.query@),
            length: self.length as int,
        }
    }
}

/// What `reqwest::Url::parse` reads from a text: the parts of the address, or
/// the message of the error.
pub uninterp spec fn url_parse(text: Seq<char>) -> Result<UrlView, Seq<char>>;

/// What `reqwest::Url::parse_with_params` makes of an address and the pairs to
/// add to its query: the new address, or the message of the error.
pub uninterp spec fn url_with_params(
    text: Seq<char>,
    pairs: Seq<(Seq<char>, Seq<char>)>,
) -> Result<Seq<char>, Seq<char>>;

/// Reads an address with `reqwest::Url::parse`, and takes its scheme, host,
/// port, path, query pairs and length from the accessors of the result: they
/// depend on the text alone.
#[verifier::external_body]
fn parse_url(text: &str) -> (r: Result<UrlParts, String>)
    ensures
        match r {
            Ok(parts) => url_parse(text@) == Ok::<UrlView, Seq<char>>(parts@),
            Err(message) => url_parse(text@) == Err::<UrlView, Seq<char>>(message@),
        },
{
    let url = reqwest::Url::parse(text).map_err(|e| e.to_string())?;
    Ok(
        UrlParts {
            scheme: url.scheme().to_string(),
            host: url.host_str().map(|h| h.to_string()),
            port: url.port(),
            path: url.path().to_string(),
            query: url.query_pairs().into_owned().collect(),
            length: url.as_str().len(),
        },
    )
}

/// How many bytes pairs add to an address at most: three for each byte of
/// theirs, and two that join them on.
pub open spec fn added_len(pairs: Seq<(Seq<char>, Seq<char>)>) -> nat
    decreases pairs.len(),
{
    if pairs.len() == 0 {
        0
    } else {
        let (name, value) = pairs.last();
        added_len(pairs.drop_last()) + 3 * byte_len(name) + 3 * byte_len(value) + 2
    }
}

/// Whether an address has room for pairs: the positions in it are kept in 32
/// bits.
pub open spec fn has_room(url: UrlView, pairs: Seq<(Seq<char>, Seq<char>)>) -> bool {
    url.length + added_len(pairs) <= u32::MAX
}

/// Adds pairs to the query of an address with
/// `reqwest::Url::parse_with_params`: the result depends on the address and
/// the pairs alone. It reads the address as `reqwest::Url::parse` does, and
/// fails only where that does, with the same message. It panics where a
/// position in the address does not fit into 32 bits, which is left out.
#[verifier::external_body]
fn add_params(text: &str, pairs: &Vec<(String, String)>) -> (r: Result<String, String>)
    requires
        url_parse(text@) matches Ok(url) ==> has_room(url, text_pairs(pairs@)),
    ensures
        match r {
            Ok(url) => url_parse(text@) is Ok && url_with_params(text@, text_pairs(pairs@))
                == Ok::<Seq<char>, Seq<char>>(url@),
            Err(message) => url_parse(text@) == Err::<UrlView, Seq<char>>(message@)
                && url_with_params(text@, text_pairs(pairs@)) == Err::<Seq<char>, Seq<char>>(
                message@,
            ),
        },
{
    match reqwest::Url::parse_with_params(text, pairs) {
        Ok(url) => Ok(url.to_string()),
        Err(e) => Err(e.to_string()),
    }
}

proof fn lemma_added_len_grows(pairs: Seq<(Seq<char>, Seq<char>)>, n: int)
    requires
        0 <= n <= pairs.len(),
    ensures
        added_len(pairs.take(n)) <= added_len(pairs),
    decreases pairs.len(),
{
    if n == pairs.len() {
        assert(pairs.take(n) =~= pairs);
    } else {
        lemma_added_len_grows(pairs.drop_last(), n);
        assert(pairs.drop_last().take(n) =~= pairs.take(n));
    }
}

/// Whether an address has room for pairs.
pub fn room_for(url: &UrlParts, pairs: &Vec<(String, String)>) -> (r: bool)
    ensures
        r == has_room(url@, text_pairs(pairs@)),
{
    let limit: u128 = u32::MAX as u128;
    let mut length: u128 = url.length as u128;
    if length > limit {
        return false;
    }
    let ghost all = text_pairs(pairs@);
    assert(all.take(0) =~= Seq::<(Seq<char>, Seq<char>)>::empty());
    let mut i: usize = 0;
    while i < pairs.len()
        invariant
            i <= pairs@.len(),
            all == text_pairs(pairs@),
            limit == u32::MAX,
            length <= limit,
            length == url@.length + added_len(all.take(i as int)),
        decreases pairs.len() - i,
    {
        let name = byte_len_of(pairs[i].0.as_str());
        let value = byte_len_of(pairs[i].1.as_str());
        length = length + 3 * (name as u128) + 3 * (value as u128) + 2;
        i += 1;
        proof {
            assert(all.take(i as int).drop_last() =~= all.take(i as int - 1));
            lemma_added_len_grows(all, i as int);
        }
        if length > limit {
            return false;
        }
    }
    assert(all.take(i as int) =~= all);
    true
}

/// Whether an address points at this machine. The host of an address holds the
/// brackets that stand around one of the sixth version.
pub open spec fn is_loopback(url: UrlView) -> bool {
    url.host == Some("localhost"@) || url.host == Some("127.0.0.1"@) || url.host == Some("[::1]"@)
}

/// Whether an address may be used: it is encrypted, or never leaves this
/// machine.
pub open spec fn is_secure(url: UrlView) -> bool {
    url.scheme == "https"@ || (url.scheme == "http"@ && is_loopback(url))
}

/// The text of the refusal of an address.
pub open spec fn insecure_text(label: Seq<char>, scheme: Seq<char>, url: Seq<char>) -> Seq<char> {
    oauth_says(
        label + " must use https (got "@ + scheme + " for a non-loopback host): "@ + url,
    )
}

/// Refuse an address that is neither encrypted nor on this machine.
pub fn check_secure(parts: &UrlParts, url: &str, label: &str) -> (r: Result<(), Error>)
    ensures
        r is Ok <==> is_secure(parts@),
        r matches Err(e) ==> e.is_mcp(insecure_text(label@, parts@.scheme, url@)),
{
    let loopback = match &parts.host {
        Some(host) => same(host.as_str(), "localhost") || same(host.as_str(), "127.0.0.1") || same(
            host.as_str(),
            "[::1]",
        ),
        None => false,
    };
    if same(parts.scheme.as_str(), "https") || (same(parts.scheme.as_str(), "http") && loopback) {
        return Ok(());
    }
    let what = cat5(
        label,
        " must use https (got ",
        parts.scheme.as_str(),
        " for a non-loopback host): ",
        url,
    );
    Err(oauth_error(what.as_str()))
}

/// What an address that must be secure comes to.
pub open spec fn secured(url: Seq<char>, label: Seq<char>) -> Result<UrlView, Seq<char>> {
    match url_parse(url) {
        Err(message) => Err(
            oauth_says("parse "@ + label + " URL `"@ + url + ("`: "@ + message)),
        ),
        Ok(parts) => if is_secure(parts) {
            Ok(parts)
        } else {
            Err(insecure_text(label, parts.scheme, url))
        },
    }
}

/// The parts of an address that must be secure.
pub fn require_secure(url: &str, label: &str) -> (r: Result<UrlParts, Error>)
    ensures
        match secured(url@, label@) {
            Ok(parts) => r matches Ok(p) && p@ == parts,
            Err(message) => r matches Err(e) && e.is_mcp(message),
        },
{
    match parse_url(url) {
        Err(message) => {
            let tail = cat2("`: ", message.as_str());
            let what = cat5("parse ", label, " URL `", url, tail.as_str());
            Err(oauth_error(what.as_str()))
        },
        Ok(parts) => match check_secure(&parts, url, label) {
            Ok(_) => Ok(parts),
            Err(e) => Err(e),
        },
    }
}

/// The origin of an address: its scheme, host, and port if it names one.
pub open spec fn origin(url: UrlView) -> Seq<char> {
    let base = url.scheme + "://"@ + or_else(url.host, Seq::empty());
    match url.port {
        Some(port) => base + ":"@ + decimal(port as nat),
        None => base,
    }
}

/// The origin of an address.
pub fn origin_of(url: &UrlParts) -> (r: String)
    ensures
        r@ == origin(url@),
{
    let host = match &url.host {
        Some(host) => host.clone(),
        None => String::new(),
    };
    let base = cat3(url.scheme.as_str(), "://", host.as_str());
    match url.port {
        Some(port) => {
            let number = decimal_of(port as u64);
            cat3(base.as_str(), ":", number.as_str())
        },
        None => base,
    }
}

/// A well-known address of an origin.
pub open spec fn well_known_view(origin: Seq<char>, suffix: Seq<char>) -> Seq<char> {
    origin + "/.well-known/"@ + suffix
}

/// A well-known address of an origin.
pub fn well_known(origin: &str, suffix: &str) -> (r: String)
    ensures
        r@ == well_known_view(origin@, suffix@),
{
    cat3(origin, "/.well-known/", suffix)
}

// ------------------------------------------------------------------ discovery

/// The endpoints of an authorization server.
#[derive(Debug)]
pub struct OAuthEndpoints {
    pub authorization_endpoint: String,
    pub token_endpoint: String,
    pub registration_endpoint: Option<String>,
    pub scopes_supported: Option<Vec<String>>,
}

/// What the client is called at an authorization server.
#[derive(Debug)]
pub struct OAuthClient {
    pub client_id: String,
    pub client_secret: Option<String>,
}

/// What the answer to a request for metadata means.
#[derive(Debug)]
pub enum Fetched {
    /// There is none.
    Missing,
    /// The body holds it.
    Present,
    /// The request failed.
    Failed(Error),
}

/// What the answer to a request for metadata means: a missing page is an
/// answer, any other failure is one.
pub fn fetch_outcome(url: &str, status: u16, status_text: &str) -> (r: Fetched)
    ensures
        if status == 404 {
            r is Missing
        } else if 200 <= status <= 299 {
            r is Present
        } else {
            r matches Fetched::Failed(e) && e.is_mcp(
                oauth_says("GET "@ + url@ + " returned "@ + status_text@),
            )
        },
{
    if status == 404 {
        Fetched::Missing
    } else if 200 <= status && status <= 299 {
        Fetched::Present
    } else {
        let what = cat4("GET ", url, " returned ", status_text);
        Fetched::Failed(oauth_error(what.as_str()))
    }
}

/// The origin of a server, and where it says who authorizes for it.
pub fn resource_metadata_url(mcp_url: &str) -> (r: Result<(String, String), Error>)
    ensures
        match secured(mcp_url@, "MCP server"@) {
            Ok(parts) => r matches Ok((o, url)) && o@ == origin(parts) && url@ == well_known_view(
                origin(parts),
                "oauth-protected-resource"@,
            ),
            Err(message) => r matches Err(e) && e.is_mcp(message),
        },
{
    match require_secure(mcp_url, "MCP server") {
        Ok(parts) => {
            let o = origin_of(&parts);
            let url = well_known(o.as_str(), "oauth-protected-resource");
            Ok((o, url))
        },
        Err(e) => Err(e),
    }
}

/// Who authorizes for a server: the first that it names, or itself.
pub open spec fn issuer(server_origin: Seq<char>, named: Option<Seq<Seq<char>>>) -> Seq<char> {
    match named {
        Some(servers) if servers.len() > 0 => servers[0],
        _ => server_origin,
    }
}

/// The origin of the authorization server of a server: the first that the
/// server names, or the server's own.
pub fn issuer_origin(server_origin: &str, named: &Option<Vec<String>>) -> (r: Result<String, Error>)
    ensures
        ({
            let who = issuer(
                server_origin@,
                match *named {
                    Some(servers) => Some(texts(servers@)),
                    None => None,
                },
            );
            match secured(who, "authorization server"@) {
                Ok(parts) => r matches Ok(o) && o@ == origin(parts),
                Err(message) => r matches Err(e) && e.is_mcp(message),
            }
        }),
{
    let who = match named {
        Some(servers) => if servers.len() > 0 {
            servers[0].clone()
        } else {
            server_origin.to_owned()
        },
        None => server_origin.to_owned(),
    };
    match require_secure(who.as_str(), "authorization server") {
        Ok(parts) => Ok(origin_of(&parts)),
        Err(e) => Err(e),
    }
}

/// Where an authorization server may describe itself, in the order to ask.
pub fn server_metadata_urls(issuer_origin: &str) -> (r: Vec<String>)
    ensures
        texts(r@) == seq![
            well_known_view(issuer_origin@, "oauth-authorization-server"@),
            well_known_view(issuer_origin@, "openid-configuration"@),
        ],
{
    let r = vec![
        well_known(issuer_origin, "oauth-authorization-server"),
        well_known(issuer_origin, "openid-configuration"),
    ];
    assert(texts(r@) =~= seq![
        well_known_view(issuer_origin@, "oauth-authorization-server"@),
        well_known_view(issuer_origin@, "openid-configuration"@),
    ]);
    r
}

/// The failure to find any description of an authorization server.
pub fn no_metadata(issuer_origin: &str) -> (r: Error)
    ensures
        r.is_mcp(
            oauth_says("no authorization-server metadata found for "@ + issuer_origin@),
        ),
{
    let what = cat2("no authorization-server metadata found for ", issuer_origin);
    oauth_error(what.as_str())
}

/// The authorization server that a login was sent to, by the name that it
/// gives itself in its callbacks.
#[derive(Debug)]
pub struct ExpectedIssuer {
    pub issuer: String,
    /// Whether the server said that it names itself in every callback.
    pub always_named: bool,
}

/// The content of an [`ExpectedIssuer`].
pub ghost struct IssuerView {
    pub issuer: Seq<char>,
    pub always_named: bool,
}

impl View for ExpectedIssuer {
    type V = IssuerView;

    open spec fn view(&self) -> IssuerView {
        IssuerView { issuer: self.issuer@, always_named: self.always_named }
    }
}

/// Who the callback of a login is to come from: the server by the name in its
/// description, or by its origin where it gives none.
pub fn expected_issuer(issuer_origin: &str, named: Option<String>, always_named: bool) -> (r:
    ExpectedIssuer)
    ensures
        r@ == (IssuerView { issuer: or_else(opt_text(named), issuer_origin@), always_named }),
{
    match named {
        Some(issuer) => ExpectedIssuer { issuer, always_named },
        None => ExpectedIssuer { issuer: issuer_origin.to_owned(), always_named },
    }
}

/// Whether a callback comes from the server that a login was sent to: it names
/// that server, letter for letter, or it names none and the server never said
/// that it would.
pub open spec fn comes_from(pairs: Seq<(Seq<char>, Seq<char>)>, issuer: IssuerView) -> bool {
    match parameter(pairs, "iss"@) {
        Some(named) => named == issuer.issuer,
        None => !issuer.always_named,
    }
}

/// The first failure among the endpoints that must be secure.
pub open spec fn endpoints_failure(endpoints: OAuthEndpoints) -> Option<Seq<char>> {
    match secured(endpoints.authorization_endpoint@, "authorization endpoint"@) {
        Err(message) => Some(message),
        Ok(_) => match secured(endpoints.token_endpoint@, "token endpoint"@) {
            Err(message) => Some(message),
            Ok(_) => match opt_text(endpoints.registration_endpoint) {
                None => None,
                Some(endpoint) => match secured(endpoint, "registration endpoint"@) {
                    Err(message) => Some(message),
                    Ok(_) => None,
                },
            },
        },
    }
}

/// The endpoints that an authorization server described, each of which must be
/// secure.
pub fn check_endpoints(endpoints: OAuthEndpoints) -> (r: Result<OAuthEndpoints, Error>)
    ensures
        match endpoints_failure(endpoints) {
            None => r == Ok::<OAuthEndpoints, Error>(endpoints),
            Some(message) => r matches Err(e) && e.is_mcp(message),
        },
{
    if let Err(e) = require_secure(
        endpoints.authorization_endpoint.as_str(),
        "authorization endpoint",
    ) {
        return Err(e);
    }
    if let Err(e) = require_secure(endpoints.token_endpoint.as_str(), "token endpoint") {
        return Err(e);
    }
    if let Some(endpoint) = &endpoints.registration_endpoint {
        if let Err(e) = require_secure(endpoint.as_str(), "registration endpoint") {
            return Err(e);
        }
    }
    Ok(endpoints)
}

/// Where to register, if the authorization server takes registrations.
pub fn registration_endpoint(endpoints: &OAuthEndpoints) -> (r: Result<String, Error>)
    ensures
        match opt_text(endpoints.registration_endpoint) {
            Some(endpoint) => r matches Ok(s) && s@ == endpoint,
            None => r matches Err(e) && e.is_mcp(
                oauth_says(
                    "server does not support dynamic client registration; provide an OAuth client id"@,
                ),
            ),
        },
{
    match &endpoints.registration_endpoint {
        Some(endpoint) => Ok(endpoint.clone()),
        None => Err(
            oauth_error(
                "server does not support dynamic client registration; provide an OAuth client id",
            ),
        ),
    }
}

/// What a registration says: a public client with one place to return to.
pub open spec fn registration_view(redirect_uri: Seq<char>) -> JsonView {
    JsonView::Object(
        seq![
            ("client_name"@, jstr("agentyk"@)),
            ("redirect_uris"@, JsonView::Array(seq![jstr(redirect_uri)])),
            (
                "grant_types"@,
                JsonView::Array(seq![jstr("authorization_code"@), jstr("refresh_token"@)]),
            ),
            ("response_types"@, JsonView::Array(seq![jstr("code"@)])),
            ("token_endpoint_auth_method"@, jstr("none"@)),
        ],
    )
}

fn text_array(parts: Vec<&str>) -> (r: Json)
    ensures
        r@ == JsonView::Array(parts@.map_values(|p: &str| jstr(p@))),
{
    let mut items: Vec<Json> = Vec::new();
    let mut i: usize = 0;
    while i < parts.len()
        invariant
            items@.len() == i <= parts@.len(),
            forall|k: int| 0 <= k < i ==> (#[trigger] items@[k])@ == jstr(parts@[k]@),
        decreases parts.len() - i,
    {
        items.push(Json::text(parts[i]));
        i += 1;
    }
    assert(items_view(items@) =~= parts@.map_values(|p: &str| jstr(p@)));
    Json::array(items)
}

/// What a registration says.
pub fn registration_body(redirect_uri: &str) -> (r: Json)
    ensures
        r@ == registration_view(redirect_uri@),
{
    let uris = vec![redirect_uri];
    assert(uris@.map_values(|p: &str| jstr(p@)) =~= seq![jstr(redirect_uri@)]);
    let grants = vec!["authorization_code", "refresh_token"];
    assert(grants@.map_values(|p: &str| jstr(p@)) =~= seq![
        jstr("authorization_code"@),
        jstr("refresh_token"@),
    ]);
    let responses = vec!["code"];
    assert(responses@.map_values(|p: &str| jstr(p@)) =~= seq![jstr("code"@)]);
    let mut members: Vec<(String, Json)> = Vec::new();
    members.push(("client_name".to_owned(), Json::text("agentyk")));
    members.push(("redirect_uris".to_owned(), text_array(uris)));
    members.push(("grant_types".to_owned(), text_array(grants)));
    members.push(("response_types".to_owned(), text_array(responses)));
    members.push(("token_endpoint_auth_method".to_owned(), Json::text("none")));
    let r = Json::object(members);
    assert(r@->Object_0 =~= registration_view(redirect_uri@)->Object_0);
    r
}

// ----------------------------------------------------------- keys and tokens

/// The six bits that the `i`-th character of an encoding stands for.
pub open spec fn sextet(bytes: Seq<u8>, i: int) -> int {
    let k = 6 * i / 8;
    let high = bytes[k] as int;
    let low = if k + 1 < bytes.len() {
        bytes[k + 1] as int
    } else {
        0
    };
    let v = high * 256 + low;
    let offset = 6 * i % 8;
    if offset == 0 {
        v / 1024 % 64
    } else if offset == 2 {
        v / 256 % 64
    } else if offset == 4 {
        v / 64 % 64
    } else {
        v / 16 % 64
    }
}

/// The character for six bits in the alphabet that is safe in addresses.
pub open spec fn safe_char(n: int) -> char {
    if n < 26 {
        (65 + n) as char
    } else if n < 52 {
        (97 + n - 26) as char
    } else if n < 62 {
        (48 + n - 52) as char
    } else if n == 62 {
        '-'
    } else {
        '_'
    }
}

/// Bytes in base 64, in the alphabet that is safe in addresses and without
/// padding.
pub open spec fn base64_url(bytes: Seq<u8>) -> Seq<char> {
    Seq::new(((4 * bytes.len() + 2) / 3) as nat, |i: int| safe_char(sextet(bytes, i)))
}

/// Encodes bytes with `base64::engine::general_purpose::URL_SAFE_NO_PAD`: six
/// bits at a time, in its alphabet, without padding. It panics where the length
/// of the result does not fit, which is left out.
#[verifier::external_body]
fn encode_base64_url(bytes: &Vec<u8>) -> (r: String)
    requires
        4 * bytes@.len() + 2 <= usize::MAX,
    ensures
        r@ == base64_url(bytes@),
{
    base64::Engine::encode(&base64::engine::general_purpose::URL_SAFE_NO_PAD, bytes)
}

/// The SHA-256 digest of bytes, as `sha2::Sha256::digest` computes it.
pub uninterp spec fn sha256(bytes: Seq<u8>) -> Seq<u8>;

/// Computes a digest with `sha2::Sha256::digest`: it depends on the bytes
/// alone, and has 32 bytes.
#[verifier::external_body]
fn sha256_digest(bytes: &[u8]) -> (r: Vec<u8>)
    ensures
        r@ == sha256(bytes@),
        r@.len() == 32,
{
    <sha2::Sha256 as sha2::Digest>::digest(bytes).to_vec()
}

/// Fills a buffer with `rand::RngCore::fill_bytes` on the generator of the
/// thread. Nothing is said of the bytes but how many there are. It
/// panics where the buffer would be longer than any can be, which is left out.
#[verifier::external_body]
fn random_bytes(n: usize) -> (r: Vec<u8>)
    requires
        n <= usize::MAX / 2,
    ensures
        r@.len() == n,
{
    let mut value = vec![0u8; n];
    rand::RngCore::fill_bytes(&mut rand::rng(), &mut value);
    value
}

/// The token that random bytes make.
pub fn token_from(bytes: &Vec<u8>) -> (r: String)
    requires
        4 * bytes@.len() + 2 <= usize::MAX,
    ensures
        r@ == base64_url(bytes@),
{
    encode_base64_url(bytes)
}

/// Whether a token can stand in an address as it is.
pub open spec fn is_safe_token(token: Seq<char>) -> bool {
    forall|i: int|
        0 <= i < token.len() ==> {
            let c = #[trigger] token[i];
            ('A' <= c <= 'Z') || ('a' <= c <= 'z') || ('0' <= c <= '9') || c == '-' || c == '_'
        }
}

/// Whatever the bytes, a token is as long as they make it and can stand in an
/// address as it is.
pub proof fn tokens_are_safe(bytes: Seq<u8>)
    ensures
        base64_url(bytes).len() == (4 * bytes.len() + 2) / 3,
        is_safe_token(base64_url(bytes)),
{
    let token = base64_url(bytes);
    assert forall|i: int| 0 <= i < token.len() implies {
        let c = #[trigger] token[i];
        ('A' <= c <= 'Z') || ('a' <= c <= 'z') || ('0' <= c <= '9') || c == '-' || c == '_'
    } by {
        let n = sextet(bytes, i);
        assert(0 <= n < 64);
        assert(token[i] == safe_char(n));
    }
}

/// A random token made of this many bytes.
pub fn random_token(bytes: usize) -> (r: String)
    requires
        4 * bytes + 2 <= usize::MAX,
    ensures
        exists|value: Seq<u8>| value.len() == bytes && r@ == #[trigger] base64_url(value),
        r@.len() == (4 * bytes + 2) / 3,
        is_safe_token(r@),
{
    let value = random_bytes(bytes);
    proof {
        tokens_are_safe(value@);
    }
    token_from(&value)
}

/// A random proof key: 64 characters that can stand in an address.
pub fn random_pkce_verifier() -> (r: String)
    ensures
        exists|value: Seq<u8>| value.len() == 48 && r@ == #[trigger] base64_url(value),
        r@.len() == 64,
        is_safe_token(r@),
{
    random_token(48)
}

/// The challenge that a proof key answers: its digest, encoded.
pub fn pkce_challenge(verifier: &str) -> (r: String)
    ensures
        r@ == base64_url(sha256(encode_utf8(verifier@))),
{
    let digest = sha256_digest(verifier.as_bytes());
    encode_base64_url(&digest)
}

// ---------------------------------------------------------------------- login

/// Where a login returns to.
pub open spec fn redirect_view(port: u16) -> Seq<char> {
    "http://127.0.0.1:"@ + decimal(port as nat) + CALLBACK_PATH@
}

/// Where a login returns to.
pub fn redirect_uri(port: u16) -> (r: String)
    ensures
        r@ == redirect_view(port),
{
    let number = decimal_of(port as u64);
    cat3("http://127.0.0.1:", number.as_str(), CALLBACK_PATH)
}

/// The scope to ask for: the one given, or else all that are offered.
pub open spec fn asked_scope(given: Option<Seq<char>>, offered: Option<Seq<Seq<char>>>) -> Option<
    Seq<char>,
> {
    match given {
        Some(scope) => Some(scope),
        None => match offered {
            Some(scopes) => Some(joined(scopes, " "@)),
            None => None,
        },
    }
}

/// The scope to ask for: the one given, or else all that are offered.
pub fn choose_scope(given: &Option<String>, endpoints: &OAuthEndpoints) -> (r: Option<String>)
    ensures
        opt_text(r) == asked_scope(
            opt_text(*given),
            match endpoints.scopes_supported {
                Some(scopes) => Some(texts(scopes@)),
                None => None,
            },
        ),
{
    match given {
        Some(scope) => Some(scope.clone()),
        None => match &endpoints.scopes_supported {
            Some(scopes) => Some(join(scopes, " ")),
            None => None,
        },
    }
}

/// The pairs that a login adds to the authorization endpoint.
pub open spec fn authorize_pairs(
    client_id: Seq<char>,
    redirect_uri: Seq<char>,
    challenge: Seq<char>,
    state: Seq<char>,
    scope: Option<Seq<char>>,
) -> Seq<(Seq<char>, Seq<char>)> {
    seq![
        ("response_type"@, "code"@),
        ("client_id"@, client_id),
        ("redirect_uri"@, redirect_uri),
        ("code_challenge"@, challenge),
        ("code_challenge_method"@, "S256"@),
        ("state"@, state),
    ] + (match scope {
        Some(scope) => seq![("scope"@, scope)],
        None => Seq::empty(),
    })
}

fn login_pairs(
    client_id: &str,
    redirect_uri: &str,
    challenge: &str,
    state: &str,
    scope: &Option<String>,
) -> (r: Vec<(String, String)>)
    ensures
        text_pairs(r@) == authorize_pairs(
            client_id@,
            redirect_uri@,
            challenge@,
            state@,
            opt_text(*scope),
        ),
{
    let mut pairs = vec![
        ("response_type".to_owned(), "code".to_owned()),
        ("client_id".to_owned(), client_id.to_owned()),
        ("redirect_uri".to_owned(), redirect_uri.to_owned()),
        ("code_challenge".to_owned(), challenge.to_owned()),
        ("code_challenge_method".to_owned(), "S256".to_owned()),
        ("state".to_owned(), state.to_owned()),
    ];
    if let Some(scope) = scope {
        pairs.push(("scope".to_owned(), scope.clone()));
    }
    assert(text_pairs(pairs@) =~= authorize_pairs(
        client_id@,
        redirect_uri@,
        challenge@,
        state@,
        opt_text(*scope),
    ));
    pairs
}

/// Whether this is the address of an endpoint with pairs added to it, or the
/// failure of an endpoint that cannot be read or has no room for them.
pub open spec fn is_extended(
    endpoint: Seq<char>,
    pairs: Seq<(Seq<char>, Seq<char>)>,
    r: Result<Seq<char>, Error>,
) -> bool {
    match url_parse(endpoint) {
        Err(message) => r matches Err(e) && e.is_mcp(
            oauth_says("parse authorization endpoint: "@ + message),
        ),
        Ok(url) => if has_room(url, pairs) {
            r matches Ok(s) && url_with_params(endpoint, pairs) == Ok::<Seq<char>, Seq<char>>(s)
        } else {
            r matches Err(e) && e.is_mcp(oauth_says("authorization endpoint is too long"@))
        },
    }
}

/// The address at which a user authorizes the client. An endpoint that leaves
/// no room for what is added to it is refused.
pub fn authorize_url(
    endpoints: &OAuthEndpoints,
    client_id: &str,
    redirect_uri: &str,
    challenge: &str,
    state: &str,
    scope: &Option<String>,
) -> (r: Result<String, Error>)
    ensures
        is_extended(
            endpoints.authorization_endpoint@,
            authorize_pairs(client_id@, redirect_uri@, challenge@, state@, opt_text(*scope)),
            match r {
                Ok(url) => Ok(url@),
                Err(e) => Err(e),
            },
        ),
{
    let pairs = login_pairs(client_id, redirect_uri, challenge, state, scope);
    let endpoint = endpoints.authorization_endpoint.as_str();
    if let Ok(url) = parse_url(endpoint) {
        if !room_for(&url, &pairs) {
            return Err(oauth_error("authorization endpoint is too long"));
        }
    }
    match add_params(endpoint, &pairs) {
        Ok(url) => Ok(url),
        Err(message) => {
            let what = cat2("parse authorization endpoint: ", message.as_str());
            Err(oauth_error(what.as_str()))
        },
    }
}

/// A login that waits for a user. It holds secrets, so it has no debug form.
pub struct PreparedMcpOAuthLogin {
    pub authorize_url: String,
    pub state: String,
    pub verifier: String,
    pub redirect_uri: String,
    pub endpoints: OAuthEndpoints,
    pub client: OAuthClient,
    pub scope: Option<String>,
    /// Who the callback is to come from.
    pub issuer: ExpectedIssuer,
}

impl PreparedMcpOAuthLogin {
    /// A login with a proof key and a state of one's own.
    pub fn prepare(
        endpoints: OAuthEndpoints,
        client: OAuthClient,
        redirect_uri: String,
        given_scope: &Option<String>,
        verifier: String,
        state: String,
        issuer: ExpectedIssuer,
    ) -> (r: Result<Self, Error>)
        ensures
            ({
                let scope = asked_scope(
                    opt_text(*given_scope),
                    match endpoints.scopes_supported {
                        Some(scopes) => Some(texts(scopes@)),
                        None => None,
                    },
                );
                &&& is_extended(
                    endpoints.authorization_endpoint@,
                    authorize_pairs(
                        client.client_id@,
                        redirect_uri@,
                        base64_url(sha256(encode_utf8(verifier@))),
                        state@,
                        scope,
                    ),
                    match r {
                        Ok(login) => Ok(login.authorize_url@),
                        Err(e) => Err(e),
                    },
                )
                &&& r matches Ok(login) ==> login.state == state && login.verifier == verifier
                    && login.redirect_uri == redirect_uri && login.endpoints == endpoints
                    && login.client == client && opt_text(login.scope) == scope && login.issuer
                    == issuer
            }),
    {
        let challenge = pkce_challenge(verifier.as_str());
        let scope = choose_scope(given_scope, &endpoints);
        match authorize_url(
            &endpoints,
            client.client_id.as_str(),
            redirect_uri.as_str(),
            challenge.as_str(),
            state.as_str(),
            &scope,
        ) {
            Ok(authorize_url) => Ok(
                PreparedMcpOAuthLogin {
                    authorize_url,
                    state,
                    verifier,
                    redirect_uri,
                    endpoints,
                    client,
                    scope,
                    issuer,
                },
            ),
            Err(e) => Err(e),
        }
    }

    /// The address that the user visits.
    pub fn authorize_url(&self) -> (r: &str)
        ensures
            r@ == self.authorize_url@,
    {
        self.authorize_url.as_str()
    }

    /// What is posted to exchange a code for tokens.
    pub fn exchange_form(&self, code: &str) -> (r: Vec<(String, String)>)
        ensures
            text_pairs(r@) == seq![
                ("grant_type"@, "authorization_code"@),
                ("code"@, code@),
                ("redirect_uri"@, self.redirect_uri@),
                ("client_id"@, self.client.client_id@),
                ("code_verifier"@, self.verifier@),
            ] + secret_pairs(opt_text(self.client.client_secret)),
    {
        let mut form = vec![
            ("grant_type".to_owned(), "authorization_code".to_owned()),
            ("code".to_owned(), code.to_owned()),
            ("redirect_uri".to_owned(), self.redirect_uri.clone()),
            ("client_id".to_owned(), self.client.client_id.clone()),
            ("code_verifier".to_owned(), self.verifier.clone()),
        ];
        if let Some(secret) = &self.client.client_secret {
            form.push(("client_secret".to_owned(), secret.clone()));
        }
        assert(text_pairs(form@) =~= seq![
            ("grant_type"@, "authorization_code"@),
            ("code"@, code@),
            ("redirect_uri"@, self.redirect_uri@),
            ("client_id"@, self.client.client_id@),
            ("code_verifier"@, self.verifier@),
        ] + secret_pairs(opt_text(self.client.client_secret)));
        form
    }

    /// The tokens that an exchange came to.
    pub fn exchanged(&self, response: TokenResponse, now: i128) -> (r: McpOAuthTokenSet)
        requires
            expiry_fits(response, now),
        ensures
            r@ == tokens_view(
                response,
                self.endpoints.token_endpoint@,
                self.client.client_id@,
                opt_text(self.client.client_secret),
                None,
                opt_text(self.scope),
                now as int,
            ),
    {
        token_set(
            response,
            self.endpoints.token_endpoint.as_str(),
            &self.client,
            &None,
            &self.scope,
            now,
        )
    }
}

/// The pair that carries a client's secret, if it has one.
pub open spec fn secret_pairs(secret: Option<Seq<char>>) -> Seq<(Seq<char>, Seq<char>)> {
    match secret {
        Some(secret) => seq![("client_secret"@, secret)],
        None => Seq::empty(),
    }
}

// --------------------------------------------------------------------- tokens

/// Tokens, and what it takes to renew them. They are secrets: `debug_text` is
/// their only debug form.
pub struct McpOAuthTokenSet {
    pub access_token: String,
    pub refresh_token: Option<String>,
    pub token_type: String,
    pub expires_at: Option<i128>,
    pub scope: Option<String>,
    pub token_endpoint: String,
    pub client_id: String,
    pub client_secret: Option<String>,
}

/// The content of an [`McpOAuthTokenSet`].
pub ghost struct TokensView {
    pub access_token: Seq<char>,
    pub refresh_token: Option<Seq<char>>,
    pub token_type: Seq<char>,
    pub expires_at: Option<int>,
    pub scope: Option<Seq<char>>,
    pub token_endpoint: Seq<char>,
    pub client_id: Seq<char>,
    pub client_secret: Option<Seq<char>>,
}

impl View for McpOAuthTokenSet {
    type V = TokensView;

    open spec fn view(&self) -> TokensView {
        TokensView {
            access_token: self.access_token@,
            refresh_token: opt_text(self.refresh_token),
            token_type: self.token_type@,
            expires_at: match self.expires_at {
                Some(t) => Some(t as int),
                None => None,
            },
            scope: opt_text(self.scope),
            token_endpoint: self.token_endpoint@,
            client_id: self.client_id@,
            client_secret: opt_text(self.client_secret),
        }
    }
}

impl Clone for McpOAuthTokenSet {
    fn clone(&self) -> (r: Self)
        ensures
            r@ == self@,
    {
        McpOAuthTokenSet {
            access_token: self.access_token.clone(),
            refresh_token: clone_opt(&self.refresh_token),
            token_type: self.token_type.clone(),
            expires_at: self.expires_at,
            scope: clone_opt(&self.scope),
            token_endpoint: self.token_endpoint.clone(),
            client_id: self.client_id.clone(),
            client_secret: clone_opt(&self.client_secret),
        }
    }
}

/// What a token endpoint answers.
pub struct TokenResponse {
    pub access_token: String,
    pub refresh_token: Option<String>,
    pub token_type: Option<String>,
    /// In how many seconds the token expires.
    pub expires_in: Option<i64>,
    pub scope: Option<String>,
}

/// The instant at which a token expires, if it says so in a usable way.
pub open spec fn expiry(expires_in: Option<i64>, now: int) -> Option<int> {
    match expires_in {
        Some(seconds) if seconds > 0 => Some(now + seconds * SECOND),
        _ => None,
    }
}

/// Whether the expiry of a token is an instant that can be told.
pub open spec fn expiry_fits(response: TokenResponse, now: i128) -> bool {
    &&& EARLIEST <= now <= LATEST
    &&& expiry(response.expires_in, now as int) matches Some(t) ==> t <= LATEST
}

/// The first of the two that is there.
pub open spec fn first_of<T>(a: Option<T>, b: Option<T>) -> Option<T> {
    match a {
        Some(v) => Some(v),
        None => b,
    }
}

/// The tokens that an answer makes. What the answer leaves out is taken from
/// before; a token without a type is a bearer token.
pub open spec fn tokens_view(
    response: TokenResponse,
    token_endpoint: Seq<char>,
    client_id: Seq<char>,
    client_secret: Option<Seq<char>>,
    fallback_refresh: Option<Seq<char>>,
    fallback_scope: Option<Seq<char>>,
    now: int,
) -> TokensView {
    TokensView {
        access_token: response.access_token@,
        refresh_token: first_of(opt_text(response.refresh_token), fallback_refresh),
        token_type: or_else(opt_text(response.token_type), "Bearer"@),
        expires_at: expiry(response.expires_in, now),
        scope: first_of(opt_text(response.scope), fallback_scope),
        token_endpoint,
        client_id,
        client_secret,
    }
}

fn first_text(a: Option<String>, b: &Option<String>) -> (r: Option<String>)
    ensures
        opt_text(r) == first_of(opt_text(a), opt_text(*b)),
{
    match a {
        Some(s) => Some(s),
        None => clone_opt(b),
    }
}

/// The tokens that an answer makes.
pub fn token_set(
    response: TokenResponse,
    token_endpoint: &str,
    client: &OAuthClient,
    fallback_refresh: &Option<String>,
    fallback_scope: &Option<String>,
    now: i128,
) -> (r: McpOAuthTokenSet)
    requires
        expiry_fits(response, now),
    ensures
        r@ == tokens_view(
            response,
            token_endpoint@,
            client.client_id@,
            opt_text(client.client_secret),
            opt_text(*fallback_refresh),
            opt_text(*fallback_scope),
            now as int,
        ),
{
    let expires_at: Option<i128> = match response.expires_in {
        Some(seconds) => if seconds > 0 {
            Some(now + seconds as i128 * SECOND)
        } else {
            None
        },
        None => None,
    };
    let token_type = match response.token_type {
        Some(kind) => kind,
        None => "Bearer".to_owned(),
    };
    McpOAuthTokenSet {
        access_token: response.access_token,
        refresh_token: first_text(response.refresh_token, fallback_refresh),
        token_type,
        expires_at,
        scope: first_text(response.scope, fallback_scope),
        token_endpoint: token_endpoint.to_owned(),
        client_id: client.client_id.clone(),
        client_secret: clone_opt(&client.client_secret),
    }
}

/// Whether tokens have expired at an instant.
pub open spec fn expired(tokens: TokensView, now: int) -> bool {
    tokens.expires_at matches Some(t) && t <= now
}

/// Whether tokens are to be renewed: they expire soon, and can be renewed.
pub open spec fn refresh_due(tokens: TokensView, now: int) -> bool {
    tokens.refresh_token is Some && expired(tokens, now + REFRESH_SKEW)
}

impl McpOAuthTokenSet {
    /// Whether the access token has expired at an instant.
    pub fn is_expired(&self, now: i128) -> (r: bool)
        ensures
            r == expired(self@, now as int),
    {
        match self.expires_at {
            Some(t) => t <= now,
            None => false,
        }
    }

    /// Whether the tokens are to be renewed: they expire within a minute, and
    /// can be renewed.
    pub fn needs_refresh(&self, now: i128) -> (r: bool)
        requires
            EARLIEST <= now <= LATEST - REFRESH_SKEW,
        ensures
            r == refresh_due(self@, now as int),
    {
        self.refresh_token.is_some() && self.is_expired(now + REFRESH_SKEW)
    }

    /// What is posted to renew the tokens, or why they cannot be.
    pub fn refresh_form(&self) -> (r: Result<Vec<(String, String)>, Error>)
        ensures
            match self@.refresh_token {
                None => r matches Err(e) && e.is_mcp(
                    oauth_says("stored token has no refresh token"@),
                ),
                Some(token) => match secured(self.token_endpoint@, "token endpoint"@) {
                    Err(message) => r matches Err(e) && e.is_mcp(message),
                    Ok(_) => r matches Ok(form) && text_pairs(form@) == seq![
                        ("grant_type"@, "refresh_token"@),
                        ("refresh_token"@, token),
                        ("client_id"@, self.client_id@),
                    ] + secret_pairs(self@.client_secret),
                },
            },
    {
        let token = match &self.refresh_token {
            Some(token) => token,
            None => {
                return Err(oauth_error("stored token has no refresh token"));
            },
        };
        if let Err(e) = require_secure(self.token_endpoint.as_str(), "token endpoint") {
            return Err(e);
        }
        let mut form = vec![
            ("grant_type".to_owned(), "refresh_token".to_owned()),
            ("refresh_token".to_owned(), token.clone()),
            ("client_id".to_owned(), self.client_id.clone()),
        ];
        if let Some(secret) = &self.client_secret {
            form.push(("client_secret".to_owned(), secret.clone()));
        }
        assert(text_pairs(form@) =~= seq![
            ("grant_type"@, "refresh_token"@),
            ("refresh_token"@, token@),
            ("client_id"@, self.client_id@),
        ] + secret_pairs(self@.client_secret));
        Ok(form)
    }

    /// The renewed tokens. What the answer leaves out stays as it was.
    pub fn refreshed(&self, response: TokenResponse, now: i128) -> (r: McpOAuthTokenSet)
        requires
            expiry_fits(response, now),
        ensures
            r@ == renewed(self@, response, now as int),
    {
        let client = OAuthClient {
            client_id: self.client_id.clone(),
            client_secret: clone_opt(&self.client_secret),
        };
        token_set(
            response,
            self.token_endpoint.as_str(),
            &client,
            &self.refresh_token,
            &self.scope,
            now,
        )
    }

    /// The value of the `Authorization` header.
    pub fn header(&self) -> (r: String)
        ensures
            r@ == self.token_type@ + " "@ + self.access_token@,
    {
        cat3(self.token_type.as_str(), " ", self.access_token.as_str())
    }
}

/// The renewed tokens.
pub open spec fn renewed(tokens: TokensView, response: TokenResponse, now: int) -> TokensView {
    tokens_view(
        response,
        tokens.token_endpoint,
        tokens.client_id,
        tokens.client_secret,
        tokens.refresh_token,
        tokens.scope,
        now,
    )
}

/// Renewing keeps what it takes to renew again: the endpoint, the client, and
/// the refresh token and scope unless the answer replaces them.
pub proof fn renewal_can_be_repeated(tokens: TokensView, response: TokenResponse, now: int)
    requires
        tokens.refresh_token is Some,
    ensures
        ({
            let r = renewed(tokens, response, now);
            &&& r.refresh_token is Some
            &&& r.token_endpoint == tokens.token_endpoint
            &&& r.client_id == tokens.client_id
            &&& r.client_secret == tokens.client_secret
            &&& response.refresh_token is None ==> r.refresh_token == tokens.refresh_token
            &&& response.scope is None ==> r.scope == tokens.scope
        }),
{
}

/// Tokens that were just renewed for longer than the margin are not renewed
/// again at once.
pub proof fn renewed_tokens_are_fresh(tokens: TokensView, response: TokenResponse, now: int)
    requires
        response.expires_in matches Some(seconds) && seconds > 60,
    ensures
        !refresh_due(renewed(tokens, response, now), now),
        !expired(renewed(tokens, response, now), now),
{
    let seconds = response.expires_in->0;
    assert(seconds * SECOND > 60 * SECOND) by (nonlinear_arith)
        requires
            seconds > 60,
            SECOND == 1_000_000_000,
    ;
}

/// What has to be done before a request can be authorized. It holds secrets,
/// so it has no debug form.
pub enum Authorization {
    /// Post this form to renew the tokens first.
    Refresh(Vec<(String, String)>),
    /// Send this header.
    Header(String),
    /// The tokens cannot be renewed.
    Failed(Error),
}

/// Tokens that are renewed when they are about to expire.
pub struct McpOAuthTokenProvider {
    pub tokens: McpOAuthTokenSet,
}

impl McpOAuthTokenProvider {
    /// A provider of these tokens.
    pub fn new(tokens: McpOAuthTokenSet) -> (r: Self)
        ensures
            r.tokens == tokens,
    {
        McpOAuthTokenProvider { tokens }
    }

    /// The latest tokens.
    pub fn tokens(&self) -> (r: McpOAuthTokenSet)
        ensures
            r@ == self.tokens@,
    {
        self.tokens.clone()
    }

    /// What has to be done before a request can be authorized.
    pub fn authorization(&self, now: i128) -> (r: Authorization)
        requires
            EARLIEST <= now <= LATEST - REFRESH_SKEW,
        ensures
            if refresh_due(self.tokens@, now as int) {
                match secured(self.tokens.token_endpoint@, "token endpoint"@) {
                    Ok(_) => r matches Authorization::Refresh(form) && text_pairs(form@) == seq![
                        ("grant_type"@, "refresh_token"@),
                        ("refresh_token"@, self.tokens@.refresh_token.unwrap()),
                        ("client_id"@, self.tokens.client_id@),
                    ] + secret_pairs(self.tokens@.client_secret),
                    Err(message) => r matches Authorization::Failed(e) && e.is_mcp(message),
                }
            } else {
                r matches Authorization::Header(h) && h@ == self.tokens.token_type@ + " "@
                    + self.tokens.access_token@
            },
    {
        if self.tokens.needs_refresh(now) {
            match self.tokens.refresh_form() {
                Ok(form) => Authorization::Refresh(form),
                Err(e) => Authorization::Failed(e),
            }
        } else {
            Authorization::Header(self.tokens.header())
        }
    }

    /// The renewed tokens take the place of the old ones.
    pub fn renew(&mut self, response: TokenResponse, now: i128)
        requires
            expiry_fits(response, now),
        ensures
            final(self).tokens@ == renewed(old(self).tokens@, response, now as int),
    {
        self.tokens = self.tokens.refreshed(response, now);
    }
}

/// The failure of a token endpoint.
pub fn token_endpoint_error(status_text: &str, body: &str) -> (r: Error)
    ensures
        r.is_mcp(oauth_says("token endpoint returned "@ + status_text@ + ": "@ + body@)),
{
    let what = cat4("token endpoint returned ", status_text, ": ", body);
    oauth_error(what.as_str())
}

/// The failure of a registration.
pub fn registration_error(status_text: &str, body: &str) -> (r: Error)
    ensures
        r.is_mcp(
            oauth_says("dynamic client registration returned "@ + status_text@ + ": "@ + body@),
        ),
{
    let what = cat4("dynamic client registration returned ", status_text, ": ", body);
    oauth_error(what.as_str())
}

// ------------------------------------------------------------------- callback

/// A character as it is written in a page.
pub open spec fn escaped_char(c: char) -> Seq<char> {
    if c == '&' {
        "&amp;"@
    } else if c == '<' {
        "&lt;"@
    } else if c == '>' {
        "&gt;"@
    } else if c == '"' {
        "&quot;"@
    } else {
        seq![c]
    }
}

/// A text as it is written in a page.
pub open spec fn escaped(s: Seq<char>) -> Seq<char>
    decreases s.len(),
{
    if s.len() == 0 {
        Seq::empty()
    } else {
        escaped(s.drop_last()) + escaped_char(s.last())
    }
}

/// A text as it is written in a page.
pub fn html_escape(value: &str) -> (r: String)
    ensures
        r@ == escaped(value@),
{
    let chars = chars_of(value);
    let mut r = String::new();
    let mut i: usize = 0;
    while i < chars.len()
        invariant
            i <= chars@.len(),
            r@ == escaped(chars@.take(i as int)),
        decreases chars.len() - i,
    {
        assert(chars@.take(i as int + 1).drop_last() =~= chars@.take(i as int));
        let c = chars[i];
        let ghost before = r@;
        if c == '&' {
            r.append("&amp;");
        } else if c == '<' {
            r.append("&lt;");
        } else if c == '>' {
            r.append("&gt;");
        } else if c == '"' {
            r.append("&quot;");
        } else {
            r.push(c);
            assert(r@ =~= before + seq![c]);
        }
        i += 1;
    }
    assert(chars@.take(i as int) =~= chars@);
    r
}

/// An escaped text cannot open or close a tag or an attribute.
pub proof fn escaped_text_is_inert(s: Seq<char>)
    ensures
        !escaped(s).contains('<'),
        !escaped(s).contains('>'),
        !escaped(s).contains('"'),
    decreases s.len(),
{
    if s.len() > 0 {
        escaped_text_is_inert(s.drop_last());
        reveal_strlit("&amp;");
        reveal_strlit("&lt;");
        reveal_strlit("&gt;");
        reveal_strlit("&quot;");
        let a = escaped(s.drop_last());
        let b = escaped_char(s.last());
        let all = escaped(s);
        assert forall|i: int| 0 <= i < all.len() implies all[i] != '<' && all[i] != '>' && all[i]
            != '"' by {
            if i < a.len() {
                assert(all[i] == a[i]);
                assert(a.contains(a[i]));
            } else {
                assert(all[i] == b[i - a.len()]);
            }
        }
    }
}

/// The page that a callback is answered with.
pub open spec fn page(status: Seq<char>, message: Seq<char>) -> Seq<char> {
    "<!doctype html><meta charset=\"utf-8\"><title>MCP OAuth</title><h1>"@ + (
    if "200"@.is_prefix_of(status) {
        "MCP login complete"@
    } else {
        "MCP login failed"@
    }) + "</h1><p>"@ + escaped(message) + "</p>"@
}

/// The whole answer to a callback.
pub open spec fn reply_text(status: Seq<char>, message: Seq<char>) -> Seq<char> {
    "HTTP/1.1 "@ + status
        + "\r\nContent-Type: text/html; charset=utf-8\r\nContent-Length: "@ + decimal(
        byte_len(page(status, message)),
    ) + ("\r\nConnection: close\r\n\r\n"@ + page(status, message))
}

/// The whole answer to a callback.
pub fn reply(status: &str, message: &str) -> (r: String)
    ensures
        r@ == reply_text(status@, message@),
{
    let title = if starts_with(status, "200") {
        "MCP login complete"
    } else {
        "MCP login failed"
    };
    let shown = html_escape(message);
    let body = cat5(
        "<!doctype html><meta charset=\"utf-8\"><title>MCP OAuth</title><h1>",
        title,
        "</h1><p>",
        shown.as_str(),
        "</p>",
    );
    let length = decimal_of(byte_len_of(body.as_str()) as u64);
    let tail = cat2("\r\nConnection: close\r\n\r\n", body.as_str());
    cat5(
        "HTTP/1.1 ",
        status,
        "\r\nContent-Type: text/html; charset=utf-8\r\nContent-Length: ",
        length.as_str(),
        tail.as_str(),
    )
}

/// How long the word at the start of a text is.
pub open spec fn word_len(s: Seq<char>) -> nat
    decreases s.len(),
{
    if s.len() == 0 || is_space(s[0]) {
        0
    } else {
        1 + word_len(s.drop_first())
    }
}

/// The second word of a text.
pub open spec fn second_word(s: Seq<char>) -> Option<Seq<char>> {
    let a = trimmed_start(s);
    let b = trimmed_start(a.skip(word_len(a) as int));
    if b.len() == 0 {
        None
    } else {
        Some(b.take(word_len(b) as int))
    }
}

fn word_end(chars: &Vec<char>) -> (n: usize)
    ensures
        n == word_len(chars@),
        n <= chars@.len(),
{
    let mut n: usize = 0;
    assert(chars@.skip(0) =~= chars@);
    while n < chars.len() && !is_space_char(chars[n])
        invariant
            n <= chars@.len(),
            word_len(chars@) == n + word_len(chars@.skip(n as int)),
        decreases chars.len() - n,
    {
        assert(chars@.skip(n as int).drop_first() =~= chars@.skip(n + 1));
        n += 1;
    }
    n
}

fn take_second_word(s: &str) -> (r: Option<String>)
    ensures
        opt_text(r) == second_word(s@),
{
    let a = trim_start(s);
    let first = chars_of(a.as_str());
    let end = word_end(&first);
    let rest = string_of(&first, end, first.len());
    assert(rest@ =~= a@.skip(end as int));
    let b = trim_start(rest.as_str());
    if b.as_str().is_empty() {
        return None;
    }
    let second = chars_of(b.as_str());
    let stop = word_end(&second);
    let word = string_of(&second, 0, stop);
    assert(word@ =~= b@.take(stop as int));
    Some(word)
}

/// The value of the last pair of this name: a later pair replaces an earlier
/// one.
pub open spec fn parameter(pairs: Seq<(Seq<char>, Seq<char>)>, name: Seq<char>) -> Option<Seq<char>>
    decreases pairs.len(),
{
    if pairs.len() == 0 {
        None
    } else if pairs.last().0 == name {
        Some(pairs.last().1)
    } else {
        parameter(pairs.drop_last(), name)
    }
}

fn find_parameter(pairs: &Vec<(String, String)>, name: &str) -> (r: Option<String>)
    ensures
        opt_text(r) == parameter(text_pairs(pairs@), name@),
{
    let ghost all = text_pairs(pairs@);
    let mut i: usize = pairs.len();
    assert(all.take(i as int) =~= all);
    while i > 0
        invariant
            i <= pairs@.len(),
            all == text_pairs(pairs@),
            parameter(all, name@) == parameter(all.take(i as int), name@),
        decreases i,
    {
        assert(all.take(i as int).last() == all[i - 1]);
        if same(pairs[i - 1].0.as_str(), name) {
            return Some(pairs[i - 1].1.clone());
        }
        assert(all.take(i as int).drop_last() =~= all.take(i - 1));
        i -= 1;
    }
    None
}

/// What a callback comes to.
#[derive(Debug)]
pub enum CallbackOutcome {
    /// It was not the callback; wait for another.
    Wait,
    /// The login succeeded with this code.
    Code(String),
    /// The login failed.
    Failed(Error),
}

/// What a callback comes to.
pub ghost enum OutcomeView {
    Wait,
    Code(Seq<char>),
    Failed(Seq<char>),
}

/// Whether this is what a callback comes to.
pub open spec fn is_outcome(outcome: CallbackOutcome, v: OutcomeView) -> bool {
    match outcome {
        CallbackOutcome::Wait => v is Wait,
        CallbackOutcome::Code(code) => v == OutcomeView::Code(code@),
        CallbackOutcome::Failed(e) => v matches OutcomeView::Failed(message) && e.is_mcp(message),
    }
}

/// The status and message that a callback is answered with, and what it comes
/// to. Nothing is read from a callback whose state is not the one of the
/// login, nor from one that comes from another server.
pub open spec fn decided(
    path: Seq<char>,
    pairs: Seq<(Seq<char>, Seq<char>)>,
    state: Seq<char>,
    issuer: IssuerView,
) -> (Seq<char>, Seq<char>, OutcomeView) {
    if path != CALLBACK_PATH@ {
        ("404 Not Found"@, "Unexpected callback path."@, OutcomeView::Wait)
    } else if parameter(pairs, "state"@) != Some(state) {
        (
            "400 Bad Request"@,
            "Login rejected: the state did not match."@,
            OutcomeView::Failed(oauth_says("callback state mismatch"@)),
        )
    } else if !comes_from(pairs, issuer) {
        (
            "400 Bad Request"@,
            "Login rejected: the issuer did not match."@,
            OutcomeView::Failed(oauth_says("callback issuer mismatch"@)),
        )
    } else {
        match parameter(pairs, "error"@) {
            Some(error) => (
                "400 Bad Request"@,
                "The authorization server rejected the login."@,
                OutcomeView::Failed(
                    oauth_says("authorization server returned `"@ + error + "`"@),
                ),
            ),
            None => match parameter(pairs, "code"@) {
                Some(code) => (
                    "200 OK"@,
                    "MCP login complete. You can return to the application."@,
                    OutcomeView::Code(code),
                ),
                None => (
                    "400 Bad Request"@,
                    "The callback had no authorization code."@,
                    OutcomeView::Failed(oauth_says("callback missing authorization code"@)),
                ),
            },
        }
    }
}

/// A callback yields a code only when it carries the state of the login, and
/// no error.
pub proof fn code_needs_the_state(
    path: Seq<char>,
    pairs: Seq<(Seq<char>, Seq<char>)>,
    state: Seq<char>,
    issuer: IssuerView,
)
    ensures
        decided(path, pairs, state, issuer).2 is Code ==> {
            &&& path == CALLBACK_PATH@
            &&& parameter(pairs, "state"@) == Some(state)
            &&& parameter(pairs, "error"@) is None
        },
{
}

/// A callback that names another server than the one the login was sent to
/// never yields a code, and neither does one without a name from a server that
/// always gives it.
pub proof fn foreign_issuer_yields_no_code(
    path: Seq<char>,
    pairs: Seq<(Seq<char>, Seq<char>)>,
    state: Seq<char>,
    issuer: IssuerView,
)
    requires
        match parameter(pairs, "iss"@) {
            Some(named) => named != issuer.issuer,
            None => issuer.always_named,
        },
    ensures
        !(decided(path, pairs, state, issuer).2 is Code),
{
}

/// The answer to a callback, and what it comes to.
#[derive(Debug)]
pub struct CallbackReply {
    pub response: String,
    pub outcome: CallbackOutcome,
}

/// Decide on a callback by its path and parameters.
pub fn decide_callback(
    path: &str,
    pairs: &Vec<(String, String)>,
    state: &str,
    issuer: &ExpectedIssuer,
) -> (r: CallbackReply)
    ensures
        ({
            let (status, message, outcome) = decided(
                path@,
                text_pairs(pairs@),
                state@,
                issuer@,
            );
            r.response@ == reply_text(status, message) && is_outcome(r.outcome, outcome)
        }),
{
    if !same(path, CALLBACK_PATH) {
        return CallbackReply {
            response: reply("404 Not Found", "Unexpected callback path."),
            outcome: CallbackOutcome::Wait,
        };
    }
    let matches = match find_parameter(pairs, "state") {
        Some(found) => same(found.as_str(), state),
        None => false,
    };
    if !matches {
        return CallbackReply {
            response: reply("400 Bad Request", "Login rejected: the state did not match."),
            outcome: CallbackOutcome::Failed(oauth_error("callback state mismatch")),
        };
    }
    let from_issuer = match find_parameter(pairs, "iss") {
        Some(named) => same(named.as_str(), issuer.issuer.as_str()),
        None => !issuer.always_named,
    };
    if !from_issuer {
        return CallbackReply {
            response: reply("400 Bad Request", "Login rejected: the issuer did not match."),
            outcome: CallbackOutcome::Failed(oauth_error("callback issuer mismatch")),
        };
    }
    if let Some(error) = find_parameter(pairs, "error") {
        let what = cat3("authorization server returned `", error.as_str(), "`");
        return CallbackReply {
            response: reply("400 Bad Request", "The authorization server rejected the login."),
            outcome: CallbackOutcome::Failed(oauth_error(what.as_str())),
        };
    }
    match find_parameter(pairs, "code") {
        Some(code) => CallbackReply {
            response: reply("200 OK", "MCP login complete. You can return to the application."),
            outcome: CallbackOutcome::Code(code),
        },
        None => CallbackReply {
            response: reply("400 Bad Request", "The callback had no authorization code."),
            outcome: CallbackOutcome::Failed(oauth_error("callback missing authorization code")),
        },
    }
}

/// The first line of a request; empty when there is none.
pub open spec fn request_line(request: Seq<char>) -> Seq<char> {
    if lines_of(request).len() == 0 {
        Seq::empty()
    } else {
        lines_of(request)[0]
    }
}

/// Whether a callback's request is answered as it should be.
pub open spec fn is_answer(
    request: Seq<char>,
    state: Seq<char>,
    issuer: IssuerView,
    r: Result<CallbackReply, Error>,
) -> bool {
    match second_word(request_line(request)) {
        None => r matches Err(e) && e.is_mcp(oauth_says("invalid OAuth callback request"@)),
        Some(target) => match url_parse("http://127.0.0.1"@ + target) {
            Err(message) => r matches Err(e) && e.is_mcp(
                oauth_says("parse OAuth callback: "@ + message),
            ),
            Ok(url) => r matches Ok(made) && {
                let (status, message, outcome) = decided(url.path, url.query, state, issuer);
                made.response@ == reply_text(status, message) && is_outcome(
                    made.outcome,
                    outcome,
                )
            },
        },
    }
}

/// Decide on a callback by its request. A request that cannot be read ends the
/// login without an answer.
pub fn on_callback(request: &str, state: &str, issuer: &ExpectedIssuer) -> (r: Result<
    CallbackReply,
    Error,
>)
    ensures
        is_answer(request@, state@, issuer@, r),
{
    let rows = lines(request);
    let line = if rows.len() == 0 {
        String::new()
    } else {
        rows[0].clone()
    };
    assert(line@ == request_line(request@)) by {
        assert(rows@.len() == texts(rows@).len());
        if rows@.len() > 0 {
            assert(texts(rows@)[0] == rows@[0]@);
        }
    }
    let target = match take_second_word(line.as_str()) {
        Some(target) => target,
        None => {
            return Err(oauth_error("invalid OAuth callback request"));
        },
    };
    let address = cat2("http://127.0.0.1", target.as_str());
    match parse_url(address.as_str()) {
        Ok(url) => Ok(decide_callback(url.path.as_str(), &url.query, state, issuer)),
        Err(message) => {
            let what = cat2("parse OAuth callback: ", message.as_str());
            Err(oauth_error(what.as_str()))
        },
    }
}

/// Decide on a callback by the bytes that were read of its request.
pub fn on_callback_bytes(request: &Vec<u8>, state: &str, issuer: &ExpectedIssuer) -> (r: Result<
    CallbackReply,
    Error,
>)
    ensures
        is_answer(utf8_lossy(request@), state@, issuer@, r),
{
    let request = lossy_text(request);
    on_callback(request.as_str(), state, issuer)
}

} // verus!
