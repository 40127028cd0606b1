//! What holds of every login: where it goes, what it carries, which callback it
//! takes, and how long its tokens are used.

use vstd::prelude::*;

use crate::json::{lemma_lookup_at, JsonView};
use crate::mcp::oauth::{added_len, asked_scope, authorize_pairs, base64_url, comes_from, decided,
    endpoints_failure, escaped, escaped_char, expired, expiry, first_of, has_room, insecure_text,
    is_answer, is_extended, is_loopback, is_outcome, is_secure, issuer, oauth_says, origin, page,
    parameter, redirect_view, refresh_due, registration_view, renewed, reply_text, request_line,
    safe_char, second_word, secret_pairs, secured, tokens_view, url_parse, url_with_params,
    well_known_view, word_len, CallbackOutcome, CallbackReply, IssuerView, OAuthEndpoints,
    OutcomeView, TokenResponse, TokensView, UrlView};
use crate::mcp::redaction::{expiry_shown, field_shown, option_shown, secret_shown, text_shown,
    tokens_shown};
use crate::message::Error;
use crate::text::{byte_len, decimal, has_text, is_space, joined, lines_of, occurs_at, quoted,
    trimmed_start};

verus! {

// ------------------------------------------------------------------ addresses

/// An encrypted address may be used; an open one only on this machine, and one
/// of any other kind never.
pub proof fn open_addresses_stay_on_this_machine(url: UrlView)
    ensures
        url.scheme == "https"@ ==> is_secure(url),
        url.scheme == "http"@ ==> (is_secure(url) <==> url.host == Some("localhost"@) || url.host
            == Some("127.0.0.1"@) || url.host == Some("[::1]"@)),
        url.scheme != "https"@ && url.scheme != "http"@ ==> !is_secure(url),
        is_secure(url) && url.scheme != "https"@ ==> is_loopback(url),
{
    reveal_strlit("http");
    reveal_strlit("https");
    assert("http"@.len() != "https"@.len());
}

/// An address is used as it was read, and only where it was read and is
/// secure; a refusal names what it was for.
pub proof fn an_address_is_used_where_it_is_secure(url: Seq<char>, label: Seq<char>)
    ensures
        match url_parse(url) {
            Ok(parts) => {
                &&& is_secure(parts) ==> secured(url, label) == Ok::<UrlView, Seq<char>>(parts)
                &&& !is_secure(parts) ==> (secured(url, label) matches Err(message) && has_text(
                    message,
                    label,
                ) && has_text(message, url))
            },
            Err(reason) => secured(url, label) matches Err(message) && has_text(message, label)
                && has_text(message, url) && has_text(message, reason),
        },
{
    match url_parse(url) {
        Ok(parts) => {
            if !is_secure(parts) {
                let a = "OAuth: "@;
                let b = " must use https (got "@;
                let c = " for a non-loopback host): "@;
                let message = insecure_text(label, parts.scheme, url);
                assert(message == a + (label + b + parts.scheme + c + url));
                lemma_stands_at(message, label, a.len() as int);
                lemma_stands_at(
                    message,
                    url,
                    (a.len() + label.len() + b.len() + parts.scheme.len() + c.len()) as int,
                );
            }
        },
        Err(reason) => {
            let a = "OAuth: "@;
            let b = "parse "@;
            let c = " URL `"@;
            let d = "`: "@;
            let message = oauth_says(b + label + c + url + (d + reason));
            let i = (a.len() + b.len()) as int;
            lemma_stands_at(message, label, i);
            let j = i + label.len() + c.len();
            lemma_stands_at(message, url, j);
            lemma_stands_at(message, reason, j + url.len() + d.len());
        },
    }
}

proof fn lemma_stands_at(text: Seq<char>, part: Seq<char>, at: int)
    requires
        0 <= at,
        at + part.len() <= text.len(),
        forall|k: int| 0 <= k < part.len() ==> text[at + k] == #[trigger] part[k],
    ensures
        has_text(text, part),
{
    assert(text.subrange(at, at + part.len()) =~= part);
    assert(occurs_at(text, part, at));
}

/// The origin of an address names its scheme, its host and the port that it
/// names, and nothing of its path or its query.
pub proof fn an_origin_names_scheme_host_and_port(a: UrlView, b: UrlView, host: Seq<char>)
    ensures
        a.host == Some(host) && a.port is None ==> origin(a) == a.scheme + "://"@ + host,
        a.host == Some(host) ==> (a.port matches Some(port) ==> origin(a) == a.scheme + "://"@
            + host + ":"@ + decimal(port as nat)),
        a.scheme == b.scheme && a.host == b.host && a.port == b.port ==> origin(a) == origin(b),
{
}

/// What an origin says of itself stands under its well-known path.
pub proof fn well_known_pages_stand_under_the_origin(origin: Seq<char>, suffix: Seq<char>)
    ensures
        well_known_view(origin, suffix).take(origin.len() as int) == origin,
        well_known_view(origin, suffix).skip(
            well_known_view(origin, suffix).len() - suffix.len(),
        ) == suffix,
        has_text(well_known_view(origin, suffix), "/.well-known/"@),
{
    let url = well_known_view(origin, suffix);
    let mid = "/.well-known/"@;
    assert(url.take(origin.len() as int) =~= origin);
    assert(url.skip(url.len() - suffix.len()) =~= suffix);
    lemma_stands_at(url, mid, origin.len() as int);
}

/// The first server that is named authorizes, and a server that names none
/// authorizes for itself.
pub proof fn the_first_named_server_authorizes(
    own: Seq<char>,
    named: Seq<char>,
    others: Seq<Seq<char>>,
)
    ensures
        issuer(own, Some(seq![named] + others)) == named,
        issuer(own, Some(Seq::empty())) == own,
        issuer(own, None) == own,
{
    assert((seq![named] + others)[0] == named);
}

/// Endpoints are used only where each of them is secure.
pub proof fn every_endpoint_is_secure(endpoints: OAuthEndpoints)
    ensures
        endpoints_failure(endpoints) is None <==> {
            &&& secured(endpoints.authorization_endpoint@, "authorization endpoint"@) is Ok
            &&& secured(endpoints.token_endpoint@, "token endpoint"@) is Ok
            &&& endpoints.registration_endpoint matches Some(endpoint) ==> secured(
                endpoint@,
                "registration endpoint"@,
            ) is Ok
        },
        endpoints_failure(endpoints) matches Some(message) ==> {
            ||| secured(endpoints.authorization_endpoint@, "authorization endpoint"@) == Err::<
                UrlView,
                Seq<char>,
            >(message)
            ||| secured(endpoints.token_endpoint@, "token endpoint"@) == Err::<
                UrlView,
                Seq<char>,
            >(message)
            ||| endpoints.registration_endpoint is Some && secured(
                endpoints.registration_endpoint->0@,
                "registration endpoint"@,
            ) == Err::<UrlView, Seq<char>>(message)
        },
{
}

/// A registration names the client and where it is sent back to, and asks for
/// a code and for renewal, without a secret.
#[verifier::rlimit(40)]
pub proof fn a_registration_says_where_to_return(redirect_uri: Seq<char>)
    ensures
        ({
            let said = registration_view(redirect_uri);
            &&& said.at("client_name"@) == JsonView::Str("agentyk"@)
            &&& said.at("redirect_uris"@) == JsonView::Array(seq![JsonView::Str(redirect_uri)])
            &&& said.at("grant_types"@) == JsonView::Array(
                seq![JsonView::Str("authorization_code"@), JsonView::Str("refresh_token"@)],
            )
            &&& said.at("response_types"@) == JsonView::Array(seq![JsonView::Str("code"@)])
            &&& said.at("token_endpoint_auth_method"@) == JsonView::Str("none"@)
        }),
{
    reveal_strlit("client_name");
    reveal_strlit("redirect_uris");
    reveal_strlit("grant_types");
    reveal_strlit("response_types");
    reveal_strlit("token_endpoint_auth_method");
    let members = registration_view(redirect_uri)->Object_0;
    assert("client_name"@[0] != "grant_types"@[0]);
    assert("client_name"@.len() != "redirect_uris"@.len());
    assert("client_name"@.len() != "response_types"@.len());
    assert("grant_types"@.len() != "redirect_uris"@.len());
    assert("grant_types"@.len() != "response_types"@.len());
    assert("redirect_uris"@.len() != "response_types"@.len());
    assert("token_endpoint_auth_method"@.len() == 26);
    lemma_lookup_at(members, "client_name"@, 0);
    lemma_lookup_at(members, "redirect_uris"@, 1);
    lemma_lookup_at(members, "grant_types"@, 2);
    lemma_lookup_at(members, "response_types"@, 3);
    lemma_lookup_at(members, "token_endpoint_auth_method"@, 4);
}

// ---------------------------------------------------------------------- login

/// A login returns to this machine, at the port that listens for it.
pub proof fn a_login_returns_to_this_machine(port: u16)
    ensures
        redirect_view(port) == "http://127.0.0.1:"@ + decimal(port as nat) + "/callback"@,
{
}

/// The scope that was given is asked for; without one all that are offered
/// are, a space between each two; and where none are offered, none is.
pub proof fn the_given_scope_is_asked_for(given: Seq<char>, offered: Seq<Seq<char>>)
    ensures
        asked_scope(Some(given), Some(offered)) == Some(given),
        asked_scope(Some(given), None) == Some(given),
        asked_scope(None, Some(offered)) == Some(joined(offered, " "@)),
        asked_scope(None, None) is None,
{
}

/// A login carries the client, where to return to, the challenge of its proof
/// key and its state, and the scope where there is one.
pub proof fn a_login_carries_what_proves_it(
    client_id: Seq<char>,
    redirect_uri: Seq<char>,
    challenge: Seq<char>,
    state: Seq<char>,
    scope: Option<Seq<char>>,
)
    ensures
        ({
            let pairs = authorize_pairs(client_id, redirect_uri, challenge, state, scope);
            &&& pairs.contains(("response_type"@, "code"@))
            &&& pairs.contains(("client_id"@, client_id))
            &&& pairs.contains(("redirect_uri"@, redirect_uri))
            &&& pairs.contains(("code_challenge"@, challenge))
            &&& pairs.contains(("code_challenge_method"@, "S256"@))
            &&& pairs.contains(("state"@, state))
            &&& scope matches Some(asked) ==> pairs.contains(("scope"@, asked))
            &&& pairs.len() == if scope is Some {
                7int
            } else {
                6int
            }
        }),
{
    let pairs = authorize_pairs(client_id, redirect_uri, challenge, state, scope);
    assert(pairs[0] == ("response_type"@, "code"@));
    assert(pairs[1] == ("client_id"@, client_id));
    assert(pairs[2] == ("redirect_uri"@, redirect_uri));
    assert(pairs[3] == ("code_challenge"@, challenge));
    assert(pairs[4] == ("code_challenge_method"@, "S256"@));
    assert(pairs[5] == ("state"@, state));
    if let Some(asked) = scope {
        assert(pairs[6] == ("scope"@, asked));
    }
}

/// A secret is sent where the client has one, and nothing in its place.
pub proof fn a_secret_is_sent_where_there_is_one(secret: Seq<char>)
    ensures
        secret_pairs(Some(secret)).len() == 1,
        secret_pairs(Some(secret))[0] == ("client_secret"@, secret),
        secret_pairs(None).len() == 0,
{
}

/// The room that pairs take is that of each of them, and an address has room
/// for fewer pairs where it has room for more.
pub proof fn pairs_take_room_one_by_one(
    url: UrlView,
    a: Seq<(Seq<char>, Seq<char>)>,
    b: Seq<(Seq<char>, Seq<char>)>,
    pair: (Seq<char>, Seq<char>),
)
    ensures
        added_len(a + b) == added_len(a) + added_len(b),
        added_len(seq![pair]) == 3 * byte_len(pair.0) + 3 * byte_len(pair.1) + 2,
        has_room(url, a + b) ==> has_room(url, a),
        has_room(url, a) <==> url.length + added_len(a) <= 4_294_967_295,
    decreases b.len(),
{
    assert(seq![pair].drop_last() =~= Seq::empty());
    assert(added_len(seq![pair].drop_last()) == 0);
    assert(seq![pair].last() == pair);
    if b.len() == 0 {
        assert(a + b =~= a);
    } else {
        pairs_take_room_one_by_one(url, a, b.drop_last(), pair);
        assert((a + b).drop_last() =~= a + b.drop_last());
        assert((a + b).last() == b.last());
    }
}

/// Three bytes are four characters of six bits each, from the highest to the
/// lowest, and no two values of six bits have the same character: bytes can be
/// told from their text.
#[verifier::rlimit(40)]
pub proof fn three_bytes_are_four_characters(bytes: Seq<u8>, j: int, m: int, n: int)
    requires
        0 <= j,
        3 * j + 2 < bytes.len(),
        0 <= m < n < 64,
    ensures
        base64_url(bytes)[4 * j] == safe_char(bytes[3 * j] as int / 4),
        base64_url(bytes)[4 * j + 1] == safe_char(
            bytes[3 * j] as int % 4 * 16 + bytes[3 * j + 1] as int / 16,
        ),
        base64_url(bytes)[4 * j + 2] == safe_char(
            bytes[3 * j + 1] as int % 16 * 4 + bytes[3 * j + 2] as int / 64,
        ),
        base64_url(bytes)[4 * j + 3] == safe_char(bytes[3 * j + 2] as int % 64),
        safe_char(m) != safe_char(n),
{
    let a = bytes[3 * j] as int;
    let b = bytes[3 * j + 1] as int;
    let c = bytes[3 * j + 2] as int;
    assert(6 * (4 * j) / 8 == 3 * j && 6 * (4 * j) % 8 == 0);
    assert(6 * (4 * j + 1) / 8 == 3 * j && 6 * (4 * j + 1) % 8 == 6);
    assert(6 * (4 * j + 2) / 8 == 3 * j + 1 && 6 * (4 * j + 2) % 8 == 4);
    assert(6 * (4 * j + 3) / 8 == 3 * j + 2 && 6 * (4 * j + 3) % 8 == 2);
    assert((a * 256 + b) / 1024 % 64 == a / 4);
    assert((a * 256 + b) / 16 % 64 == a % 4 * 16 + b / 16);
    assert((b * 256 + c) / 64 % 64 == b % 16 * 4 + c / 64);
    let d = if 3 * j + 3 < bytes.len() {
        bytes[3 * j + 3] as int
    } else {
        0
    };
    assert((c * 256 + d) / 256 % 64 == c % 64);
    assert(4 * j + 3 < (4 * bytes.len() + 2) / 3);
}

// --------------------------------------------------------------------- tokens

/// A token expires so many seconds after it was given out, and one that says
/// nothing of it, or nothing that can be, does not.
pub proof fn a_token_expires_when_it_says(seconds: i64, now: int)
    ensures
        seconds > 0 ==> expiry(Some(seconds), now) == Some(now + seconds * 1_000_000_000),
        seconds <= 0 ==> expiry(Some(seconds), now) is None,
        expiry(None, now) is None,
{
}

/// Tokens have expired from their last instant on; they are renewed a minute
/// before, if they can be.
pub proof fn tokens_are_renewed_a_minute_before(tokens: TokensView, now: int)
    ensures
        match tokens.expires_at {
            Some(at) => {
                &&& expired(tokens, now) <==> now >= at
                &&& refresh_due(tokens, now) <==> tokens.refresh_token is Some && now
                    + 60_000_000_000 >= at
            },
            None => !expired(tokens, now) && !refresh_due(tokens, now),
        },
        expired(tokens, now) && tokens.refresh_token is Some ==> refresh_due(tokens, now),
{
}

/// The tokens that an answer makes are those of the answer: what it leaves out
/// is taken from before, and a token without a type is a bearer token.
pub proof fn tokens_are_those_of_the_answer(
    response: TokenResponse,
    endpoint: Seq<char>,
    client_id: Seq<char>,
    secret: Option<Seq<char>>,
    refresh: Option<Seq<char>>,
    scope: Option<Seq<char>>,
    now: int,
)
    ensures
        ({
            let tokens = tokens_view(response, endpoint, client_id, secret, refresh, scope, now);
            &&& tokens.access_token == response.access_token@
            &&& response.refresh_token matches Some(token) ==> tokens.refresh_token == Some(token@)
            &&& response.refresh_token is None ==> tokens.refresh_token == refresh
            &&& response.token_type matches Some(kind) ==> tokens.token_type == kind@
            &&& response.token_type is None ==> tokens.token_type == "Bearer"@
            &&& response.scope matches Some(granted) ==> tokens.scope == Some(granted@)
            &&& response.scope is None ==> tokens.scope == scope
            &&& response.expires_in matches Some(seconds) ==> seconds > 0 ==> tokens.expires_at
                == Some(now + seconds * 1_000_000_000)
            &&& response.expires_in is None ==> tokens.expires_at is None
            &&& tokens.token_endpoint == endpoint
            &&& tokens.client_id == client_id
            &&& tokens.client_secret == secret
        }),
{
}

/// Renewed tokens are those of the answer too.
pub proof fn renewed_tokens_are_those_of_the_answer(
    tokens: TokensView,
    response: TokenResponse,
    now: int,
)
    ensures
        renewed(tokens, response, now).access_token == response.access_token@,
        response.refresh_token matches Some(token) ==> renewed(
            tokens,
            response,
            now,
        ).refresh_token == Some(token@),
        response.scope matches Some(granted) ==> renewed(tokens, response, now).scope == Some(
            granted@,
        ),
        response.expires_in matches Some(seconds) ==> seconds > 0 ==> renewed(
            tokens,
            response,
            now,
        ).expires_at == Some(now + seconds * 1_000_000_000),
        forall|a: Option<Seq<char>>, b: Option<Seq<char>>|
            (#[trigger] first_of(a, b)) == if a is Some {
                a
            } else {
                b
            },
{
}

// ------------------------------------------------------------------- callback

/// The value of a parameter is that of the last pair of its name, and there is
/// none only where no pair has it.
pub proof fn the_last_value_counts(pairs: Seq<(Seq<char>, Seq<char>)>, name: Seq<char>)
    ensures
        match parameter(pairs, name) {
            Some(value) => exists|i: int|
                0 <= i < pairs.len() && #[trigger] pairs[i] == (name, value) && forall|j: int|
                    i < j < pairs.len() ==> (#[trigger] pairs[j]).0 != name,
            None => forall|i: int| 0 <= i < pairs.len() ==> (#[trigger] pairs[i]).0 != name,
        },
    decreases pairs.len(),
{
    if pairs.len() > 0 {
        let front = pairs.drop_last();
        let last = pairs.len() - 1;
        if pairs.last().0 == name {
            assert(pairs[last] == (name, parameter(pairs, name)->0));
        } else {
            the_last_value_counts(front, name);
            match parameter(front, name) {
                Some(value) => {
                    let i = choose|i: int|
                        0 <= i < front.len() && #[trigger] front[i] == (name, value) && forall|
                            j: int,
                        |
                            i < j < front.len() ==> (#[trigger] front[j]).0 != name;
                    assert(pairs[i] == (name, value));
                    assert forall|j: int| i < j < pairs.len() implies (#[trigger] pairs[j]).0
                        != name by {
                        if j < last {
                            assert(front[j] == pairs[j]);
                        }
                    }
                },
                None => {
                    assert forall|i: int| 0 <= i < pairs.len() implies (#[trigger] pairs[i]).0
                        != name by {
                        if i < last {
                            assert(front[i] == pairs[i]);
                        }
                    }
                },
            }
        }
    }
}

/// A callback comes from the server that it names; without a name it may come
/// from a server that does not always give its own.
pub proof fn a_callback_names_its_server(pairs: Seq<(Seq<char>, Seq<char>)>, from: IssuerView)
    ensures
        parameter(pairs, "iss"@) == Some(from.issuer) ==> comes_from(pairs, from),
        forall|other: Seq<char>|
            parameter(pairs, "iss"@) == Some(other) && other != from.issuer ==> !comes_from(
                pairs,
                from,
            ),
        parameter(pairs, "iss"@) is None ==> (comes_from(pairs, from) <==> !from.always_named),
{
}

/// A callback with the state of the login, from its server and with a code,
/// completes the login with that code; another path is waited over; and every
/// other callback fails the login.
pub proof fn a_good_callback_completes_the_login(
    path: Seq<char>,
    pairs: Seq<(Seq<char>, Seq<char>)>,
    state: Seq<char>,
    from: IssuerView,
)
    ensures
        ({
            let (status, message, outcome) = decided(path, pairs, state, from);
            let trusted = path == "/callback"@ && parameter(pairs, "state"@) == Some(state)
                && comes_from(pairs, from);
            &&& path != "/callback"@ ==> outcome is Wait && status == "404 Not Found"@
            &&& path == "/callback"@ ==> !(outcome is Wait)
            &&& trusted && parameter(pairs, "error"@) is None ==> match parameter(
                pairs,
                "code"@,
            ) {
                Some(code) => outcome == OutcomeView::Code(code) && status == "200 OK"@,
                None => outcome is Failed && status == "400 Bad Request"@,
            }
            &&& trusted ==> (parameter(pairs, "error"@) matches Some(error) ==> (
            outcome matches OutcomeView::Failed(reason) && has_text(reason, error) && status
                == "400 Bad Request"@))
            &&& path == "/callback"@ && !trusted ==> outcome is Failed && status
                == "400 Bad Request"@
        }),
{
    if let Some(error) = parameter(pairs, "error"@) {
        let lead = "authorization server returned `"@;
        let reason = oauth_says(lead + error + "`"@);
        lemma_stands_at(reason, error, ("OAuth: "@.len() + lead.len()) as int);
    }
}

/// Whoever logs in is told what became of it, and a login that fails says
/// which of the checks it failed.
pub proof fn a_callback_is_told_what_became_of_it(
    path: Seq<char>,
    pairs: Seq<(Seq<char>, Seq<char>)>,
    state: Seq<char>,
    from: IssuerView,
)
    ensures
        ({
            let (status, message, outcome) = decided(path, pairs, state, from);
            let here = path == "/callback"@;
            let ours = here && parameter(pairs, "state"@) == Some(state);
            &&& !here ==> message == "Unexpected callback path."@
            &&& here && !ours ==> message == "Login rejected: the state did not match."@ && outcome
                == OutcomeView::Failed("OAuth: "@ + "callback state mismatch"@)
            &&& ours && !comes_from(pairs, from) ==> message
                == "Login rejected: the issuer did not match."@ && outcome == OutcomeView::Failed(
                "OAuth: "@ + "callback issuer mismatch"@,
            )
            &&& ours && comes_from(pairs, from) ==> match (
                parameter(pairs, "error"@),
                parameter(pairs, "code"@),
            ) {
                (Some(_), _) => message == "The authorization server rejected the login."@,
                (None, Some(_)) => message
                    == "MCP login complete. You can return to the application."@,
                (None, None) => message == "The callback had no authorization code."@ && outcome
                    == OutcomeView::Failed("OAuth: "@ + "callback missing authorization code"@),
            }
        }),
{
}

/// What a callback comes to is one of three: nothing yet, the code that it
/// carries, or a failure in its own words.
pub proof fn a_callback_comes_to_one_thing(outcome: CallbackOutcome, v: OutcomeView)
    ensures
        outcome is Wait ==> (is_outcome(outcome, v) <==> v is Wait),
        outcome matches CallbackOutcome::Code(code) ==> (is_outcome(outcome, v) <==> v
            == OutcomeView::Code(code@)),
        outcome matches CallbackOutcome::Failed(e) ==> (is_outcome(outcome, v) <==> v is Failed
            && e is Mcp && e->Mcp_0@ == v->Failed_0),
{
}

/// A callback is answered by what its path and its parameters decide; a request
/// without a target, or with one that cannot be read, is a failure.
pub proof fn a_callback_is_answered_by_its_target(
    request: Seq<char>,
    state: Seq<char>,
    from: IssuerView,
    r: Result<CallbackReply, Error>,
)
    requires
        is_answer(request, state, from, r),
    ensures
        second_word(request_line(request)) is None ==> r is Err,
        second_word(request_line(request)) matches Some(target) ==> match url_parse(
            "http://127.0.0.1"@ + target,
        ) {
            Ok(url) => r matches Ok(reply) && reply.response@ == reply_text(
                decided(url.path, url.query, state, from).0,
                decided(url.path, url.query, state, from).1,
            ) && is_outcome(reply.outcome, decided(url.path, url.query, state, from).2),
            Err(_) => r is Err,
        },
{
}

/// An endpoint is extended by the pairs where it can be read and has room for
/// them, and is refused otherwise.
pub proof fn an_endpoint_is_extended_where_there_is_room(
    endpoint: Seq<char>,
    pairs: Seq<(Seq<char>, Seq<char>)>,
    r: Result<Seq<char>, Error>,
)
    requires
        is_extended(endpoint, pairs, r),
    ensures
        match url_parse(endpoint) {
            Ok(url) => {
                &&& r is Ok <==> url.length + added_len(pairs) <= 4_294_967_295
                &&& r matches Ok(s) ==> url_with_params(endpoint, pairs) == Ok::<
                    Seq<char>,
                    Seq<char>,
                >(s)
            },
            Err(message) => r is Err && r->Err_0.is_mcp(
                "OAuth: "@ + ("parse authorization endpoint: "@ + message),
            ),
        },
{
}

/// A text is escaped character by character: four characters are written as
/// their names, and every other as itself.
pub proof fn text_is_escaped_by_character(a: Seq<char>, b: Seq<char>, c: char)
    ensures
        escaped(a + b) == escaped(a) + escaped(b),
        escaped(seq!['&']) == "&amp;"@,
        escaped(seq!['<']) == "&lt;"@,
        escaped(seq!['>']) == "&gt;"@,
        escaped(seq!['"']) == "&quot;"@,
        c != '&' && c != '<' && c != '>' && c != '"' ==> escaped(seq![c]) == seq![c],
    decreases b.len(),
{
    lemma_escaped_one('&');
    lemma_escaped_one('<');
    lemma_escaped_one('>');
    lemma_escaped_one('"');
    lemma_escaped_one(c);
    if b.len() == 0 {
        assert(a + b =~= a);
        assert(escaped(a) + escaped(b) =~= escaped(a));
    } else {
        text_is_escaped_by_character(a, b.drop_last(), c);
        assert((a + b).drop_last() =~= a + b.drop_last());
        assert((a + b).last() == b.last());
        assert(escaped(a + b) =~= escaped(a) + escaped(b));
    }
}

proof fn lemma_escaped_one(c: char)
    ensures
        escaped(seq![c]) == escaped_char(c),
{
    assert(seq![c].drop_last() =~= Seq::empty());
    assert(escaped(seq![c].drop_last()) =~= Seq::empty());
    assert(escaped(seq![c]) =~= escaped_char(c));
}

/// The answer to a callback starts with its status, gives the length of its
/// page in bytes, and ends in the page, which shows the message.
#[verifier::rlimit(40)]
pub proof fn an_answer_frames_its_page(status: Seq<char>, message: Seq<char>)
    ensures
        ({
            let answer = reply_text(status, message);
            let body = page(status, message);
            let lead = "HTTP/1.1 "@ + status;
            &&& answer.take(lead.len() as int) == lead
            &&& has_text(answer, "Content-Length: "@ + decimal(byte_len(body)) + "\r\n"@)
            &&& answer.skip(answer.len() - body.len()) == body
            &&& answer.subrange(answer.len() - body.len() - 4, answer.len() - body.len())
                == "\r\n\r\n"@
            &&& has_text(body, escaped(message))
            &&& "200"@.is_prefix_of(status) ==> has_text(body, "MCP login complete"@)
            &&& !"200"@.is_prefix_of(status) ==> has_text(body, "MCP login failed"@)
        }),
{
    let body = page(status, message);
    let answer = reply_text(status, message);
    let lead = "HTTP/1.1 "@ + status;
    let types = "\r\nContent-Type: text/html; charset=utf-8\r\nContent-Length: "@;
    let digits = decimal(byte_len(body));
    let end = "\r\nConnection: close\r\n\r\n"@;
    assert(answer == lead + types + digits + (end + body));
    assert(answer.take(lead.len() as int) =~= lead);
    assert(answer.skip(answer.len() - body.len()) =~= body);
    reveal_strlit("\r\nContent-Type: text/html; charset=utf-8\r\nContent-Length: ");
    reveal_strlit("Content-Length: ");
    reveal_strlit("\r\n");
    reveal_strlit("\r\n\r\n");
    reveal_strlit("\r\nConnection: close\r\n\r\n");
    let field = "Content-Length: "@;
    let told = field + digits + "\r\n"@;
    let i = (lead.len() + types.len() - field.len()) as int;
    assert(types.skip(types.len() - field.len()) =~= field);
    assert forall|k: int| 0 <= k < told.len() implies answer[i + k] == #[trigger] told[k] by {
        if k < field.len() {
            assert(types.skip(types.len() - field.len())[k] == types[types.len() - field.len()
                + k]);
        }
    }
    lemma_stands_at(answer, told, i);
    assert(end.skip(end.len() - 4) =~= "\r\n\r\n"@);
    assert(answer.subrange(answer.len() - body.len() - 4, answer.len() - body.len())
        =~= "\r\n\r\n"@) by {
        let at = answer.len() - body.len() - 4;
        assert forall|k: int| 0 <= k < 4 implies answer[at + k] == "\r\n\r\n"@[k] by {
            assert(end.skip(end.len() - 4)[k] == end[end.len() - 4 + k]);
        }
    }
    let open = "<!doctype html><meta charset=\"utf-8\"><title>MCP OAuth</title><h1>"@;
    let title = if "200"@.is_prefix_of(status) {
        "MCP login complete"@
    } else {
        "MCP login failed"@
    };
    lemma_stands_at(body, title, open.len() as int);
    lemma_stands_at(
        body,
        escaped(message),
        (open.len() + title.len() + "</h1><p>"@.len()) as int,
    );
}

proof fn lemma_word_len(word: Seq<char>, rest: Seq<char>)
    requires
        forall|k: int| 0 <= k < word.len() ==> !is_space(#[trigger] word[k]),
        rest.len() > 0 ==> is_space(rest[0]),
    ensures
        word_len(word + rest) == word.len(),
    decreases word.len(),
{
    if word.len() > 0 {
        assert((word + rest)[0] == word[0]);
        assert((word + rest).drop_first() =~= word.drop_first() + rest);
        lemma_word_len(word.drop_first(), rest);
    } else {
        assert(word + rest =~= rest);
    }
}

/// The second word of a text stands between white space: whatever follows it
/// does not matter.
pub proof fn the_second_word_is_found(first: Seq<char>, second: Seq<char>, rest: Seq<char>)
    requires
        first.len() > 0,
        second.len() > 0,
        forall|k: int| 0 <= k < first.len() ==> !is_space(#[trigger] first[k]),
        forall|k: int| 0 <= k < second.len() ==> !is_space(#[trigger] second[k]),
        rest.len() > 0 ==> is_space(rest[0]),
    ensures
        second_word(first + seq![' '] + (second + rest)) == Some(second),
        second_word(first) is None,
{
    let s = first + seq![' '] + (second + rest);
    assert(s[0] == first[0]);
    assert(!is_space(s[0]));
    assert(trimmed_start(s) == s);
    let tail = seq![' '] + (second + rest);
    assert(s =~= first + tail);
    assert(is_space(' '));
    lemma_word_len(first, tail);
    let n = first.len() as int;
    assert(s.skip(n) =~= tail);
    assert(tail.drop_first() =~= second + rest);
    assert((second + rest)[0] == second[0]);
    assert(trimmed_start(second + rest) == second + rest);
    assert(trimmed_start(tail) == second + rest);
    lemma_word_len(second, rest);
    assert((second + rest).take(second.len() as int) =~= second);
    assert(trimmed_start(first) == first);
    assert(first + Seq::<char>::empty() =~= first);
    lemma_word_len(first, Seq::empty());
    assert(first.skip(n) =~= Seq::empty());
    assert(trimmed_start(first.skip(n)) =~= Seq::empty());
}

/// The line of a request is its first line, and empty where there is none.
pub proof fn the_first_line_is_the_request(request: Seq<char>)
    ensures
        lines_of(request).len() > 0 ==> request_line(request) == lines_of(request)[0],
        lines_of(request).len() == 0 ==> request_line(request).len() == 0,
{
}

// ---------------------------------------------------------------- debug form

/// The debug form names each field; those that are no secrets are shown with
/// their values, and of a secret only whether it is there.
pub proof fn the_debug_form_shows_all_but_secrets(tokens: TokensView)
    ensures
        has_text(tokens_shown(tokens), "access_token: "@ + quoted("[REDACTED]"@)),
        has_text(tokens_shown(tokens), "token_type: "@ + quoted(tokens.token_type)),
        has_text(tokens_shown(tokens), "token_endpoint: "@ + quoted(tokens.token_endpoint)),
        has_text(tokens_shown(tokens), "client_id: "@ + quoted(tokens.client_id)),
        tokens.scope matches Some(scope) ==> has_text(
            tokens_shown(tokens),
            "scope: Some("@ + quoted(scope) + ")"@,
        ),
        tokens.scope is None ==> has_text(tokens_shown(tokens), "scope: None"@),
        tokens.refresh_token is None ==> has_text(tokens_shown(tokens), "refresh_token: None"@),
        tokens.refresh_token is Some ==> has_text(
            tokens_shown(tokens),
            "refresh_token: Some("@ + quoted("[REDACTED]"@) + ")"@,
        ),
        tokens.client_secret is None ==> has_text(tokens_shown(tokens), "client_secret: None"@),
        tokens.client_secret is Some ==> has_text(
            tokens_shown(tokens),
            "client_secret: Some("@ + quoted("[REDACTED]"@) + ")"@,
        ),
{
    let hidden = quoted("[REDACTED]"@);
    lemma_fields(hidden);
    lemma_fields(quoted(tokens.token_type));
    lemma_fields(quoted(tokens.token_endpoint));
    lemma_fields(quoted(tokens.client_id));
    if let Some(scope) = tokens.scope {
        lemma_fields(quoted(scope));
    }
    lemma_form(tokens);
}

#[verifier::rlimit(40)]
proof fn lemma_form(tokens: TokensView)
    ensures
        has_text(tokens_shown(tokens), field_shown("access_token"@, quoted("[REDACTED]"@))),
        has_text(
            tokens_shown(tokens),
            field_shown("refresh_token"@, secret_shown(tokens.refresh_token)),
        ),
        has_text(tokens_shown(tokens), field_shown("token_type"@, quoted(tokens.token_type))),
        has_text(tokens_shown(tokens), field_shown("scope"@, text_shown(tokens.scope))),
        has_text(
            tokens_shown(tokens),
            field_shown("token_endpoint"@, quoted(tokens.token_endpoint)),
        ),
        has_text(tokens_shown(tokens), field_shown("client_id"@, quoted(tokens.client_id))),
        has_text(
            tokens_shown(tokens),
            field_shown("client_secret"@, secret_shown(tokens.client_secret)),
        ),
{
    let at = match tokens.expires_at {
        Some(at) => expiry_shown(at),
        None => None,
    };
    let sep = ", "@;
    let f1 = field_shown("access_token"@, quoted("[REDACTED]"@));
    let f2 = field_shown("refresh_token"@, secret_shown(tokens.refresh_token));
    let f3 = field_shown("token_type"@, quoted(tokens.token_type));
    let f4 = field_shown("expires_at"@, option_shown(at));
    let f5 = field_shown("scope"@, text_shown(tokens.scope));
    let f6 = field_shown("token_endpoint"@, quoted(tokens.token_endpoint));
    let f7 = field_shown("client_id"@, quoted(tokens.client_id));
    let f8 = field_shown("client_secret"@, secret_shown(tokens.client_secret));
    let g1 = "McpOAuthTokenSet { "@ + f1;
    let g2 = g1 + sep + f2;
    let g3 = g2 + sep + f3;
    let g4 = g3 + sep + f4;
    let g5 = g4 + sep + f5;
    let g6 = g5 + sep + f6;
    let g7 = g6 + sep + f7;
    let g8 = g7 + sep + f8;
    assert(tokens_shown(tokens) == g8 + " }"@);
    lemma_text_stays("McpOAuthTokenSet { "@, f1);
    lemma_text_stays(g1, sep);
    lemma_text_stays(g1 + sep, f2);
    lemma_text_stays(g2, sep);
    lemma_text_stays(g2 + sep, f3);
    lemma_text_stays(g3, sep);
    lemma_text_stays(g3 + sep, f4);
    lemma_text_stays(g4, sep);
    lemma_text_stays(g4 + sep, f5);
    lemma_text_stays(g5, sep);
    lemma_text_stays(g5 + sep, f6);
    lemma_text_stays(g6, sep);
    lemma_text_stays(g6 + sep, f7);
    lemma_text_stays(g7, sep);
    lemma_text_stays(g7 + sep, f8);
    lemma_text_stays(g8, " }"@);
}

/// What a text holds it still holds with more behind it, and that too.
proof fn lemma_text_stays(a: Seq<char>, b: Seq<char>)
    ensures
        forall|p: Seq<char>| has_text(a, p) ==> #[trigger] has_text(a + b, p),
        has_text(a + b, b),
{
    assert forall|p: Seq<char>| has_text(a, p) implies #[trigger] has_text(a + b, p) by {
        let i = choose|i: int| occurs_at(a, p, i);
        assert((a + b).subrange(i, i + p.len()) =~= a.subrange(i, i + p.len()));
        assert(occurs_at(a + b, p, i));
    }
    lemma_stands_at(a + b, b, a.len() as int);
}

#[verifier::rlimit(40)]
proof fn lemma_fields(value: Seq<char>)
    ensures
        field_shown("access_token"@, value) == "access_token: "@ + value,
        field_shown("token_type"@, value) == "token_type: "@ + value,
        field_shown("token_endpoint"@, value) == "token_endpoint: "@ + value,
        field_shown("client_id"@, value) == "client_id: "@ + value,
        field_shown("refresh_token"@, option_shown(None)) == "refresh_token: None"@,
        field_shown("client_secret"@, option_shown(None)) == "client_secret: None"@,
        field_shown("scope"@, option_shown(None)) == "scope: None"@,
        field_shown("refresh_token"@, option_shown(Some(value))) == "refresh_token: Some("@ + value
            + ")"@,
        field_shown("client_secret"@, option_shown(Some(value))) == "client_secret: Some("@ + value
            + ")"@,
        field_shown("scope"@, option_shown(Some(value))) == "scope: Some("@ + value + ")"@,
{
    reveal_strlit(": ");
    reveal_strlit("Some(");
    reveal_strlit("None");
    reveal_strlit("access_token");
    reveal_strlit("access_token: ");
    reveal_strlit("refresh_token");
    reveal_strlit("refresh_token: None");
    reveal_strlit("refresh_token: Some(");
    reveal_strlit("token_type");
    reveal_strlit("token_type: ");
    reveal_strlit("scope");
    reveal_strlit("scope: None");
    reveal_strlit("scope: Some(");
    reveal_strlit("token_endpoint");
    reveal_strlit("token_endpoint: ");
    reveal_strlit("client_id");
    reveal_strlit("client_id: ");
    reveal_strlit("client_secret");
    reveal_strlit("client_secret: None");
    reveal_strlit("client_secret: Some(");
    assert("access_token: "@ =~= "access_token"@ + ": "@);
    assert("token_type: "@ =~= "token_type"@ + ": "@);
    assert("token_endpoint: "@ =~= "token_endpoint"@ + ": "@);
    assert("client_id: "@ =~= "client_id"@ + ": "@);
    assert("refresh_token: None"@ =~= "refresh_token"@ + ": "@ + "None"@);
    assert("client_secret: None"@ =~= "client_secret"@ + ": "@ + "None"@);
    assert("scope: None"@ =~= "scope"@ + ": "@ + "None"@);
    assert("refresh_token: Some("@ =~= "refresh_token"@ + ": "@ + "Some("@);
    assert("client_secret: Some("@ =~= "client_secret"@ + ": "@ + "Some("@);
    assert("scope: Some("@ =~= "scope"@ + ": "@ + "Some("@);
    let close = ")"@;
    assert("refresh_token"@ + ": "@ + ("Some("@ + value + close) =~= "refresh_token"@ + ": "@
        + "Some("@ + value + close);
    assert("client_secret"@ + ": "@ + ("Some("@ + value + close) =~= "client_secret"@ + ": "@
        + "Some("@ + value + close);
    assert("scope"@ + ": "@ + ("Some("@ + value + close) =~= "scope"@ + ": "@ + "Some("@ + value
        + close);
}

} // verus!
