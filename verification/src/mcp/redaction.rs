//! The debug form of tokens, which shows everything but the secrets.

use vstd::prelude::*;

use crate::mcp::oauth::{McpOAuthTokenSet, TokensView, EARLIEST, LATEST, SECOND};
use crate::text::{cat3, opt_text, quote, quoted};

verus! {

/// What stands in place of a secret.
pub const REDACTED: &'static str = "[REDACTED]";

/// The instant that lies so many seconds after 1970 began, and so many
/// nanoseconds after that: how chrono's `Debug` writes it, if chrono can tell
/// it.
pub uninterp spec fn instant_shown(seconds: int, nanos: int) -> Option<Seq<char>>;

/// `chrono::DateTime::from_timestamp`, and `Debug` for what it makes: the result
/// is named, not stated. Every instant between the years -262143 and 262142
/// can be told.
#[verifier::external_body]
fn show_instant(seconds: i64, nanos: u32) -> (r: Option<String>)
    ensures
        opt_text(r) == instant_shown(seconds as int, nanos as int),
        -8_334_601_228_800 <= seconds <= 8_210_266_876_799 && nanos < 1_000_000_000 ==> r is Some,
{
    chrono::DateTime::from_timestamp(seconds, nanos).map(|instant| format!("{:?}", instant))
}

/// An instant in nanoseconds, shown.
pub open spec fn expiry_shown(at: int) -> Option<Seq<char>> {
    instant_shown(at / SECOND as int, at % SECOND as int)
}

/// A value that may be missing, shown.
pub open spec fn option_shown(value: Option<Seq<char>>) -> Seq<char> {
    match value {
        Some(shown) => "Some("@ + shown + ")"@,
        None => "None"@,
    }
}

/// A text that may be missing, in quotes.
pub open spec fn text_shown(value: Option<Seq<char>>) -> Seq<char> {
    option_shown(
        match value {
            Some(text) => Some(quoted(text)),
            None => None,
        },
    )
}

/// A secret that may be missing: only whether it is there is shown.
pub open spec fn secret_shown(value: Option<Seq<char>>) -> Seq<char> {
    text_shown(
        match value {
            Some(_) => Some(REDACTED@),
            None => None,
        },
    )
}

/// One field of the form.
pub open spec fn field_shown(name: Seq<char>, value: Seq<char>) -> Seq<char> {
    name + ": "@ + value
}

/// The debug form of tokens.
pub open spec fn tokens_shown(tokens: TokensView) -> Seq<char> {
    "McpOAuthTokenSet { "@ + field_shown("access_token"@, quoted(REDACTED@)) + ", "@ + field_shown(
        "refresh_token"@,
        secret_shown(tokens.refresh_token),
    ) + ", "@ + field_shown("token_type"@, quoted(tokens.token_type)) + ", "@ + field_shown(
        "expires_at"@,
        option_shown(
            match tokens.expires_at {
                Some(at) => expiry_shown(at),
                None => None,
            },
        ),
    ) + ", "@ + field_shown("scope"@, text_shown(tokens.scope)) + ", "@ + field_shown(
        "token_endpoint"@,
        quoted(tokens.token_endpoint),
    ) + ", "@ + field_shown("client_id"@, quoted(tokens.client_id)) + ", "@ + field_shown(
        "client_secret"@,
        secret_shown(tokens.client_secret),
    ) + " }"@
}

fn show_option(value: Option<String>) -> (r: String)
    ensures
        r@ == option_shown(opt_text(value)),
{
    match value {
        Some(shown) => cat3("Some(", shown.as_str(), ")"),
        None => "None".to_owned(),
    }
}

fn show_text(value: &Option<String>) -> (r: String)
    ensures
        r@ == text_shown(opt_text(*value)),
{
    match value {
        Some(text) => show_option(Some(quote(text.as_str()))),
        None => show_option(None),
    }
}

fn show_secret(value: &Option<String>) -> (r: String)
    ensures
        r@ == secret_shown(opt_text(*value)),
{
    match value {
        Some(_) => show_option(Some(quote(REDACTED))),
        None => show_option(None),
    }
}

fn show_expiry(at: i128) -> (r: Option<String>)
    requires
        EARLIEST <= at <= LATEST,
    ensures
        r is Some,
        opt_text(r) == expiry_shown(at as int),
{
    let seconds: i128 = if at >= 0 {
        at / SECOND
    } else {
        -((SECOND - 1 - at) / SECOND)
    };
    let nanos: i128 = at - seconds * SECOND;
    assert(seconds == at as int / SECOND as int && nanos == at as int % SECOND as int);
    show_instant(seconds as i64, nanos as u32)
}

fn put_field(form: &mut String, name: &str, value: &str)
    ensures
        final(form)@ == old(form)@ + field_shown(name@, value@),
{
    let field = cat3(name, ": ", value);
    form.append(field.as_str());
}

impl McpOAuthTokenSet {
    /// The debug form of the tokens. Of the access token, the refresh token and
    /// the client secret it shows nothing but whether they are there.
    pub fn debug_text(&self) -> (r: String)
        requires
            self.expires_at matches Some(at) ==> EARLIEST <= at <= LATEST,
        ensures
            r@ == tokens_shown(self@),
    {
        let expiry = match self.expires_at {
            Some(at) => show_expiry(at),
            None => None,
        };
        let mut form = "McpOAuthTokenSet { ".to_owned();
        put_field(&mut form, "access_token", quote(REDACTED).as_str());
        form.append(", ");
        put_field(&mut form, "refresh_token", show_secret(&self.refresh_token).as_str());
        form.append(", ");
        put_field(&mut form, "token_type", quote(self.token_type.as_str()).as_str());
        form.append(", ");
        put_field(&mut form, "expires_at", show_option(expiry).as_str());
        form.append(", ");
        put_field(&mut form, "scope", show_text(&self.scope).as_str());
        form.append(", ");
        put_field(&mut form, "token_endpoint", quote(self.token_endpoint.as_str()).as_str());
        form.append(", ");
        put_field(&mut form, "client_id", quote(self.client_id.as_str()).as_str());
        form.append(", ");
        put_field(&mut form, "client_secret", show_secret(&self.client_secret).as_str());
        form.append(" }");
        form
    }
}

/// Secrets do not leak through the debug form: tokens that differ in nothing
/// but the text of their secrets show alike.
pub proof fn secrets_do_not_show(a: TokensView, b: TokensView)
    requires
        a.refresh_token is Some <==> b.refresh_token is Some,
        a.client_secret is Some <==> b.client_secret is Some,
        a.token_type == b.token_type,
        a.expires_at == b.expires_at,
        a.scope == b.scope,
        a.token_endpoint == b.token_endpoint,
        a.client_id == b.client_id,
    ensures
        tokens_shown(a) == tokens_shown(b),
{
}

} // verus!
