//! Protocol eras: which one a server speaks, and what each request carries.
//!
//! Older servers want an `initialize` handshake and may bind later requests to
//! a session. The newest protocol is stateless: version and client metadata
//! travel with every request.

use vstd::prelude::*;

use crate::json::{empty_object, jempty, jstr, lemma_lookup_at, lookup, members_view, put,
    put_member, put_then_lookup, strings_in, strings_of, Json, JsonView};
use crate::text::{clone_opt, contains, has_text, lists, lower, opt_text, or_else, same, text_pairs,
    texts, to_lower};

verus! {

/// The oldest protocol version still offered in a handshake.
pub const MCP_PROTOCOL_VERSION_LEGACY: &'static str = "2025-03-26";

/// The newest protocol version that has a handshake.
pub const MCP_PROTOCOL_VERSION_STATEFUL: &'static str = "2025-11-25";

/// The version between the two.
pub const MCP_PROTOCOL_VERSION_MIDDLE: &'static str = "2025-06-18";

/// The newest protocol version, and the first without a handshake.
pub const MCP_PROTOCOL_VERSION_LATEST: &'static str = "2026-07-28";

/// The headers of a request disagree with its body.
pub const ERROR_HEADER_MISMATCH: i64 = -32020;

/// The server needs a capability that the client did not advertise.
pub const ERROR_MISSING_REQUIRED_CLIENT_CAPABILITY: i64 = -32021;

/// The server does not speak the version of the request, and says which ones
/// it does.
pub const ERROR_UNSUPPORTED_PROTOCOL_VERSION: i64 = -32022;

/// The request by which a stateless server describes itself.
pub const METHOD_DISCOVER: &'static str = "server/discover";

/// The header that names the method of a request.
pub const HEADER_METHOD: &'static str = "Mcp-Method";

/// The header that names the tool of a call.
pub const HEADER_NAME: &'static str = "Mcp-Name";

/// The header that names the protocol version.
pub const HEADER_PROTOCOL_VERSION: &'static str = "MCP-Protocol-Version";

/// The header that names the session.
pub const HEADER_SESSION_ID: &'static str = "Mcp-Session-Id";

/// Under which key the client describes itself.
pub const CLIENT_INFO_META_KEY: &'static str = "io.modelcontextprotocol/clientInfo";

/// Under which key a request names its protocol version.
pub const PROTOCOL_VERSION_META_KEY: &'static str = "io.modelcontextprotocol/protocolVersion";

/// Under which key a request names the client's capabilities.
pub const CLIENT_CAPABILITIES_META_KEY: &'static str = "io.modelcontextprotocol/clientCapabilities";

/// Under which key a server describes itself.
pub const SERVER_INFO_META_KEY: &'static str = "io.modelcontextprotocol/serverInfo";

/// What the client calls itself.
pub const CLIENT_NAME: &'static str = "agentyk";

/// The version that the client gives for itself.
pub const CLIENT_VERSION: &'static str = "0.1.0";

/// How the protocol era of a server is chosen.
#[derive(Debug, Clone, Copy, PartialEq, Eq, Structural)]
pub enum McpProtocolMode {
    /// Try the stateless protocol, and fall back to a handshake.
    Auto,
    /// The oldest handshake, for servers that do not negotiate.
    Legacy,
    /// The newest handshake.
    Stateful,
    /// The stateless protocol.
    Latest,
}

impl Default for McpProtocolMode {
    fn default() -> (r: Self)
        ensures
            r == McpProtocolMode::Auto,
    {
        McpProtocolMode::Auto
    }
}

/// What was agreed on with a server.
#[derive(Debug, PartialEq, Eq)]
pub struct Negotiated {
    pub version: String,
    pub stateful: bool,
    pub session_id: Option<String>,
}

/// The content of a [`Negotiated`].
pub ghost struct NegotiatedView {
    pub version: Seq<char>,
    pub stateful: bool,
    pub session_id: Option<Seq<char>>,
}

impl View for Negotiated {
    type V = NegotiatedView;

    open spec fn view(&self) -> NegotiatedView {
        NegotiatedView {
            version: self.version@,
            stateful: self.stateful,
            session_id: opt_text(self.session_id),
        }
    }
}

impl Clone for Negotiated {
    fn clone(&self) -> (r: Self)
        ensures
            r@ == self@,
    {
        Negotiated {
            version: self.version.clone(),
            stateful: self.stateful,
            session_id: clone_opt(&self.session_id),
        }
    }
}

/// A stateless agreement.
pub open spec fn stateless_view(version: Seq<char>) -> NegotiatedView {
    NegotiatedView { version, stateful: false, session_id: None }
}

/// An agreement on a handshake, without a session yet.
pub open spec fn stateful_view(version: Seq<char>) -> NegotiatedView {
    NegotiatedView { version, stateful: true, session_id: None }
}

impl Negotiated {
    /// A stateless agreement.
    pub fn stateless(version: &str) -> (r: Self)
        ensures
            r@ == stateless_view(version@),
    {
        Negotiated { version: version.to_owned(), stateful: false, session_id: None }
    }

    /// An agreement on a handshake, without a session yet.
    pub fn stateful(version: &str) -> (r: Self)
        ensures
            r@ == stateful_view(version@),
    {
        Negotiated { version: version.to_owned(), stateful: true, session_id: None }
    }
}

/// The version of a pinned handshake.
pub open spec fn pinned_handshake(mode: McpProtocolMode) -> Option<Seq<char>> {
    match mode {
        McpProtocolMode::Stateful => Some(MCP_PROTOCOL_VERSION_STATEFUL@),
        McpProtocolMode::Legacy => Some(MCP_PROTOCOL_VERSION_LEGACY@),
        _ => None,
    }
}

/// What a pinned mode agrees on without asking.
pub open spec fn pinned(mode: McpProtocolMode) -> Option<NegotiatedView> {
    match mode {
        McpProtocolMode::Auto => None,
        McpProtocolMode::Latest => Some(stateless_view(MCP_PROTOCOL_VERSION_LATEST@)),
        McpProtocolMode::Stateful => Some(stateful_view(MCP_PROTOCOL_VERSION_STATEFUL@)),
        McpProtocolMode::Legacy => Some(stateful_view(MCP_PROTOCOL_VERSION_LEGACY@)),
    }
}

impl McpProtocolMode {
    /// What the mode agrees on without asking the server.
    pub fn initial(self) -> (r: Option<Negotiated>)
        ensures
            match r {
                Some(n) => pinned(self) == Some(n@),
                None => pinned(self) is None,
            },
    {
        match self {
            McpProtocolMode::Auto => None,
            McpProtocolMode::Latest => Some(Negotiated::stateless(MCP_PROTOCOL_VERSION_LATEST)),
            McpProtocolMode::Stateful => Some(Negotiated::stateful(MCP_PROTOCOL_VERSION_STATEFUL)),
            McpProtocolMode::Legacy => Some(Negotiated::stateful(MCP_PROTOCOL_VERSION_LEGACY)),
        }
    }

    /// The version of the handshake that the mode pins.
    pub fn handshake_version(self) -> (r: Option<&'static str>)
        ensures
            match r {
                Some(v) => pinned_handshake(self) == Some(v@),
                None => pinned_handshake(self) is None,
            },
    {
        match self {
            McpProtocolMode::Stateful => Some(MCP_PROTOCOL_VERSION_STATEFUL),
            McpProtocolMode::Legacy => Some(MCP_PROTOCOL_VERSION_LEGACY),
            _ => None,
        }
    }
}

/// How the client describes itself.
pub open spec fn client_info() -> JsonView {
    JsonView::Object(seq![("name"@, jstr(CLIENT_NAME@)), ("version"@, jstr(CLIENT_VERSION@))])
}

/// The members that the metadata of a request has.
pub open spec fn meta_members(version: Seq<char>) -> Seq<(Seq<char>, JsonView)> {
    seq![
        (PROTOCOL_VERSION_META_KEY@, jstr(version)),
        (CLIENT_CAPABILITIES_META_KEY@, jempty()),
        (CLIENT_INFO_META_KEY@, client_info()),
    ]
}

/// Members with others added, of which those already there are left out.
pub open spec fn merged(
    existing: Seq<(Seq<char>, JsonView)>,
    added: Seq<(Seq<char>, JsonView)>,
) -> Seq<(Seq<char>, JsonView)>
    decreases added.len(),
{
    if added.len() == 0 {
        existing
    } else {
        let so_far = merged(existing, added.drop_last());
        if lookup(so_far, added.last().0) is Some {
            so_far
        } else {
            so_far.push(added.last())
        }
    }
}

/// Parameters with the metadata that every request carries. Metadata of the
/// caller's own is kept.
pub open spec fn with_meta(params: JsonView, version: Seq<char>) -> JsonView {
    match params {
        JsonView::Object(members) => JsonView::Object(
            put(
                members,
                "_meta"@,
                match lookup(members, "_meta"@) {
                    Some(JsonView::Object(existing)) => JsonView::Object(
                        merged(existing, meta_members(version)),
                    ),
                    _ => JsonView::Object(meta_members(version)),
                },
            ),
        ),
        _ => params,
    }
}

proof fn lemma_lookup_push(
    members: Seq<(Seq<char>, JsonView)>,
    member: (Seq<char>, JsonView),
    key: Seq<char>,
)
    ensures
        lookup(members.push(member), key) == match lookup(members, key) {
            Some(v) => Some(v),
            None => if member.0 == key {
                Some(member.1)
            } else {
                None
            },
        },
    decreases members.len(),
{
    let more = members.push(member);
    if members.len() == 0 {
        assert(more.drop_first() =~= members);
    } else {
        assert(more[0] == members[0]);
        assert(more.drop_first() =~= members.drop_first().push(member));
        lemma_lookup_push(members.drop_first(), member, key);
    }
}

/// What was there before a merge is still found under its key.
pub proof fn merge_keeps_existing(
    existing: Seq<(Seq<char>, JsonView)>,
    added: Seq<(Seq<char>, JsonView)>,
    key: Seq<char>,
)
    requires
        lookup(existing, key) is Some,
    ensures
        lookup(merged(existing, added), key) == lookup(existing, key),
    decreases added.len(),
{
    if added.len() > 0 {
        merge_keeps_existing(existing, added.drop_last(), key);
        lemma_lookup_push(merged(existing, added.drop_last()), added.last(), key);
    }
}

/// What a merge adds is found under its key afterwards, unless something was
/// there before.
pub proof fn merge_adds_missing(
    existing: Seq<(Seq<char>, JsonView)>,
    added: Seq<(Seq<char>, JsonView)>,
    i: int,
)
    requires
        0 <= i < added.len(),
        lookup(existing, added[i].0) is None,
        forall|j: int| 0 <= j < i ==> (#[trigger] added[j]).0 != added[i].0,
    ensures
        lookup(merged(existing, added), added[i].0) == Some(added[i].1),
    decreases added.len(),
{
    let key = added[i].0;
    let front = added.drop_last();
    lemma_lookup_push(merged(existing, front), added.last(), key);
    if i < added.len() - 1 {
        assert(front[i] == added[i]);
        merge_adds_missing(existing, front, i);
    } else {
        lemma_absent_stays_absent(existing, front, key);
    }
}

proof fn lemma_absent_stays_absent(
    existing: Seq<(Seq<char>, JsonView)>,
    added: Seq<(Seq<char>, JsonView)>,
    key: Seq<char>,
)
    requires
        lookup(existing, key) is None,
        forall|j: int| 0 <= j < added.len() ==> (#[trigger] added[j]).0 != key,
    ensures
        lookup(merged(existing, added), key) is None,
    decreases added.len(),
{
    if added.len() > 0 {
        let front = added.drop_last();
        assert forall|j: int| 0 <= j < front.len() implies (#[trigger] front[j]).0 != key by {
            assert(front[j] == added[j]);
        }
        lemma_absent_stays_absent(existing, front, key);
        assert(added[added.len() - 1].0 != key);
        lemma_lookup_push(merged(existing, front), added.last(), key);
    }
}

/// Metadata that a caller supplied survives; every other member of the
/// parameters is untouched.
pub proof fn caller_metadata_survives(
    members: Seq<(Seq<char>, JsonView)>,
    version: Seq<char>,
    key: Seq<char>,
)
    ensures
        JsonView::Object(members).at("_meta"@).get(key) is Some ==> with_meta(
            JsonView::Object(members),
            version,
        ).at("_meta"@).get(key) == JsonView::Object(members).at("_meta"@).get(key),
        key != "_meta"@ ==> with_meta(JsonView::Object(members), version).get(key)
            == JsonView::Object(members).get(key),
{
    let value = match lookup(members, "_meta"@) {
        Some(JsonView::Object(existing)) => JsonView::Object(
            merged(existing, meta_members(version)),
        ),
        _ => JsonView::Object(meta_members(version)),
    };
    put_then_lookup(members, "_meta"@, value, key);
    put_then_lookup(members, "_meta"@, value, "_meta"@);
    if JsonView::Object(members).at("_meta"@).get(key) is Some {
        match lookup(members, "_meta"@) {
            Some(JsonView::Object(existing)) => {
                merge_keeps_existing(existing, meta_members(version), key);
            },
            _ => {},
        }
    }
}

/// A request whose caller set no metadata carries the protocol version, the
/// capabilities and the identity of the client.
pub proof fn request_carries_metadata(members: Seq<(Seq<char>, JsonView)>, version: Seq<char>)
    requires
        !(lookup(members, "_meta"@) matches Some(JsonView::Object(_))),
    ensures
        ({
            let meta = with_meta(JsonView::Object(members), version).at("_meta"@);
            &&& meta.get(PROTOCOL_VERSION_META_KEY@) == Some(jstr(version))
            &&& meta.get(CLIENT_CAPABILITIES_META_KEY@) == Some(jempty())
            &&& meta.get(CLIENT_INFO_META_KEY@) == Some(client_info())
        }),
{
    let all = meta_members(version);
    put_then_lookup(members, "_meta"@, JsonView::Object(all), "_meta"@);
    reveal_strlit("io.modelcontextprotocol/clientInfo");
    reveal_strlit("io.modelcontextprotocol/protocolVersion");
    reveal_strlit("io.modelcontextprotocol/clientCapabilities");
    assert(PROTOCOL_VERSION_META_KEY@.len() != CLIENT_CAPABILITIES_META_KEY@.len());
    assert(PROTOCOL_VERSION_META_KEY@.len() != CLIENT_INFO_META_KEY@.len());
    assert(CLIENT_CAPABILITIES_META_KEY@.len() != CLIENT_INFO_META_KEY@.len());
    lemma_lookup_at(all, PROTOCOL_VERSION_META_KEY@, 0);
    lemma_lookup_at(all, CLIENT_CAPABILITIES_META_KEY@, 1);
    lemma_lookup_at(all, CLIENT_INFO_META_KEY@, 2);
}

/// How the client describes itself.
pub fn client_info_json() -> (r: Json)
    ensures
        r@ == client_info(),
{
    Json::object2("name", Json::text(CLIENT_NAME), "version", Json::text(CLIENT_VERSION))
}

fn request_meta_members(version: &str) -> (r: Vec<(String, Json)>)
    ensures
        members_view(r@) == meta_members(version@),
{
    let r = vec![
        (PROTOCOL_VERSION_META_KEY.to_owned(), Json::text(version)),
        (CLIENT_CAPABILITIES_META_KEY.to_owned(), empty_object()),
        (CLIENT_INFO_META_KEY.to_owned(), client_info_json()),
    ];
    assert(members_view(r@) =~= meta_members(version@));
    r
}

/// The metadata of a request: the protocol version, the client's capabilities,
/// of which there are none, and who the client is.
pub fn request_meta(version: &str) -> (r: Json)
    ensures
        r@ == JsonView::Object(meta_members(version@)),
{
    Json::object(request_meta_members(version))
}

fn has_member(members: &Vec<(String, Json)>, key: &str) -> (r: bool)
    ensures
        r == (lookup(members_view(members@), key@) is Some),
{
    let ghost model = members_view(members@);
    let mut i: usize = 0;
    while i < members.len()
        invariant
            i <= members@.len(),
            model == members_view(members@),
            forall|k: int| 0 <= k < i ==> (#[trigger] model[k]).0 != key@,
        decreases members.len() - i,
    {
        if same(members[i].0.as_str(), key) {
            proof {
                lemma_lookup_at(model, key@, i as int);
            }
            return true;
        }
        i += 1;
    }
    proof {
        lemma_lookup_at(model, key@, i as int);
    }
    false
}

fn merge(existing: &mut Vec<(String, Json)>, added: &Vec<(String, Json)>)
    ensures
        members_view(final(existing)@) == merged(
            members_view(old(existing)@),
            members_view(added@),
        ),
{
    let ghost start = members_view(existing@);
    let ghost more = members_view(added@);
    let mut i: usize = 0;
    assert(more.take(0) =~= Seq::<(Seq<char>, JsonView)>::empty());
    while i < added.len()
        invariant
            i <= added@.len(),
            more == members_view(added@),
            members_view(existing@) == merged(start, more.take(i as int)),
        decreases added.len() - i,
    {
        assert(more.take(i as int + 1).drop_last() =~= more.take(i as int));
        let ghost before = members_view(existing@);
        if !has_member(existing, added[i].0.as_str()) {
            existing.push((added[i].0.clone(), added[i].1.clone()));
            assert(members_view(existing@) =~= before.push(more[i as int]));
        }
        i += 1;
    }
    assert(more.take(i as int) =~= more);
}

/// The parameters with the metadata that every request carries. Metadata of
/// the caller's own is kept.
pub fn with_request_meta(params: Json, version: &str) -> (r: Json)
    ensures
        r@ == with_meta(params@, version@),
{
    let existing: Option<Json> = match params.get("_meta") {
        Some(meta) => Some(meta.clone()),
        None => None,
    };
    match params {
        Json::Object(members) => {
            let mut members = members;
            assert(params@->Object_0 =~= members_view(members@));
            let meta = match existing {
                Some(Json::Object(kept)) => {
                    let mut kept = kept;
                    assert(existing->0@->Object_0 =~= members_view(kept@));
                    merge(&mut kept, &request_meta_members(version));
                    Json::object(kept)
                },
                _ => request_meta(version),
            };
            put_member(&mut members, "_meta", meta);
            Json::object(members)
        },
        other => other,
    }
}

/// The headers by which a request can be routed.
pub open spec fn routing_headers(
    negotiated: NegotiatedView,
    method: Seq<char>,
    tool_name: Option<Seq<char>>,
) -> Seq<(Seq<char>, Seq<char>)> {
    seq![(HEADER_PROTOCOL_VERSION@, negotiated.version), (HEADER_METHOD@, method)] + (
    match tool_name {
        Some(name) => seq![(HEADER_NAME@, name)],
        None => Seq::empty(),
    }) + (match negotiated.session_id {
        Some(id) => seq![(HEADER_SESSION_ID@, id)],
        None => Seq::empty(),
    })
}

/// The headers by which a request can be routed.
pub fn routable_headers(negotiated: &Negotiated, method: &str, tool_name: &Option<String>) -> (r:
    Vec<(String, String)>)
    ensures
        text_pairs(r@) == routing_headers(negotiated@, method@, opt_text(*tool_name)),
{
    let mut headers = vec![
        (HEADER_PROTOCOL_VERSION.to_owned(), negotiated.version.clone()),
        (HEADER_METHOD.to_owned(), method.to_owned()),
    ];
    if let Some(name) = tool_name {
        headers.push((HEADER_NAME.to_owned(), name.clone()));
    }
    if let Some(id) = &negotiated.session_id {
        headers.push((HEADER_SESSION_ID.to_owned(), id.clone()));
    }
    assert(text_pairs(headers@) =~= routing_headers(negotiated@, method@, opt_text(*tool_name)));
    headers
}

/// An error that the protocol itself defines. Only a server of the stateless
/// era sends one.
#[derive(Debug, PartialEq, Eq)]
pub struct SpecError {
    pub code: i64,
    pub message: String,
    /// The versions that the server speaks, when it does not speak ours.
    pub supported: Vec<String>,
}

/// The content of a [`SpecError`].
pub ghost struct SpecErrorView {
    pub code: int,
    pub message: Seq<char>,
    pub supported: Seq<Seq<char>>,
}

impl View for SpecError {
    type V = SpecErrorView;

    open spec fn view(&self) -> SpecErrorView {
        SpecErrorView {
            code: self.code as int,
            message: self.message@,
            supported: texts(self.supported@),
        }
    }
}

/// Whether the protocol itself defines an error code.
pub open spec fn is_spec_code(code: int) -> bool {
    code == ERROR_HEADER_MISMATCH || code == ERROR_MISSING_REQUIRED_CLIENT_CAPABILITY || code
        == ERROR_UNSUPPORTED_PROTOCOL_VERSION
}

/// The error that an envelope carries, if the protocol itself defines it.
pub open spec fn spec_error_view(envelope: JsonView) -> Option<SpecErrorView> {
    match envelope.get("error"@) {
        None => None,
        Some(error) => match error.at("code"@).signed() {
            Some(code) if is_spec_code(code) => Some(
                SpecErrorView {
                    code,
                    message: or_else(error.at("message"@).text(), Seq::empty()),
                    supported: strings_in(error.at("data"@).at("supported"@)),
                },
            ),
            _ => None,
        },
    }
}

/// The error that an envelope carries, if the protocol itself defines it.
pub fn spec_error(envelope: &Json) -> (r: Option<SpecError>)
    ensures
        match r {
            Some(e) => spec_error_view(envelope@) == Some(e@),
            None => spec_error_view(envelope@) is None,
        },
{
    let error = match envelope.get("error") {
        Some(error) => error,
        None => {
            return None;
        },
    };
    let code: i64 = match error.get("code") {
        Some(code) => match code.as_i64() {
            Some(code) => code,
            None => {
                return None;
            },
        },
        None => {
            return None;
        },
    };
    if code != ERROR_HEADER_MISMATCH && code != ERROR_MISSING_REQUIRED_CLIENT_CAPABILITY && code
        != ERROR_UNSUPPORTED_PROTOCOL_VERSION {
        return None;
    }
    let message = match error.get_str("message") {
        Some(s) => s.to_owned(),
        None => String::new(),
    };
    let supported = match error.get("data") {
        Some(data) => strings_of(data.get("supported")),
        None => strings_of(None),
    };
    Some(SpecError { code, message, supported })
}

/// The best protocol that is shared with a server that listed its versions:
/// the stateless one, or else the newest handshake.
pub open spec fn best_shared(supported: Seq<Seq<char>>) -> Option<NegotiatedView> {
    if supported.contains(MCP_PROTOCOL_VERSION_LATEST@) {
        Some(stateless_view(MCP_PROTOCOL_VERSION_LATEST@))
    } else if supported.contains(MCP_PROTOCOL_VERSION_STATEFUL@) {
        Some(stateful_view(MCP_PROTOCOL_VERSION_STATEFUL@))
    } else if supported.contains(MCP_PROTOCOL_VERSION_MIDDLE@) {
        Some(stateful_view(MCP_PROTOCOL_VERSION_MIDDLE@))
    } else if supported.contains(MCP_PROTOCOL_VERSION_LEGACY@) {
        Some(stateful_view(MCP_PROTOCOL_VERSION_LEGACY@))
    } else {
        None
    }
}

/// Whatever is agreed on is a version that the server listed.
pub proof fn agreement_is_offered(supported: Seq<Seq<char>>)
    ensures
        best_shared(supported) matches Some(n) ==> supported.contains(n.version),
{
}

/// The best protocol that is shared with a server that listed its versions.
pub fn negotiated_from_supported(supported: &Vec<String>) -> (r: Option<Negotiated>)
    ensures
        match r {
            Some(n) => best_shared(texts(supported@)) == Some(n@),
            None => best_shared(texts(supported@)) is None,
        },
{
    if lists(supported, MCP_PROTOCOL_VERSION_LATEST) {
        return Some(Negotiated::stateless(MCP_PROTOCOL_VERSION_LATEST));
    }
    if lists(supported, MCP_PROTOCOL_VERSION_STATEFUL) {
        return Some(Negotiated::stateful(MCP_PROTOCOL_VERSION_STATEFUL));
    }
    if lists(supported, MCP_PROTOCOL_VERSION_MIDDLE) {
        return Some(Negotiated::stateful(MCP_PROTOCOL_VERSION_MIDDLE));
    }
    if lists(supported, MCP_PROTOCOL_VERSION_LEGACY) {
        return Some(Negotiated::stateful(MCP_PROTOCOL_VERSION_LEGACY));
    }
    None
}

/// For how many milliseconds a result stays fresh, if the server gave a usable
/// hint.
pub open spec fn freshness(result: JsonView) -> Option<int> {
    match result.at("ttlMs"@).unsigned() {
        Some(ms) if ms > 0 => Some(ms),
        _ => None,
    }
}

/// For how many milliseconds a result stays fresh.
pub fn cache_ttl(result: &Json) -> (r: Option<u64>)
    ensures
        match r {
            Some(ms) => freshness(result@) == Some(ms as int),
            None => freshness(result@) is None,
        },
{
    match result.get("ttlMs") {
        Some(ttl) => match ttl.as_u64() {
            Some(ms) => if ms > 0 {
                Some(ms)
            } else {
                None
            },
            None => None,
        },
        None => None,
    }
}

/// Whether a refusal says that the server waits for a handshake.
pub open spec fn wants_handshake(status: int, body: Seq<char>) -> bool {
    let text = lower(body);
    ||| {
        &&& status == 400 || status == 404 || status == 405 || status == 409 || status == 426
        &&& has_text(text, "session"@) || has_text(text, "initialize"@) || has_text(
            text,
            "mcp-session-id"@,
        )
    }
    ||| {
        &&& status == 400
        &&& has_text(text, "protocol version"@) || has_text(text, "protocol-version"@) || has_text(
            text,
            "protocolversion"@,
        )
        &&& has_text(text, "unsupported"@) || has_text(text, "not supported"@) || has_text(
            text,
            "invalid"@,
        )
    }
    ||| has_text(text, "server not initialized"@)
    ||| has_text(text, "session required"@)
    ||| has_text(text, "missing session"@)
    ||| has_text(text, "not initialized"@)
}

/// Whether a refusal says that the server waits for a handshake.
pub fn looks_like_handshake_required(status: u16, body: &str) -> (r: bool)
    ensures
        r == wants_handshake(status as int, body@),
{
    let lowered = to_lower(body);
    let text = lowered.as_str();
    if (status == 400 || status == 404 || status == 405 || status == 409 || status == 426) && (
    contains(text, "session") || contains(text, "initialize") || contains(text, "mcp-session-id")) {
        return true;
    }
    if status == 400 && (contains(text, "protocol version") || contains(text, "protocol-version")
        || contains(text, "protocolversion")) && (contains(text, "unsupported") || contains(
        text,
        "not supported",
    ) || contains(text, "invalid")) {
        return true;
    }
    contains(text, "server not initialized") || contains(text, "session required") || contains(
        text,
        "missing session",
    ) || contains(text, "not initialized")
}

} // verus!
