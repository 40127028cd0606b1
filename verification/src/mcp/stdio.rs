//! Servers over standard streams: one JSON-RPC message per line.

use vstd::prelude::*;

use crate::json::{empty_object, jempty, json_parse, parse_json, strings_in, Json, JsonView};
use crate::mcp::client::{discovery_from, request_view, rpc_request};
use crate::mcp::protocol::{best_shared, negotiated_from_supported, pinned, pinned_handshake,
    spec_error, spec_error_view, stateful_view, with_meta, with_request_meta, McpProtocolMode,
    Negotiated, NegotiatedView, MCP_PROTOCOL_VERSION_LATEST, MCP_PROTOCOL_VERSION_STATEFUL,
    METHOD_DISCOVER};
use crate::text::opt_text;

verus! {

/// The id that an envelope answers; nothing for one that answers none.
pub open spec fn answered_id(envelope: JsonView) -> Option<int> {
    envelope.at("id"@).signed()
}

/// The id that an envelope answers; nothing for one that answers none.
pub fn envelope_id(envelope: &Json) -> (r: Option<i64>)
    ensures
        match r {
            Some(id) => answered_id(envelope@) == Some(id as int),
            None => answered_id(envelope@) is None,
        },
{
    match envelope.get("id") {
        Some(id) => id.as_i64(),
        None => None,
    }
}

/// The answer that a line holds, and the request it answers. Lines that are no
/// JSON and notifications are passed over.
pub fn read_line(line: &str) -> (r: Option<(i64, Json)>)
    ensures
        match json_parse(line@) {
            Ok(envelope) => match answered_id(envelope) {
                Some(id) => r matches Some((i, e)) && i == id && e@ == envelope,
                None => r is None,
            },
            Err(_) => r is None,
        },
{
    match parse_json(line) {
        Ok(envelope) => match envelope_id(&envelope) {
            Some(id) => Some((id, envelope)),
            None => None,
        },
        Err(_) => None,
    }
}

/// The request to write: with a stateless server its parameters carry the
/// metadata of a request.
pub fn write_request(
    stateless_version: &Option<String>,
    id: i64,
    method: &str,
    params: Json,
) -> (r: Json)
    ensures
        r@ == request_view(
            id as int,
            method@,
            match opt_text(*stateless_version) {
                Some(version) => with_meta(params@, version),
                None => params@,
            },
        ),
{
    let params = match stateless_version {
        Some(version) => with_request_meta(params, version.as_str()),
        None => params,
    };
    rpc_request(id, method, params)
}

/// What a connection settles on: what to adopt, and the handshake to make, if
/// any.
#[derive(Debug)]
pub struct Settled {
    pub adopted: Negotiated,
    pub handshake: Option<String>,
}

/// The handshake that an agreement asks for: none without state.
pub open spec fn handshake_of(n: NegotiatedView) -> Option<Seq<char>> {
    if n.stateful {
        Some(n.version)
    } else {
        None
    }
}

/// What a pinned mode settles on without asking. A server whose mode is not
/// pinned is asked first.
pub fn settle_pinned(mode: McpProtocolMode) -> (r: Option<Settled>)
    ensures
        match pinned(mode) {
            Some(n) => r matches Some(s) && s.adopted@ == n && opt_text(s.handshake)
                == pinned_handshake(mode),
            None => r is None,
        },
{
    match mode.initial() {
        None => None,
        Some(adopted) => {
            let handshake = match mode.handshake_version() {
                Some(version) => Some(version.to_owned()),
                None => None,
            };
            Some(Settled { adopted, handshake })
        },
    }
}

/// The request that asks a server of unknown era to describe itself.
pub fn probe_request(id: i64) -> (r: Json)
    ensures
        r@ == request_view(
            id as int,
            METHOD_DISCOVER@,
            with_meta(jempty(), MCP_PROTOCOL_VERSION_LATEST@),
        ),
{
    rpc_request(
        id,
        METHOD_DISCOVER,
        with_request_meta(empty_object(), MCP_PROTOCOL_VERSION_LATEST),
    )
}

/// What the answer to the probe settles on: the versions that the server
/// names, in a refusal or in its description, decide. Another error, silence,
/// or an answer without a shared version means that the server wants the
/// newest handshake.
pub open spec fn probed(answer: Option<JsonView>) -> NegotiatedView {
    let shared = match answer {
        None => None,
        Some(envelope) => match spec_error_view(envelope) {
            Some(error) => best_shared(error.supported),
            None => if envelope.get("error"@) is Some {
                None
            } else {
                best_shared(strings_in(envelope.at("result"@).at("supportedVersions"@)))
            },
        },
    };
    match shared {
        Some(n) => n,
        None => stateful_view(MCP_PROTOCOL_VERSION_STATEFUL@),
    }
}

/// What the answer to the probe settles on.
pub fn settle_probed(answer: &Option<Json>) -> (r: Settled)
    ensures
        ({
            let n = probed(
                match *answer {
                    Some(envelope) => Some(envelope@),
                    None => None,
                },
            );
            r.adopted@ == n && opt_text(r.handshake) == handshake_of(n)
        }),
{
    let shared = match answer {
        None => None,
        Some(envelope) => match spec_error(envelope) {
            Some(error) => negotiated_from_supported(&error.supported),
            None => if envelope.get("error").is_some() {
                None
            } else {
                match envelope.get("result") {
                    Some(result) => negotiated_from_supported(
                        &discovery_from(result).supported_versions,
                    ),
                    None => {
                        let null = Json::Null;
                        negotiated_from_supported(&discovery_from(&null).supported_versions)
                    },
                }
            },
        },
    };
    let adopted = match shared {
        Some(n) => n,
        None => Negotiated::stateful(MCP_PROTOCOL_VERSION_STATEFUL),
    };
    let handshake = if adopted.stateful {
        Some(adopted.version.clone())
    } else {
        None
    };
    Settled { adopted, handshake }
}

} // verus!
