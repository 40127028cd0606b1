//! What holds of every exchange with a server: which protocol is agreed on,
//! what is sent, and which answer is taken.

use vstd::prelude::*;

use crate::json::{jempty, json_parse, lookup, strings_among, strings_in, JsonView};
use crate::mcp::answers::{a_handshake_names_the_version, requests_say_what_is_asked};
use crate::mcp::client::{initialize_view, server_says};
use crate::mcp::http::{advanced, announced, begun, body_error, extracted, first_answer,
    handshake_out, is_next, is_stream, line_value, line_values, notification_out, operation_out,
    retried, status_text_of, succeeded, Next, NextView, OperationView, RawView, StageView};
use crate::mcp::protocol::{best_shared, caller_metadata_survives, client_info, freshness,
    merge_adds_missing, merge_keeps_existing, meta_members, pinned, pinned_handshake,
    request_carries_metadata, routing_headers, spec_error_view, wants_handshake, with_meta,
    McpProtocolMode, NegotiatedView, SpecErrorView};
use crate::mcp::stdio::{answered_id, handshake_of, probed};
use crate::members::{members_of_two, setting_a_member};
use crate::text::{decimal_int, has_text, joined, lines_of, lower, occurs_at, trimmed};

verus! {

// ------------------------------------------------------------- agreements

/// The newest protocol that both sides speak is agreed on, without a session;
/// all but the newest of all start with a handshake. Nothing is agreed on only
/// where nothing is shared.
#[verifier::rlimit(40)]
pub proof fn the_newest_shared_protocol_is_chosen(supported: Seq<Seq<char>>)
    ensures
        match best_shared(supported) {
            None => !supported.contains("2026-07-28"@) && !supported.contains("2025-11-25"@)
                && !supported.contains("2025-06-18"@) && !supported.contains("2025-03-26"@),
            Some(n) => {
                &&& supported.contains(n.version)
                &&& n.session_id is None
                &&& n.stateful <==> !supported.contains("2026-07-28"@)
                &&& supported.contains("2026-07-28"@) ==> n.version == "2026-07-28"@
                &&& n.version != "2026-07-28"@ && supported.contains("2025-11-25"@) ==> n.version
                    == "2025-11-25"@
                &&& n.version == "2025-03-26"@ ==> !supported.contains("2025-06-18"@)
            },
        },
{
    reveal_strlit("2025-03-26");
    reveal_strlit("2025-06-18");
    reveal_strlit("2025-11-25");
    reveal_strlit("2026-07-28");
    assert("2025-03-26"@[6] != "2025-06-18"@[6]);
    assert("2025-03-26"@[5] != "2025-11-25"@[5]);
    assert("2025-03-26"@[3] != "2026-07-28"@[3]);
    assert("2025-06-18"@[5] != "2025-11-25"@[5]);
    assert("2025-06-18"@[3] != "2026-07-28"@[3]);
    assert("2025-11-25"@[3] != "2026-07-28"@[3]);
}

/// A pinned mode agrees on its own version and needs no server for it; a mode
/// that is not pinned agrees on nothing by itself.
pub proof fn a_pinned_mode_keeps_its_version()
    ensures
        pinned(McpProtocolMode::Auto) is None,
        pinned_handshake(McpProtocolMode::Auto) is None,
        pinned(McpProtocolMode::Latest) == Some(
            NegotiatedView { version: "2026-07-28"@, stateful: false, session_id: None },
        ),
        pinned_handshake(McpProtocolMode::Latest) is None,
        pinned(McpProtocolMode::Stateful) == Some(
            NegotiatedView { version: "2025-11-25"@, stateful: true, session_id: None },
        ),
        pinned_handshake(McpProtocolMode::Stateful) == Some("2025-11-25"@),
        pinned(McpProtocolMode::Legacy) == Some(
            NegotiatedView { version: "2025-03-26"@, stateful: true, session_id: None },
        ),
        pinned_handshake(McpProtocolMode::Legacy) == Some("2025-03-26"@),
{
}

/// A probe settles on a version that the server named; a server that is
/// silent, or that names none that is shared, gets the newest handshake.
pub proof fn a_probe_settles_on_what_was_named(answer: Option<JsonView>)
    ensures
        answer is None ==> probed(answer) == (NegotiatedView {
            version: "2025-11-25"@,
            stateful: true,
            session_id: None,
        }),
        answer matches Some(envelope) ==> envelope.get("error"@) is None ==> {
            let named = strings_in(envelope.at("result"@).at("supportedVersions"@));
            best_shared(named) == Some(probed(answer)) || (best_shared(named) is None && probed(
                answer,
            ).version == "2025-11-25"@ && probed(answer).stateful)
        },
        answer matches Some(envelope) ==> envelope.get("error"@) is Some ==> {
            let named = strings_in(envelope.at("error"@).at("data"@).at("supported"@));
            best_shared(named) == Some(probed(answer)) || (probed(answer).version == "2025-11-25"@
                && probed(answer).stateful)
        },
        probed(answer).session_id is None,
        handshake_of(probed(answer)) is Some <==> probed(answer).stateful,
        handshake_of(probed(answer)) matches Some(version) ==> version == probed(answer).version,
{
}

/// The strings of an array are found in order: those of two parts are those of
/// the first and those of the second, and a value that is no string is passed
/// over.
pub proof fn strings_are_picked_out(a: Seq<JsonView>, b: Seq<JsonView>, v: JsonView)
    ensures
        strings_in(JsonView::Array(a + b)) == strings_in(JsonView::Array(a)) + strings_in(
            JsonView::Array(b),
        ),
        forall|text: Seq<char>|
            v == JsonView::Str(text) ==> strings_in(JsonView::Array(seq![v])) == seq![text],
        v !is Str ==> strings_in(JsonView::Array(seq![v])).len() == 0,
        v !is Array ==> strings_in(v).len() == 0,
    decreases b.len(),
{
    assert(seq![v].drop_last() =~= Seq::empty());
    assert(seq![v].last() == v);
    reveal_with_fuel(strings_among, 2);
    if b.len() == 0 {
        assert(a + b =~= a);
    } else {
        strings_are_picked_out(a, b.drop_last(), v);
        assert((a + b).drop_last() =~= a + b.drop_last());
        assert((a + b).last() == b.last());
    }
}

/// An error is one of the protocol itself if and only if its code is one of
/// three; its message and the versions that it names are read along.
pub proof fn errors_of_the_protocol_are_known_by_their_code(envelope: JsonView)
    ensures
        ({
            let code = envelope.at("error"@).at("code"@);
            let known = code == JsonView::Int(-32020) || code == JsonView::Int(-32021) || code
                == JsonView::Int(-32022);
            &&& spec_error_view(envelope) is Some <==> known
            &&& spec_error_view(envelope) matches Some(e) ==> {
                &&& code == JsonView::Int(e.code)
                &&& envelope.at("error"@).at("message"@) is Str ==> envelope.at("error"@).at(
                    "message"@,
                ) == JsonView::Str(e.message)
                &&& envelope.at("error"@).at("message"@) !is Str ==> e.message.len() == 0
                &&& e.supported == strings_in(
                    envelope.at("error"@).at("data"@).at("supported"@),
                )
            }
        }),
{
    assert(JsonView::Null.get("code"@) is None);
}

/// A hint of freshness is a positive number of milliseconds that fits the
/// clock, and no other value is one.
pub proof fn freshness_is_a_positive_time(result: JsonView)
    ensures
        forall|ms: int|
            freshness(result) == Some(ms) <==> result.at("ttlMs"@) == JsonView::Int(ms) && 0 < ms
                <= u64::MAX,
{
}

/// How the client describes itself.
pub proof fn the_client_names_itself()
    ensures
        client_info().at("name"@) == JsonView::Str("agentyk"@),
        client_info().at("version"@) == JsonView::Str("0.1.0"@),
{
    reveal_strlit("name");
    reveal_strlit("version");
    members_of_two("name"@, JsonView::Str("agentyk"@), "version"@, JsonView::Str("0.1.0"@));
}

/// A refusal that speaks of a session or of initialization, with a status that
/// refuses a request, asks for a handshake, in whatever letters it is written;
/// one that speaks of neither and is no complaint about the version does not.
#[verifier::rlimit(40)]
pub proof fn a_handshake_is_made_where_it_is_asked_for(status: int, body: Seq<char>)
    ensures
        has_text(lower(body), "not initialized"@) ==> wants_handshake(status, body),
        has_text(lower(body), "session required"@) ==> wants_handshake(status, body),
        has_text(lower(body), "missing session"@) ==> wants_handshake(status, body),
        (status == 400 || status == 404 || status == 405 || status == 409 || status == 426) && (
        has_text(lower(body), "session"@) || has_text(lower(body), "initialize"@))
            ==> wants_handshake(status, body),
        status == 400 && (has_text(lower(body), "protocol version"@) || has_text(
            lower(body),
            "protocol-version"@,
        ) || has_text(lower(body), "protocolversion"@)) && (has_text(lower(body), "unsupported"@)
            || has_text(lower(body), "not supported"@) || has_text(lower(body), "invalid"@))
            ==> wants_handshake(status, body),
        !has_text(lower(body), "session"@) && !has_text(lower(body), "initialize"@) && status
            != 400 ==> !wants_handshake(status, body),
        !has_text(lower(body), "session"@) && !has_text(lower(body), "initialize"@) && !has_text(
            lower(body),
            "protocol"@,
        ) ==> !wants_handshake(status, body),
{
    let text = lower(body);
    reveal_strlit("session");
    reveal_strlit("initialize");
    reveal_strlit("protocol");
    reveal_strlit("mcp-session-id");
    reveal_strlit("server not initialized");
    reveal_strlit("session required");
    reveal_strlit("missing session");
    reveal_strlit("not initialized");
    reveal_strlit("protocol version");
    reveal_strlit("protocol-version");
    reveal_strlit("protocolversion");
    lemma_text_within(text, "mcp-session-id"@, "session"@, 4);
    lemma_text_within(text, "server not initialized"@, "initialize"@, 11);
    lemma_text_within(text, "session required"@, "session"@, 0);
    lemma_text_within(text, "missing session"@, "session"@, 8);
    lemma_text_within(text, "not initialized"@, "initialize"@, 4);
    lemma_text_within(text, "protocol version"@, "protocol"@, 0);
    lemma_text_within(text, "protocol-version"@, "protocol"@, 0);
    lemma_text_within(text, "protocolversion"@, "protocol"@, 0);
}

proof fn lemma_text_within(text: Seq<char>, whole: Seq<char>, part: Seq<char>, at: int)
    requires
        0 <= at,
        at + part.len() <= whole.len(),
        whole.subrange(at, at + part.len()) =~= part,
    ensures
        has_text(text, whole) ==> has_text(text, part),
{
    if has_text(text, whole) {
        let i = choose|i: int| occurs_at(text, whole, i);
        assert(text.subrange(i + at, i + at + part.len()) =~= part) by {
            assert forall|k: int| 0 <= k < part.len() implies text[i + at + k] == part[k] by {
                assert(text.subrange(i, i + whole.len())[at + k] == text[i + at + k]);
                assert(whole.subrange(at, at + part.len())[k] == whole[at + k]);
            }
        }
        assert(occurs_at(text, part, i + at));
    }
}

// ------------------------------------------------------------ what is sent

/// Parameters are sent as they were given, under metadata that names the
/// protocol version, unless the caller named another one. What is no object
/// carries none.
pub proof fn parameters_are_sent_as_given(params: JsonView, version: Seq<char>, key: Seq<char>)
    ensures
        params !is Object ==> with_meta(params, version) == params,
        key != "_meta"@ ==> with_meta(params, version).get(key) == params.get(key),
        params is Object ==> ({
            let named = with_meta(params, version).at("_meta"@).at(
                "io.modelcontextprotocol/protocolVersion"@,
            );
            let own = params.at("_meta"@).get("io.modelcontextprotocol/protocolVersion"@);
            &&& own is None ==> named == JsonView::Str(version)
            &&& own is Some ==> named == own->0
        }),
{
    if let JsonView::Object(members) = params {
        caller_metadata_survives(members, version, key);
        let name = "io.modelcontextprotocol/protocolVersion"@;
        caller_metadata_survives(members, version, name);
        match lookup(members, "_meta"@) {
            Some(JsonView::Object(existing)) => {
                setting_a_member(
                    members,
                    "_meta"@,
                    JsonView::Object(
                        crate::mcp::protocol::merged(existing, meta_members(version)),
                    ),
                );
                assert(meta_members(version)[0].0 == name);
                if lookup(existing, name) is None {
                    merge_adds_missing(existing, meta_members(version), 0);
                } else {
                    merge_keeps_existing(existing, meta_members(version), name);
                }
            },
            _ => {
                request_carries_metadata(members, version);
            },
        }
    }
}

/// The headers of a request name the agreed version and the method, and the
/// tool and the session where there are any.
pub proof fn headers_route_the_request(
    n: NegotiatedView,
    method: Seq<char>,
    tool_name: Option<Seq<char>>,
)
    ensures
        ({
            let headers = routing_headers(n, method, tool_name);
            let named: int = if tool_name is Some {
                1
            } else {
                0
            };
            let bound: int = if n.session_id is Some {
                1
            } else {
                0
            };
            &&& headers.len() == 2 + named + bound
            &&& headers[0] == ("MCP-Protocol-Version"@, n.version)
            &&& headers[1] == ("Mcp-Method"@, method)
            &&& tool_name matches Some(name) ==> headers[2] == ("Mcp-Name"@, name)
            &&& n.session_id matches Some(id) ==> headers.last() == ("Mcp-Session-Id"@, id)
        }),
{
}

/// A message that carries an operation asks for that method with those
/// parameters under that id, in the protocol that was agreed on; a tool call
/// names its tool.
pub proof fn an_operation_is_sent_whole(o: OperationView, n: NegotiatedView, key: Seq<char>)
    ensures
        ({
            let out = operation_out(o, n);
            &&& out.payload.at("jsonrpc"@) == JsonView::Str("2.0"@)
            &&& out.payload.at("id"@) == JsonView::Int(o.id)
            &&& out.payload.at("method"@) == JsonView::Str(o.method)
            &&& key != "_meta"@ ==> out.payload.at("params"@).get(key) == o.params.get(key)
            &&& o.params is Object && o.params.at("_meta"@).get(
                "io.modelcontextprotocol/protocolVersion"@,
            ) is None ==> out.payload.at("params"@).at("_meta"@).at(
                "io.modelcontextprotocol/protocolVersion"@,
            ) == JsonView::Str(n.version)
            &&& out.negotiated == n
            &&& out.method == o.method
            &&& o.method == "tools/call"@ && o.params.at("name"@) is Str ==> (out.tool_name matches Some(
                name,
            ) && o.params.at("name"@) == JsonView::Str(name))
            &&& o.method != "tools/call"@ || o.params.at("name"@) !is Str ==> out.tool_name is None
        }),
{
    requests_say_what_is_asked(o.id, o.method, with_meta(o.params, n.version));
    parameters_are_sent_as_given(o.params, n.version, key);
}

/// A handshake asks for a version, names it in its headers too, and belongs to
/// no session yet.
pub proof fn a_handshake_asks_for_a_version(id: int, preferred: Seq<char>)
    ensures
        ({
            let out = handshake_out(id, preferred);
            &&& out.payload.at("id"@) == JsonView::Int(id)
            &&& out.payload.at("method"@) == JsonView::Str("initialize"@)
            &&& out.payload.at("params"@).at("protocolVersion"@) == JsonView::Str(preferred)
            &&& out.method == "initialize"@
            &&& out.negotiated.version == preferred
            &&& out.negotiated.session_id is None
            &&& out.tool_name is None
        }),
{
    requests_say_what_is_asked(id, "initialize"@, initialize_view(preferred));
    a_handshake_names_the_version(preferred);
}

/// A notification is sent with its parameters, without an id, in the protocol
/// that was agreed on.
pub proof fn a_notification_waits_for_no_answer(
    method: Seq<char>,
    params: JsonView,
    n: NegotiatedView,
)
    ensures
        ({
            let out = notification_out(method, params, n);
            &&& out.payload.get("id"@) is None
            &&& out.payload.at("method"@) == JsonView::Str(method)
            &&& out.payload.at("params"@) == params
            &&& out.method == method
            &&& out.negotiated == n
            &&& out.tool_name is None
        }),
{
    requests_say_what_is_asked(0, method, params);
}

// ------------------------------------------------------------ what comes back

/// The answer to a request is the first value with its id: nothing before it
/// has that id, and there is none only where no value has it.
pub proof fn the_first_answer_is_taken(values: Seq<JsonView>, id: int)
    requires
        i64::MIN <= id <= i64::MAX,
    ensures
        match first_answer(values, id) {
            Some(v) => exists|i: int|
                0 <= i < values.len() && #[trigger] values[i] == v && v.at("id"@) == JsonView::Int(
                    id,
                ) && forall|j: int|
                    0 <= j < i ==> (#[trigger] values[j]).at("id"@) != JsonView::Int(id),
            None => forall|i: int|
                0 <= i < values.len() ==> (#[trigger] values[i]).at("id"@) != JsonView::Int(id),
        },
    decreases values.len(),
{
    if values.len() > 0 {
        let rest = values.drop_first();
        if values[0].at("id"@) == JsonView::Int(id) {
            assert(values[0] == first_answer(values, id)->0);
        } else {
            assert(answered_id(values[0]) != Some(id));
            the_first_answer_is_taken(rest, id);
            match first_answer(rest, id) {
                Some(v) => {
                    let i = choose|i: int|
                        0 <= i < rest.len() && #[trigger] rest[i] == v && v.at("id"@)
                            == JsonView::Int(id) && forall|j: int|
                            0 <= j < i ==> (#[trigger] rest[j]).at("id"@) != JsonView::Int(id);
                    assert(values[i + 1] == v);
                    assert forall|j: int| 0 <= j < i + 1 implies (#[trigger] values[j]).at("id"@)
                        != JsonView::Int(id) by {
                        if j > 0 {
                            assert(rest[j - 1] == values[j]);
                        }
                    }
                },
                None => {
                    assert forall|i: int| 0 <= i < values.len() implies (#[trigger] values[i]).at(
                        "id"@,
                    ) != JsonView::Int(id) by {
                        if i > 0 {
                            assert(rest[i - 1] == values[i]);
                        }
                    }
                },
            }
        }
    }
}

/// The values of a stream come line by line: those of two parts are those of
/// the first and those of the second; a data line carries the value that it
/// spells, and every other line carries none.
pub proof fn streams_are_read_line_by_line(
    a: Seq<Seq<char>>,
    b: Seq<Seq<char>>,
    payload: Seq<char>,
    other: Seq<char>,
)
    ensures
        line_values(a + b) == line_values(a) + line_values(b),
        match json_parse(trimmed(payload)) {
            Ok(value) => line_values(seq!["data:"@ + payload]) == seq![value],
            Err(_) => line_values(seq!["data:"@ + payload]).len() == 0,
        },
        !"data:"@.is_prefix_of(other) ==> line_values(seq![other]).len() == 0,
    decreases b.len(),
{
    let line = "data:"@ + payload;
    assert("data:"@.is_prefix_of(line)) by {
        assert(line.subrange(0, "data:"@.len() as int) =~= "data:"@);
    }
    assert(line.skip("data:"@.len() as int) =~= payload);
    reveal_with_fuel(line_values, 2);
    assert(seq![line].drop_last() =~= Seq::empty());
    assert(seq![other].drop_last() =~= Seq::empty());
    assert(seq![line].last() == line);
    assert(line_value(line) == match json_parse(trimmed(payload)) {
        Ok(value) => Some(value),
        Err(_) => None,
    });
    if let Ok(value) = json_parse(trimmed(payload)) {
        assert(line_values(seq![line]) =~= seq![value]);
    }
    if b.len() == 0 {
        assert(a + b =~= a);
    } else {
        streams_are_read_line_by_line(a, b.drop_last(), payload, other);
        assert((a + b).drop_last() =~= a + b.drop_last());
        assert((a + b).last() == b.last());
    }
}

/// What is taken for an answer is one: out of a stream, a value with the id of
/// the request; otherwise what the body spells.
pub proof fn an_answer_answers_the_request(
    server: Seq<char>,
    id: int,
    content_type: Seq<char>,
    body: Seq<char>,
)
    requires
        i64::MIN <= id <= i64::MAX,
    ensures
        "text/event-stream"@.is_prefix_of(content_type) ==> match extracted(
            server,
            id,
            content_type,
            body,
        ) {
            Ok(v) => v.at("id"@) == JsonView::Int(id) && line_values(lines_of(body)).contains(v),
            Err(message) => (forall|i: int|
                0 <= i < line_values(lines_of(body)).len() ==> (#[trigger] line_values(
                    lines_of(body),
                )[i]).at("id"@) != JsonView::Int(id)) && has_text(
                message,
                "`"@ + server + "`"@,
            ),
        },
        !"text/event-stream"@.is_prefix_of(content_type) ==> match json_parse(body) {
            Ok(value) => extracted(server, id, content_type, body) == Ok::<
                JsonView,
                Seq<char>,
            >(value),
            Err(_) => extracted(server, id, content_type, body) matches Err(message) && has_text(
                message,
                "`"@ + server + "`"@,
            ),
        },
{
    the_first_answer_is_taken(line_values(lines_of(body)), id);
    if let Err(message) = json_parse(body) {
        lemma_server_named(server, "sent an unparseable response: "@ + message);
    }
    lemma_server_named(server, "stream ended without a response to request "@ + decimal_int(id));
}

proof fn lemma_server_named(server: Seq<char>, what: Seq<char>)
    ensures
        has_text(server_says(server, what), "`"@ + server + "`"@),
        server_says(server, what).skip(server_says(server, what).len() - what.len()) == what,
{
    let said = server_says(server, what);
    reveal_strlit("mcp `");
    reveal_strlit("` ");
    reveal_strlit("`");
    let a = "`"@ + server + "`"@;
    assert(said.subrange(4int, 4int + a.len() as int) =~= a);
    assert(occurs_at(said, a, 4));
    assert(said.skip(said.len() - what.len()) =~= what);
}

/// A failed status is told with the server, the status and the body; one that
/// stands for missing rights says where to look.
#[verifier::rlimit(40)]
pub proof fn a_failed_status_is_told(server: Seq<char>, raw: RawView)
    ensures
        has_text(status_text_of(server, raw), "`"@ + server + "`"@),
        has_text(status_text_of(server, raw), raw.status_text),
        status_text_of(server, raw).skip(
            status_text_of(server, raw).len() - trimmed(raw.body).len(),
        ) == trimmed(raw.body),
        raw.status == 401 || raw.status == 403 ==> has_text(
            status_text_of(server, raw),
            "check the McpAuthProvider for this server"@,
        ),
{
    let hint = if raw.status == 401 || raw.status == 403 {
        " — check the McpAuthProvider for this server"@
    } else {
        ""@
    };
    let tail = trimmed(raw.body);
    let what = "returned "@ + raw.status_text + hint + ": "@ + tail;
    let said = status_text_of(server, raw);
    assert(said == server_says(server, what));
    lemma_server_named(server, what);
    reveal_strlit("mcp `");
    reveal_strlit("` ");
    reveal_strlit("returned ");
    reveal_strlit(": ");
    let i: int = 7 + server.len() as int + 9;
    assert(said.subrange(i, i + raw.status_text.len()) =~= raw.status_text);
    assert(occurs_at(said, raw.status_text, i));
    assert(said.skip(said.len() - tail.len()) =~= tail);
    if raw.status == 401 || raw.status == 403 {
        reveal_strlit(" — check the McpAuthProvider for this server");
        reveal_strlit("check the McpAuthProvider for this server");
        let part = "check the McpAuthProvider for this server"@;
        let j: int = i + raw.status_text.len() + 3;
        assert(hint.skip(3) =~= part);
        assert(said.subrange(j, j + part.len()) =~= part) by {
            assert forall|k: int| 0 <= k < part.len() implies said[j + k] == part[k] by {
                assert(hint.skip(3)[k] == hint[3 + k]);
            }
        }
        assert(occurs_at(said, part, j));
    }
}

// ------------------------------------------------------------------ exchanges

/// An operation on a server with which a protocol was agreed on is sent in
/// that protocol; one on a server of unknown era is sent without a handshake,
/// and nothing is sent where a pinned mode has not agreed yet.
pub proof fn operations_are_sent_as_agreed(
    mode: McpProtocolMode,
    negotiated: Option<NegotiatedView>,
    o: OperationView,
)
    requires
        o.method != "initialize"@,
    ensures
        negotiated matches Some(n) ==> begun(mode, negotiated, o) == (NextView::Send {
            outgoing: operation_out(o, n),
            stage: StageView::Operating { id: o.id, adopt: None },
        }),
        negotiated is None && mode == McpProtocolMode::Auto ==> (begun(mode, negotiated, o) matches NextView::Send {
            outgoing,
            stage,
        } && outgoing.negotiated.version == "2026-07-28"@ && !outgoing.negotiated.stateful
            && stage == (StageView::Probing { operation: o })),
        negotiated is None && mode != McpProtocolMode::Auto ==> begun(
            mode,
            negotiated,
            o,
        ) is Failure,
{
}

/// A handshake that a caller asks for prefers the version that the caller
/// named, and the newest one with a handshake where it named none.
pub proof fn a_handshake_prefers_what_was_named(
    mode: McpProtocolMode,
    negotiated: Option<NegotiatedView>,
    o: OperationView,
)
    requires
        o.method == "initialize"@,
    ensures
        begun(mode, negotiated, o) matches NextView::Send { outgoing, stage } && {
            let preferred = outgoing.negotiated.version;
            &&& o.params.at("protocolVersion"@) is Str ==> o.params.at("protocolVersion"@)
                == JsonView::Str(preferred)
            &&& o.params.at("protocolVersion"@) !is Str ==> preferred == "2025-11-25"@
            &&& outgoing == handshake_out(o.id, preferred)
            &&& stage == (StageView::Initializing { id: o.id, preferred, waiting: None })
        },
{
}

/// What comes next is one of three: a message with its stage, the envelope of
/// the answer, or a failure in its own words.
pub proof fn what_comes_next_is_one_thing(next: Next, v: NextView)
    ensures
        next matches Next::Send { outgoing, stage } ==> (is_next(next, v) <==> v is Send
            && v->outgoing == outgoing@ && v->stage == stage@),
        next matches Next::Done(Ok(envelope)) ==> (is_next(next, v) <==> v == NextView::Answer(
            envelope@,
        )),
        next matches Next::Done(Err(e)) ==> (is_next(next, v) <==> v is Failure && e is Mcp
            && e->Mcp_0@ == v->Failure_0),
{
}

/// A failed status ends an exchange with a failure and changes nothing of what
/// was agreed on.
pub proof fn a_failed_status_ends_the_exchange(
    server: Seq<char>,
    negotiated: Option<NegotiatedView>,
    stage: StageView,
    raw: RawView,
)
    requires
        stage is Initializing || stage is Operating,
        !(200 <= raw.status <= 299),
    ensures
        advanced(server, negotiated, stage, raw) == (
            NextView::Failure(status_text_of(server, raw)),
            negotiated,
        ),
{
}

/// The answer to an operation ends the exchange, and what it was sent in is
/// agreed on from then on; a body without an answer is a failure that changes
/// nothing.
pub proof fn an_answer_ends_the_exchange(
    server: Seq<char>,
    negotiated: Option<NegotiatedView>,
    id: int,
    adopt: Option<NegotiatedView>,
    raw: RawView,
)
    requires
        200 <= raw.status <= 299,
    ensures
        ({
            let (next, agreed) = advanced(
                server,
                negotiated,
                StageView::Operating { id, adopt },
                raw,
            );
            match extracted(server, id, raw.content_type, raw.body) {
                Ok(v) => {
                    &&& next == NextView::Answer(v)
                    &&& adopt is Some ==> agreed == adopt
                    &&& adopt is None ==> agreed == negotiated
                },
                Err(message) => next == NextView::Failure(message) && agreed == negotiated,
            }
        }),
{
}

/// A handshake settles the version that the server answered with, or else the
/// one that was asked for, and the session that it opened. It is announced,
/// and then the operation that waited is sent as agreed.
pub proof fn a_handshake_is_followed_by_the_operation(
    server: Seq<char>,
    negotiated: Option<NegotiatedView>,
    id: int,
    preferred: Seq<char>,
    waiting: OperationView,
    raw: RawView,
    announcement: RawView,
)
    requires
        200 <= raw.status <= 299,
        extracted(server, id, raw.content_type, raw.body) is Ok,
    ensures
        ({
            let stage = StageView::Initializing { id, preferred, waiting: Some(waiting) };
            let envelope = extracted(server, id, raw.content_type, raw.body)->Ok_0;
            let said = envelope.at("result"@).at("protocolVersion"@);
            let (next, agreed) = advanced(server, negotiated, stage, raw);
            &&& agreed matches Some(n) && {
                &&& said is Str ==> said == JsonView::Str(n.version)
                &&& said !is Str ==> n.version == preferred
                &&& n.stateful
                &&& n.session_id == raw.session_id
                &&& next == (NextView::Send {
                    outgoing: notification_out("notifications/initialized"@, jempty(), n),
                    stage: StageView::Announcing { operation: waiting },
                })
                &&& advanced(server, agreed, next->stage, announcement) == (
                    NextView::Send {
                        outgoing: operation_out(waiting, n),
                        stage: StageView::Operating { id: waiting.id, adopt: None },
                    },
                    agreed,
                )
                &&& announced(agreed, waiting) == advanced(
                    server,
                    agreed,
                    next->stage,
                    announcement,
                ).0
            }
        }),
{
}

/// A server that does not speak the version of a request and names others is
/// sent the same operation in the best of those, after a handshake where that
/// needs one; without a shared one, and for any other error of the protocol,
/// the exchange fails and says why.
pub proof fn a_refused_version_is_replaced(
    server: Seq<char>,
    o: OperationView,
    error: SpecErrorView,
)
    ensures
        error.code == -32022 ==> match best_shared(error.supported) {
            Some(n) => retried(server, o, error) matches NextView::Send { outgoing, stage } && {
                &&& outgoing.negotiated.version == n.version
                &&& !n.stateful ==> outgoing == operation_out(o, n) && stage
                    == (StageView::Operating { id: o.id, adopt: Some(n) })
                &&& n.stateful ==> outgoing == handshake_out(0, n.version) && stage
                    == (StageView::Initializing {
                    id: 0,
                    preferred: n.version,
                    waiting: Some(o),
                })
            },
            None => retried(server, o, error) matches NextView::Failure(message) && (
            error.supported.len() > 0 ==> has_text(message, joined(error.supported, ", "@))),
        },
        error.code != -32022 ==> (retried(server, o, error) matches NextView::Failure(message)
            && has_text(message, decimal_int(error.code)) && message.skip(
            message.len() - error.message.len(),
        ) == error.message),
{
    if error.code == -32022 {
        if best_shared(error.supported) is None && error.supported.len() > 0 {
            let list = joined(error.supported, ", "@);
            let lead = "supports no protocol version agentyk speaks (it offers "@;
            let message = server_says(server, lead + list + ")"@);
            let i: int = "mcp `"@.len() as int + server.len() + "` "@.len() + lead.len();
            assert(message.subrange(i, i + list.len()) =~= list);
            assert(occurs_at(message, list, i));
        }
    } else {
        let lead = "mcp `"@ + server + "` rejected `"@ + o.method + "` with code "@;
        let code = decimal_int(error.code);
        let message = lead + (code + ": "@ + error.message);
        assert(retried(server, o, error) == NextView::Failure(message));
        assert(message.subrange(lead.len() as int, lead.len() as int + code.len()) =~= code);
        assert(occurs_at(message, code, lead.len() as int));
        assert(message.skip(message.len() - error.message.len()) =~= error.message);
    }
}

/// The first message to a server of unknown era tells which it is of: an error
/// of the protocol itself is answered in its terms, a call for a handshake is
/// followed by one for the same operation, and an answer settles the newest
/// protocol.
pub proof fn a_first_answer_tells_the_era(
    server: Seq<char>,
    negotiated: Option<NegotiatedView>,
    o: OperationView,
    raw: RawView,
)
    ensures
        ({
            let (next, agreed) = advanced(
                server,
                negotiated,
                StageView::Probing { operation: o },
                raw,
            );
            &&& body_error(raw) matches Some(error) ==> next == retried(server, o, error) && agreed
                == negotiated
            &&& body_error(raw) is None && wants_handshake(raw.status, raw.body) ==> next
                == (NextView::Send {
                outgoing: handshake_out(0, "2025-11-25"@),
                stage: StageView::Initializing {
                    id: 0,
                    preferred: "2025-11-25"@,
                    waiting: Some(o),
                },
            }) && agreed == negotiated
            &&& body_error(raw) is None && !wants_handshake(raw.status, raw.body) && !(200
                <= raw.status <= 299) ==> next == NextView::Failure(status_text_of(server, raw))
                && agreed == negotiated
            &&& body_error(raw) is None && !wants_handshake(raw.status, raw.body) && 200
                <= raw.status <= 299 ==> match extracted(
                server,
                o.id,
                raw.content_type,
                raw.body,
            ) {
                Ok(v) => next == NextView::Answer(v) && agreed == Some(
                    NegotiatedView { version: "2026-07-28"@, stateful: false, session_id: None },
                ),
                Err(message) => next == NextView::Failure(message) && agreed == negotiated,
            }
        }),
{
}

/// The error of the protocol itself that a body carries is that of its first
/// value, and a body that spells none carries none.
pub proof fn the_first_value_carries_the_error(raw: RawView)
    ensures
        "text/event-stream"@.is_prefix_of(raw.content_type) && line_values(
            lines_of(raw.body),
        ).len() > 0 ==> body_error(raw) == spec_error_view(line_values(lines_of(raw.body))[0]),
        "text/event-stream"@.is_prefix_of(raw.content_type) && line_values(
            lines_of(raw.body),
        ).len() == 0 ==> body_error(raw) is None,
        !"text/event-stream"@.is_prefix_of(raw.content_type) ==> match json_parse(raw.body) {
            Ok(value) => body_error(raw) == spec_error_view(value),
            Err(_) => body_error(raw) is None,
        },
        is_stream(raw.content_type) <==> "text/event-stream"@.is_prefix_of(raw.content_type),
        succeeded(raw.status) <==> 200 <= raw.status < 300,
{
}

} // verus!
