//! What a client says to a server, and how it reads the answers.

use vstd::prelude::*;

use crate::json::{empty_object, items_view, jempty, json_print, jstr, print_json, strings_in,
    strings_of, Json, JsonView};
use crate::mcp::protocol::{cache_ttl, client_info, client_info_json, freshness,
    SERVER_INFO_META_KEY};
use crate::message::{tools_view, Error, OutputView, ToolDefinition, ToolOutput, ToolView};
use crate::text::{cat5, join, joined, opt_text, or_else, same, texts};

verus! {

/// A request.
pub open spec fn request_view(id: int, method: Seq<char>, params: JsonView) -> JsonView {
    JsonView::Object(
        seq![
            ("jsonrpc"@, jstr("2.0"@)),
            ("id"@, JsonView::Int(id)),
            ("method"@, jstr(method)),
            ("params"@, params),
        ],
    )
}

/// A notification, which has no id and no answer.
pub open spec fn notification_view(method: Seq<char>, params: JsonView) -> JsonView {
    JsonView::Object(
        seq![("jsonrpc"@, jstr("2.0"@)), ("method"@, jstr(method)), ("params"@, params)],
    )
}

/// What the client says of itself in a handshake.
pub open spec fn initialize_view(version: Seq<char>) -> JsonView {
    JsonView::Object(
        seq![
            ("protocolVersion"@, jstr(version)),
            ("capabilities"@, jempty()),
            ("clientInfo"@, client_info()),
        ],
    )
}

/// A request.
pub fn rpc_request(id: i64, method: &str, params: Json) -> (r: Json)
    ensures
        r@ == request_view(id as int, method@, params@),
{
    Json::object4(
        "jsonrpc",
        Json::text("2.0"),
        "id",
        Json::Signed(id),
        "method",
        Json::text(method),
        "params",
        params,
    )
}

/// A notification.
pub fn rpc_notification(method: &str, params: Json) -> (r: Json)
    ensures
        r@ == notification_view(method@, params@),
{
    Json::object3("jsonrpc", Json::text("2.0"), "method", Json::text(method), "params", params)
}

/// What the client says of itself in a handshake.
pub fn initialize_params(version: &str) -> (r: Json)
    ensures
        r@ == initialize_view(version@),
{
    Json::object3(
        "protocolVersion",
        Json::text(version),
        "capabilities",
        empty_object(),
        "clientInfo",
        client_info_json(),
    )
}

/// How a failure on a server is introduced.
pub open spec fn server_says(server: Seq<char>, what: Seq<char>) -> Seq<char> {
    "mcp `"@ + server + "` "@ + what
}

/// The text of a failure of one method.
pub open spec fn method_says(server: Seq<char>, method: Seq<char>, what: Seq<char>) -> Seq<char> {
    "mcp `"@ + server + "` `"@ + method + "` "@ + what
}

fn method_error(server: &str, method: &str, what: &str) -> (r: Error)
    ensures
        r.is_mcp(method_says(server@, method@, what@)),
{
    let mut text = cat5("mcp `", server, "` `", method, "` ");
    text.append(what);
    Error::Mcp(text)
}

/// Whether a result is one that can be read: complete, or from a server that
/// does not say.
pub open spec fn is_complete(result: JsonView) -> bool {
    match result.at("resultType"@).text() {
        Some(kind) => kind == "complete"@,
        None => true,
    }
}

/// Why a result cannot be read.
pub open spec fn incomplete_reason(kind: Seq<char>) -> Seq<char> {
    if kind == "input_required"@ {
        "needs input mid-call (multi round-trip requests), which agentyk does not support"@
    } else {
        "returned unknown resultType `"@ + kind + "`"@
    }
}

/// Refuse a result that would otherwise be misread as an empty one.
pub fn check_result_type(server_name: &str, method: &str, result: &Json) -> (r: Result<(), Error>)
    ensures
        r is Ok <==> is_complete(result@),
        r matches Err(e) ==> e.is_mcp(
            method_says(
                server_name@,
                method@,
                incomplete_reason(result@.at("resultType"@).text().unwrap()),
            ),
        ),
{
    let kind = match result.get_str("resultType") {
        Some(kind) => kind,
        None => {
            return Ok(());
        },
    };
    if same(kind, "complete") {
        Ok(())
    } else if same(kind, "input_required") {
        Err(
            method_error(
                server_name,
                method,
                "needs input mid-call (multi round-trip requests), which agentyk does not support",
            ),
        )
    } else {
        let what = crate::text::cat3("returned unknown resultType `", kind, "`");
        Err(method_error(server_name, method, what.as_str()))
    }
}

/// The result that an envelope holds: null when it has none.
pub open spec fn envelope_result(envelope: JsonView) -> JsonView {
    envelope.at("result"@)
}

/// The result of a request: an error that the server reported, or a result
/// that cannot be read, is a failure.
pub fn result_of(server_name: &str, method: &str, response: &Json) -> (r: Result<Json, Error>)
    ensures
        match response@.get("error"@) {
            Some(error) => r matches Err(e) && e.is_mcp(
                method_says(server_name@, method@, "failed: "@ + json_print(error)),
            ),
            None => if is_complete(envelope_result(response@)) {
                r matches Ok(result) && result@ == envelope_result(response@)
            } else {
                r matches Err(e) && e.is_mcp(
                    method_says(
                        server_name@,
                        method@,
                        incomplete_reason(
                            envelope_result(response@).at("resultType"@).text().unwrap(),
                        ),
                    ),
                )
            },
        },
{
    if let Some(error) = response.get("error") {
        let shown = print_json(error);
        let what = crate::text::cat2("failed: ", shown.as_str());
        return Err(method_error(server_name, method, what.as_str()));
    }
    let result = match response.get("result") {
        Some(result) => result.clone(),
        None => Json::Null,
    };
    match check_result_type(server_name, method, &result) {
        Ok(_) => Ok(result),
        Err(e) => Err(e),
    }
}

/// What a server says of itself.
#[derive(Debug)]
pub struct McpServerDiscovery {
    /// The protocol versions it accepts.
    pub supported_versions: Vec<String>,
    /// Its capabilities, as it put them.
    pub capabilities: Json,
    /// Its name and version, as it gave them.
    pub server_info: Option<Json>,
    /// How it wants to be used.
    pub instructions: Option<String>,
}

/// What a server says of itself.
pub fn discovery_from(result: &Json) -> (r: McpServerDiscovery)
    ensures
        texts(r.supported_versions@) == strings_in(result@.at("supportedVersions"@)),
        r.capabilities@ == (match result@.get("capabilities"@) {
            Some(c) => c,
            None => jempty(),
        }),
        match r.server_info {
            Some(info) => result@.at("_meta"@).get(SERVER_INFO_META_KEY@) == Some(info@),
            None => result@.at("_meta"@).get(SERVER_INFO_META_KEY@) is None,
        },
        opt_text(r.instructions) == result@.at("instructions"@).text(),
{
    let capabilities = match result.get("capabilities") {
        Some(c) => c.clone(),
        None => empty_object(),
    };
    let server_info = match result.get("_meta") {
        Some(meta) => match meta.get(SERVER_INFO_META_KEY) {
            Some(info) => Some(info.clone()),
            None => None,
        },
        None => None,
    };
    let instructions = match result.get_str("instructions") {
        Some(s) => Some(s.to_owned()),
        None => None,
    };
    McpServerDiscovery {
        supported_versions: strings_of(result.get("supportedVersions")),
        capabilities,
        server_info,
        instructions,
    }
}

/// A tool as a server lists it; one without a name is none. A tool without a
/// schema takes any object.
pub open spec fn listed_tool(tool: JsonView) -> Option<ToolView> {
    match tool.at("name"@).text() {
        None => None,
        Some(name) => Some(
            ToolView {
                name,
                description: or_else(tool.at("description"@).text(), Seq::empty()),
                parameters: match tool.at("inputSchema"@) {
                    JsonView::Object(members) => JsonView::Object(members),
                    _ => JsonView::Object(seq![("type"@, jstr("object"@))]),
                },
                metadata: JsonView::Null,
            },
        ),
    }
}

/// The tools among the values, in order.
pub open spec fn listed_tools(items: Seq<JsonView>) -> Seq<ToolView>
    decreases items.len(),
{
    if items.len() == 0 {
        Seq::empty()
    } else {
        match listed_tool(items.last()) {
            Some(tool) => listed_tools(items.drop_last()).push(tool),
            None => listed_tools(items.drop_last()),
        }
    }
}

/// The tools that a result lists.
pub open spec fn tools_in(result: JsonView) -> Seq<ToolView> {
    match result.at("tools"@) {
        JsonView::Array(items) => listed_tools(items),
        _ => Seq::empty(),
    }
}

fn parse_tool(tool: &Json) -> (r: Option<ToolDefinition>)
    ensures
        match r {
            Some(t) => listed_tool(tool@) == Some(t@),
            None => listed_tool(tool@) is None,
        },
{
    let name = match tool.get_str("name") {
        Some(name) => name,
        None => {
            return None;
        },
    };
    let description = match tool.get_str("description") {
        Some(d) => d.to_owned(),
        None => String::new(),
    };
    let schema = match tool.get("inputSchema") {
        Some(schema) => if schema.is_object() {
            schema.clone()
        } else {
            Json::object1("type", Json::text("object"))
        },
        None => Json::object1("type", Json::text("object")),
    };
    Some(ToolDefinition::new(name, description.as_str(), schema))
}

/// The tools that a result lists.
pub fn parse_tool_list(result: &Json) -> (r: Vec<ToolDefinition>)
    ensures
        tools_view(r@) == tools_in(result@),
{
    let mut r: Vec<ToolDefinition> = Vec::new();
    assert(tools_view(r@) =~= Seq::<ToolView>::empty());
    let items = match result.get("tools") {
        Some(tools) => match tools.as_array() {
            Some(items) => items,
            None => {
                return r;
            },
        },
        None => {
            return r;
        },
    };
    let ghost all = items_view(items@);
    let mut i: usize = 0;
    while i < items.len()
        invariant
            i <= items@.len(),
            all == items_view(items@),
            tools_view(r@) == listed_tools(all.take(i as int)),
        decreases items.len() - i,
    {
        assert(all.take(i as int + 1).drop_last() =~= all.take(i as int));
        let ghost before = tools_view(r@);
        if let Some(tool) = parse_tool(&items[i]) {
            r.push(tool);
            assert(tools_view(r@) =~= before.push(tool@));
        }
        i += 1;
    }
    assert(all.take(i as int) =~= all);
    r
}

/// The texts of the text blocks among the values, in order.
pub open spec fn block_texts(items: Seq<JsonView>) -> Seq<Seq<char>>
    decreases items.len(),
{
    if items.len() == 0 {
        Seq::empty()
    } else {
        let block = items.last();
        match block.at("text"@).text() {
            Some(text) if block.at("type"@).text() == Some("text"@) => block_texts(
                items.drop_last(),
            ).push(text),
            _ => block_texts(items.drop_last()),
        }
    }
}

/// What a tool call came to, read from its result: its text blocks, a line
/// feed between each two.
pub open spec fn call_outcome(result: JsonView) -> OutputView {
    OutputView {
        content: match result.at("content"@) {
            JsonView::Array(items) => joined(block_texts(items), "\n"@),
            _ => Seq::empty(),
        },
        is_error: result.at("isError"@).boolean() == Some(true),
        metadata: JsonView::Null,
    }
}

fn text_blocks(items: &Vec<Json>) -> (r: Vec<String>)
    ensures
        texts(r@) == block_texts(items_view(items@)),
{
    let mut r: Vec<String> = Vec::new();
    let ghost all = items_view(items@);
    let mut i: usize = 0;
    assert(texts(r@) =~= Seq::<Seq<char>>::empty());
    while i < items.len()
        invariant
            i <= items@.len(),
            all == items_view(items@),
            texts(r@) == block_texts(all.take(i as int)),
        decreases items.len() - i,
    {
        assert(all.take(i as int + 1).drop_last() =~= all.take(i as int));
        let ghost before = texts(r@);
        let block = &items[i];
        let is_text = match block.get_str("type") {
            Some(kind) => same(kind, "text"),
            None => false,
        };
        if is_text {
            if let Some(text) = block.get_str("text") {
                r.push(text.to_owned());
                assert(texts(r@) =~= before.push(text@));
            }
        }
        i += 1;
    }
    assert(all.take(i as int) =~= all);
    r
}

/// What a tool call came to, read from its result.
pub fn parse_tool_result(result: &Json) -> (r: ToolOutput)
    ensures
        r@ == call_outcome(result@),
{
    let content = match result.get("content") {
        Some(blocks) => match blocks.as_array() {
            Some(items) => join(&text_blocks(items), "\n"),
            None => String::new(),
        },
        None => String::new(),
    };
    let is_error = match result.get("isError") {
        Some(flag) => match flag.as_bool() {
            Some(b) => b,
            None => false,
        },
        None => false,
    };
    ToolOutput { content, is_error, metadata: Json::Null }
}

/// The parameters of a tool call.
pub fn call_params(name: &str, arguments: Json) -> (r: Json)
    ensures
        r@ == JsonView::Object(seq![("name"@, jstr(name@)), ("arguments"@, arguments@)]),
{
    Json::object2("name", Json::text(name), "arguments", arguments)
}

/// The tools that are held after a list came in.
pub open spec fn held(
    cache: Option<(Seq<ToolView>, int)>,
    result: JsonView,
    now: int,
) -> Option<(Seq<ToolView>, int)> {
    match freshness(result) {
        Some(ms) => Some((tools_in(result), now + ms)),
        None => cache,
    }
}

/// The tools that can be answered from memory.
pub open spec fn served(cache: Option<(Seq<ToolView>, int)>, now: int) -> Option<Seq<ToolView>> {
    match cache {
        Some((tools, expires_at)) if expires_at > now => Some(tools),
        _ => None,
    }
}

/// The part of a client that does not depend on its transport: request ids,
/// and the tool list while it stays fresh. Times are in milliseconds on a
/// clock that never goes back.
#[derive(Debug)]
pub struct McpClient {
    pub server_name: String,
    /// The id of the next request.
    pub next_id: i64,
    /// The tools that are held, and when they expire.
    pub cached: Option<(Vec<ToolDefinition>, u128)>,
}

impl McpClient {
    /// The tools that are held, and when they expire.
    pub open spec fn cache_view(&self) -> Option<(Seq<ToolView>, int)> {
        match self.cached {
            Some((tools, expires_at)) => Some((tools_view(tools@), expires_at as int)),
            None => None,
        }
    }

    /// A client that has asked nothing yet.
    pub fn new(server_name: &str) -> (r: Self)
        ensures
            r.server_name@ == server_name@,
            r.next_id == 1,
            r.cache_view() is None,
    {
        McpClient { server_name: server_name.to_owned(), next_id: 1, cached: None }
    }

    /// The id of the next request. Ids count up, and start over after the
    /// greatest.
    pub fn take_id(&mut self) -> (r: i64)
        ensures
            r == old(self).next_id,
            final(self).next_id == if r == i64::MAX {
                i64::MIN as int
            } else {
                r + 1
            },
            final(self).server_name == old(self).server_name,
            final(self).cache_view() == old(self).cache_view(),
    {
        let id = self.next_id;
        self.next_id = if id == i64::MAX {
            i64::MIN
        } else {
            id + 1
        };
        id
    }

    /// The tools that are held, while they are fresh.
    pub fn cached_tools(&self, now: u64) -> (r: Option<Vec<ToolDefinition>>)
        ensures
            match served(self.cache_view(), now as int) {
                Some(tools) => r matches Some(t) && tools_view(t@) == tools,
                None => r is None,
            },
    {
        match &self.cached {
            Some((tools, expires_at)) => if *expires_at > now as u128 {
                Some(clone_tools(tools))
            } else {
                None
            },
            None => None,
        }
    }

    /// The tools that a server listed. They are held for as long as the server
    /// said; a server that gave no hint is asked again every time.
    pub fn tools_listed(&mut self, result: &Json, now: u64) -> (r: Vec<ToolDefinition>)
        ensures
            tools_view(r@) == tools_in(result@),
            final(self).cache_view() == held(old(self).cache_view(), result@, now as int),
            final(self).next_id == old(self).next_id,
            final(self).server_name == old(self).server_name,
    {
        let tools = parse_tool_list(result);
        if let Some(ms) = cache_ttl(result) {
            self.cached = Some((clone_tools(&tools), now as u128 + ms as u128));
        }
        tools
    }
}

/// A tool list that came with a freshness hint is answered from memory until
/// it expires, and has to be asked for again from then on; one that came
/// without a hint is never answered from memory.
pub proof fn tools_are_served_while_fresh(result: JsonView, listed_at: int, now: int)
    ensures
        served(held(None, result, listed_at), now) == match freshness(result) {
            Some(ms) if now < listed_at + ms => Some(tools_in(result)),
            _ => None,
        },
{
}

/// A copy of a list of tools.
pub fn clone_tools(tools: &Vec<ToolDefinition>) -> (r: Vec<ToolDefinition>)
    ensures
        tools_view(r@) == tools_view(tools@),
{
    let mut r: Vec<ToolDefinition> = Vec::new();
    let mut i: usize = 0;
    while i < tools.len()
        invariant
            r@.len() == i <= tools@.len(),
            forall|k: int| 0 <= k < i ==> (#[trigger] r@[k])@ == tools@[k]@,
        decreases tools.len() - i,
    {
        let t = &tools[i];
        r.push(
            ToolDefinition {
                name: t.name.clone(),
                description: t.description.clone(),
                parameters: t.parameters.clone(),
                metadata: t.metadata.clone(),
            },
        );
        i += 1;
    }
    assert(tools_view(r@) =~= tools_view(tools@));
    r
}

} // verus!
