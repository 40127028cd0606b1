//! What a client reads out of a server's answers, and what it says to it.

use vstd::prelude::*;

use crate::json::{jempty, JsonView};
use crate::mcp::client::{block_texts, call_outcome, held, incomplete_reason, initialize_view,
    is_complete, listed_tools, method_says, notification_view, request_view, served, tools_in};
use crate::mcp::protocol::client_info;
use crate::members::{differ, member_of_one, members_of_four, members_of_three};
use crate::message::ToolView;
use crate::text::{has_text, joined, occurs_at};

verus! {

/// Whether a tool is what a server's item says of it: its name, its
/// description where it has one, and the schema of its arguments where that is
/// an object; without one it takes any object.
pub open spec fn offers(tool: ToolView, item: JsonView) -> bool {
    &&& item.at("name"@) == JsonView::Str(tool.name)
    &&& item.at("description"@) is Str ==> item.at("description"@) == JsonView::Str(
        tool.description,
    )
    &&& item.at("description"@) !is Str ==> tool.description.len() == 0
    &&& item.at("inputSchema"@) is Object ==> tool.parameters == item.at("inputSchema"@)
    &&& item.at("inputSchema"@) !is Object ==> {
        &&& tool.parameters is Object
        &&& tool.parameters.at("type"@) == JsonView::Str("object"@)
        &&& forall|key: Seq<char>| key != "type"@ ==> (#[trigger] tool.parameters.get(key)) is None
    }
    &&& tool.metadata is Null
}

proof fn lemma_listed(items: Seq<JsonView>)
    ensures
        ({
            let named = items.filter(|item: JsonView| item.at("name"@) is Str);
            &&& listed_tools(items).len() == named.len()
            &&& forall|k: int|
                0 <= k < named.len() ==> offers(#[trigger] listed_tools(items)[k], named[k])
        }),
    decreases items.len(),
{
    reveal(Seq::filter);
    member_of_one("type"@, JsonView::Str("object"@));
    if items.len() > 0 {
        lemma_listed(items.drop_last());
    }
}

/// Every item with a name that a server lists is offered as a tool, in order,
/// with the schema that the server gave it, and nothing else is offered.
pub proof fn every_named_tool_is_offered(result: JsonView)
    ensures
        match result.at("tools"@) {
            JsonView::Array(items) => {
                let named = items.filter(|item: JsonView| item.at("name"@) is Str);
                &&& tools_in(result).len() == named.len()
                &&& forall|k: int|
                    0 <= k < named.len() ==> offers(#[trigger] tools_in(result)[k], named[k])
            },
            _ => tools_in(result).len() == 0,
        },
{
    if let JsonView::Array(items) = result.at("tools"@) {
        lemma_listed(items);
    }
}

/// A tool that a server lists with a schema can be called with arguments of
/// that schema: a tool of that name is offered, whose parameters are the
/// schema.
pub proof fn a_schema_is_passed_on(result: JsonView, items: Seq<JsonView>, i: int)
    requires
        result.at("tools"@) == JsonView::Array(items),
        0 <= i < items.len(),
        items[i].at("name"@) is Str,
        items[i].at("inputSchema"@) is Object,
    ensures
        exists|k: int|
            0 <= k < tools_in(result).len() && JsonView::Str((#[trigger] tools_in(result)[k]).name)
                == items[i].at("name"@) && tools_in(result)[k].parameters == items[i].at(
                "inputSchema"@,
            ),
{
    let pred = |item: JsonView| item.at("name"@) is Str;
    let named = items.filter(pred);
    every_named_tool_is_offered(result);
    items.lemma_filter_contains(pred, i);
    let k = choose|k: int| 0 <= k < named.len() && named[k] == items[i];
    assert(offers(tools_in(result)[k], named[k]));
}

/// What a call came to holds the text of each of its text blocks, in order, a
/// line feed between each two, and is a failure if and only if the server said
/// so.
pub proof fn a_call_comes_to_its_texts(result: JsonView)
    ensures
        ({
            let outcome = call_outcome(result);
            &&& outcome.is_error <==> result.at("isError"@) == JsonView::Bool(true)
            &&& outcome.metadata is Null
            &&& match result.at("content"@) {
                JsonView::Array(items) => {
                    let spoken = items.filter(
                        |b: JsonView|
                            b.at("type"@) == JsonView::Str("text"@) && b.at("text"@) is Str,
                    );
                    outcome.content == joined(
                        Seq::new(spoken.len(), |k: int| spoken[k].at("text"@)->Str_0),
                        "\n"@,
                    )
                },
                _ => outcome.content.len() == 0,
            }
        }),
{
    if let JsonView::Array(items) = result.at("content"@) {
        lemma_block_texts(items);
        let spoken = items.filter(
            |b: JsonView| b.at("type"@) == JsonView::Str("text"@) && b.at("text"@) is Str,
        );
        assert(block_texts(items) =~= Seq::new(
            spoken.len(),
            |k: int| spoken[k].at("text"@)->Str_0,
        ));
    }
}

proof fn lemma_block_texts(items: Seq<JsonView>)
    ensures
        ({
            let spoken = items.filter(
                |b: JsonView| b.at("type"@) == JsonView::Str("text"@) && b.at("text"@) is Str,
            );
            &&& block_texts(items).len() == spoken.len()
            &&& forall|k: int|
                0 <= k < spoken.len() ==> JsonView::Str(#[trigger] block_texts(items)[k])
                    == spoken[k].at("text"@)
        }),
    decreases items.len(),
{
    reveal(Seq::filter);
    if items.len() > 0 {
        lemma_block_texts(items.drop_last());
    }
}

/// A request names its method, carries its parameters and an id to answer to;
/// a notification does so without an id.
pub proof fn requests_say_what_is_asked(id: int, method: Seq<char>, params: JsonView)
    ensures
        ({
            let asked = request_view(id, method, params);
            &&& asked.at("jsonrpc"@) == JsonView::Str("2.0"@)
            &&& asked.at("id"@) == JsonView::Int(id)
            &&& asked.at("method"@) == JsonView::Str(method)
            &&& asked.at("params"@) == params
        }),
        ({
            let told = notification_view(method, params);
            &&& told.at("jsonrpc"@) == JsonView::Str("2.0"@)
            &&& told.get("id"@) is None
            &&& told.at("method"@) == JsonView::Str(method)
            &&& told.at("params"@) == params
        }),
{
    reveal_strlit("jsonrpc");
    reveal_strlit("id");
    reveal_strlit("method");
    reveal_strlit("params");
    members_of_four(
        "jsonrpc"@,
        JsonView::Str("2.0"@),
        "id"@,
        JsonView::Int(id),
        "method"@,
        JsonView::Str(method),
        "params"@,
        params,
    );
    members_of_three(
        "jsonrpc"@,
        JsonView::Str("2.0"@),
        "method"@,
        JsonView::Str(method),
        "params"@,
        params,
    );
    let told = notification_view(method, params);
    assert(differ("id"@, "jsonrpc"@) && differ("id"@, "method"@) && differ("id"@, "params"@));
    assert(told.get("id"@) is None);
}

/// A handshake names the version that the client speaks, and the client.
pub proof fn a_handshake_names_the_version(version: Seq<char>)
    ensures
        ({
            let said = initialize_view(version);
            &&& said.at("protocolVersion"@) == JsonView::Str(version)
            &&& said.at("capabilities"@) == JsonView::Object(Seq::empty())
            &&& said.at("clientInfo"@) == client_info()
        }),
{
    reveal_strlit("protocolVersion");
    reveal_strlit("capabilities");
    reveal_strlit("clientInfo");
    members_of_three(
        "protocolVersion"@,
        JsonView::Str(version),
        "capabilities"@,
        jempty(),
        "clientInfo"@,
        client_info(),
    );
}

/// A result is read where it says that it is complete, or says nothing of it.
pub proof fn only_a_complete_result_is_read(result: JsonView)
    ensures
        result.at("resultType"@) == JsonView::Str("complete"@) ==> is_complete(result),
        result.get("resultType"@) is None ==> is_complete(result),
        forall|kind: Seq<char>|
            kind != "complete"@ && result.at("resultType"@) == JsonView::Str(kind)
                ==> !is_complete(result),
{
}

/// The reason against a result of an unknown kind names the kind.
pub proof fn an_unknown_kind_is_named(kind: Seq<char>)
    requires
        kind != "input_required"@,
    ensures
        has_text(incomplete_reason(kind), "`"@ + kind + "`"@),
{
    let lead = "returned unknown resultType `"@;
    reveal_strlit("returned unknown resultType `");
    reveal_strlit("`");
    let quoted = "`"@ + kind + "`"@;
    let i = lead.len() - 1;
    assert(incomplete_reason(kind).subrange(i, i + quoted.len()) =~= quoted);
    assert(occurs_at(incomplete_reason(kind), quoted, i));
}

/// A failure of a method names the server and the method, and ends in what
/// went wrong.
pub proof fn failures_name_server_and_method(
    server: Seq<char>,
    method: Seq<char>,
    what: Seq<char>,
)
    ensures
        has_text(method_says(server, method, what), "`"@ + server + "`"@),
        has_text(method_says(server, method, what), "`"@ + method + "`"@),
        method_says(server, method, what).skip(method_says(server, method, what).len() - what.len())
            == what,
{
    let said = method_says(server, method, what);
    reveal_strlit("mcp `");
    reveal_strlit("` `");
    reveal_strlit("` ");
    reveal_strlit("`");
    let a = "`"@ + server + "`"@;
    let b = "`"@ + method + "`"@;
    assert(said.subrange(4int, 4int + a.len() as int) =~= a);
    assert(occurs_at(said, a, 4));
    let j = 7 + server.len() as int;
    assert(said.subrange(j, j + b.len()) =~= b);
    assert(occurs_at(said, b, j));
    assert(said.skip(said.len() - what.len()) =~= what);
}

/// A list without a freshness hint leaves what is held as it was; what is held
/// is answered until its time is up, and as it was held.
pub proof fn held_tools_are_answered_as_they_were(
    tools: Seq<ToolView>,
    expires_at: int,
    now: int,
)
    ensures
        now < expires_at ==> served(Some((tools, expires_at)), now) == Some(tools),
        now >= expires_at ==> served(Some((tools, expires_at)), now) is None,
        served(None, now) is None,
        forall|result: JsonView|
            result.get("ttlMs"@) is None ==> (#[trigger] held(
                Some((tools, expires_at)),
                result,
                now,
            )) == Some((tools, expires_at)),
{
}

} // verus!
