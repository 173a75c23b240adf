//! What a call of the search tool comes to, from its arguments to its answer: which names it
//! lists, which tools it activates and what it shows.

use crate::catalog;
use crate::json::{self, Json, JsonNumber};
use crate::laws;
use crate::mcp_deferred::DeferredMcpToolSet;
use crate::native_deferred::{self, DeferredNativeToolSet, DeferredNativeToolStub};
use crate::search_laws::{self, are_the_best, matching};
use crate::text;
use crate::text_laws::{self, bare, blank};
use crate::tool::{Tool, ToolResult, ToolSpec, ToolSpecView};
use crate::tool_search::{self, Plan, PlanView, ToolSearchTool};
use std::sync::Arc;
use vstd::prelude::*;

verus! {

/// Whether some text starts with another.
pub open spec fn starts_with(s: Seq<char>, start: Seq<char>) -> bool {
    start.len() <= s.len() && forall|i: int| 0 <= i < start.len() ==> #[trigger] s[i] == start[i]
}

/// Whether some text ends with another.
pub open spec fn ends_with(s: Seq<char>, end: Seq<char>) -> bool {
    end.len() <= s.len() && forall|i: int|
        0 <= i < end.len() ==> #[trigger] end[i] == s[s.len() - end.len() + i]
}

/// The arguments of a call are read in full. The query is the whole text under `query`, and the
/// limit is the number under `max_results`, whatever it is; anything else counts as absent.
pub proof fn law_arguments_are_read(members: Map<Seq<char>, Json>, t: Seq<char>, n: u64)
    ensures
        tool_search::query_in(Json::Object(members)) == Some(t) <==> members.contains_key("query"@)
            && members["query"@] == Json::Text(t),
        tool_search::query_in(Json::Object(members)) is None <==> !(members.contains_key("query"@)
            && members["query"@] is Text),
        tool_search::max_results_in(Json::Object(members)) == Some(n) <==> members.contains_key(
            "max_results"@,
        ) && members["max_results"@] == Json::Number(JsonNumber::Natural(n)),
        tool_search::max_results_in(Json::Object(members)) is None <==> !(members.contains_key(
            "max_results"@,
        ) && members["max_results"@] is Number && members["max_results"@]->Number_0 is Natural),
{
}

/// Where the arguments of a call are no object, it has neither a query nor a limit.
pub proof fn law_arguments_without_members(args: Json)
    requires
        !(args is Object),
    ensures
        tool_search::query_in(args) is None,
        tool_search::max_results_in(args) is None,
{
}

/// An object has the members that its pairs give it, each in full.
pub proof fn law_object_has_its_pairs(
    pairs: Seq<(Seq<char>, Json)>,
    key: Seq<char>,
    content: Json,
    other: Seq<char>,
)
    ensures
        json::member_of(json::object_with(Seq::empty()), other) is None,
        json::member_of(json::object_with(pairs.push((key, content))), key) == Some(content),
        key != other ==> json::member_of(json::object_with(pairs.push((key, content))), other)
            == json::member_of(json::object_with(pairs), other),
{
    assert(pairs.push((key, content)).drop_last() =~= pairs);
}

/// A list of keys and values is read pair by pair.
pub proof fn law_pairs_are_read_in_full(pairs: Seq<(String, serde_json::Value)>)
    ensures
        json::pairs_of(pairs).len() == pairs.len(),
        forall|i: int|
            0 <= i < pairs.len() ==> (#[trigger] json::pairs_of(pairs)[i]).0 == pairs[i].0@
                && json::pairs_of(pairs)[i].1 == json::json(pairs[i].1),
{
}

/// The content of an outcome, of a specification and of a plan is all that they hold.
pub proof fn law_contents_are_read_in_full(result: ToolResult, spec_of: ToolSpec, plan: Plan)
    ensures
        result@.success == result.success,
        result@.output == result.output@,
        result.error is None <==> result@.error is None,
        result.error is Some ==> result@.error == Some(result.error->0@),
        spec_of@.name == spec_of.name@,
        spec_of@.description == spec_of.description@,
        spec_of@.parameters == json::json(spec_of.parameters),
        match plan {
            Plan::Reply(reply) => plan@ == PlanView::Reply(reply@),
            Plan::Select(names) => plan@ is Select && plan@->Select_0.len() == names@.len()
                && forall|i: int|
                0 <= i < names@.len() ==> #[trigger] plan@->Select_0[i] == names@[i]@,
            Plan::Activate(names) => plan@ is Activate && plan@->Activate_0.len() == names@.len()
                && forall|i: int|
                0 <= i < names@.len() ==> #[trigger] plan@->Activate_0[i] == names@[i]@,
        },
{
}

/// What the search tool tells of itself: its name, and a schema that asks for an object with the
/// text `query`, which is required, and the number `max_results`, which is five by default.
pub proof fn law_search_tool_tells_its_arguments<T: ?Sized + Tool>(tool: ToolSearchTool<T>)
    ensures
        tool.described().name == "tool_search"@,
        ({
            let schema = tool.described().parameters;
            let properties = json::member_of(schema, "properties"@)->0;
            let query = json::member_of(properties, "query"@)->0;
            let limit = json::member_of(properties, "max_results"@)->0;
            &&& json::member_of(schema, "type"@) == Some(Json::Text("object"@))
            &&& json::member_of(schema, "properties"@) is Some
            &&& json::member_of(schema, "required"@) == Some(Json::Array(seq![Json::Text("query"@)]))
            &&& json::member_of(properties, "query"@) is Some
            &&& json::member_of(properties, "max_results"@) is Some
            &&& json::member_of(query, "type"@) == Some(Json::Text("string"@))
            &&& json::member_of(limit, "type"@) == Some(Json::Text("number"@))
            &&& json::member_of(limit, "default"@) == Some(
                Json::Number(JsonNumber::Natural(5)),
            )
        }),
{
    reveal_strlit("description");
    reveal_strlit("type");
    reveal_strlit("default");
    reveal_strlit("query");
    reveal_strlit("max_results");
    reveal_strlit("properties");
    reveal_strlit("required");
    reveal_with_fuel(json::members_from, 4);
    assert("type"@.len() != "properties"@.len() && "type"@.len() != "required"@.len()
        && "properties"@.len() != "required"@.len());
    assert("query"@.len() != "max_results"@.len());
    assert("description"@.len() != "type"@.len() && "default"@.len() != "type"@.len()
        && "default"@.len() != "description"@.len());
}

/// The stub of a tool has the tool's whole name and whole description, and the tool itself.
pub proof fn law_stub_has_all_of_its_tool<T: ?Sized + Tool>(
    stub: DeferredNativeToolStub<T>,
    tool: Arc<T>,
)
    ensures
        stub.captures(tool) <==> stub.name@ == tool.described().name && stub.description@
            == tool.described().description && stub.tool == tool,
{
}

/// A set that holds the stub of a tool, and no earlier stub with its name, gives the tool under
/// the tool's own name.
pub proof fn law_registered_tool_is_given_by_name<T: ?Sized + Tool>(
    set: DeferredNativeToolSet<T>,
    i: int,
    tool: Arc<T>,
)
    requires
        0 <= i < set.stubs@.len(),
        set.stubs@[i].captures(tool),
        forall|j: int| 0 <= j < i ==> (#[trigger] set.stubs@[j]).name@ != tool.described().name,
    ensures
        set.named(tool.described().name) is Some,
        set.named(tool.described().name)->0.tool == tool,
{
    laws::law_native_stub_found_by_name(set, i);
}

/// The debug form of a stub is its quoted name and its quoted description, both in full, in a
/// fixed frame.
pub proof fn law_debug_form_has_name_and_description(name: Seq<char>, description: Seq<char>)
    ensures
        ({
            let all = native_deferred::stub_debug(name, description);
            let head = "DeferredNativeToolStub { name: "@;
            let middle = ", description: "@;
            let tail = ", .. }"@;
            &&& all.len() == head.len() + name.len() + middle.len() + description.len()
                + tail.len()
            &&& starts_with(all, head + name + middle)
            &&& ends_with(all, middle + description + tail)
        }),
{
}

/// The catalogs of the search tool are what its sets hold: an entry for every stub, in order, and
/// none where there is no set.
pub proof fn law_every_deferred_stub_is_searched<T: ?Sized + Tool>(tool: ToolSearchTool<T>)
    ensures
        match tool.mcp() {
            Some(set) => tool.mcp_catalog().len() == set.stubs@.len() && forall|i: int|
                0 <= i < set.stubs@.len() ==> (#[trigger] tool.mcp_catalog()[i]).name
                    == set.stubs@[i].prefixed_name@ && tool.mcp_catalog()[i].description
                    == set.stubs@[i].description@,
            None => tool.mcp_catalog().len() == 0,
        },
        match tool.native() {
            Some(set) => tool.native_catalog().len() == set.stubs@.len() && forall|i: int|
                0 <= i < set.stubs@.len() ==> (#[trigger] tool.native_catalog()[i]).name
                    == set.stubs@[i].name@ && tool.native_catalog()[i].description
                    == set.stubs@[i].description@,
            None => tool.native_catalog().len() == 0,
        },
{
}

/// Whether a tool is that of the first native stub with a name.
pub open spec fn is_first_native<T: ?Sized + Tool>(
    set: DeferredNativeToolSet<T>,
    name: Seq<char>,
    tool: Arc<T>,
) -> bool {
    exists|i: int|
        0 <= i < set.stubs@.len() && (#[trigger] set.stubs@[i]).name@ == name && set.stubs@[i].tool
            == tool && forall|j: int| 0 <= j < i ==> (#[trigger] set.stubs@[j]).name@ != name
}

/// Whether a tool is that of the first MCP stub with a name.
pub open spec fn is_first_mcp<T: ?Sized + Tool>(
    set: DeferredMcpToolSet<T>,
    name: Seq<char>,
    tool: Arc<T>,
) -> bool {
    exists|i: int|
        0 <= i < set.stubs@.len() && (#[trigger] set.stubs@[i]).prefixed_name@ == name
            && set.stubs@[i].tool == tool && forall|j: int|
            0 <= j < i ==> (#[trigger] set.stubs@[j]).prefixed_name@ != name
}

/// Whether no native stub has a name.
pub open spec fn no_native_has<T: ?Sized + Tool>(tool: ToolSearchTool<T>, name: Seq<char>) -> bool {
    tool.native() is Some ==> forall|i: int|
        0 <= i < tool.native()->0.stubs@.len() ==> (#[trigger] tool.native()->0.stubs@[i]).name@
            != name
}

/// Whether no MCP stub has a name.
pub open spec fn no_mcp_has<T: ?Sized + Tool>(tool: ToolSearchTool<T>, name: Seq<char>) -> bool {
    tool.mcp() is Some ==> forall|i: int|
        0 <= i < tool.mcp()->0.stubs@.len() ==> (
        #[trigger] tool.mcp()->0.stubs@[i]).prefixed_name@ != name
}

/// A name stands for the tool of the first native stub that has this very name. Where no native
/// stub has it, it stands for the tool of the first MCP stub that does, and where none of these
/// does either, for no tool.
pub proof fn law_name_stands_for_the_stub_that_has_it<T: ?Sized + Tool>(
    tool: ToolSearchTool<T>,
    name: Seq<char>,
)
    ensures
        match tool.resolve(name) {
            Some(found) => {
                ||| tool.native() is Some && is_first_native(tool.native()->0, name, found)
                ||| no_native_has(tool, name) && tool.mcp() is Some && is_first_mcp(
                    tool.mcp()->0,
                    name,
                    found,
                )
            },
            None => no_native_has(tool, name) && no_mcp_has(tool, name),
        },
{
    if let Some(set) = tool.native() {
        search_laws::law_native_lookup_is_exact(set, name);
    }
    if let Some(set) = tool.mcp() {
        search_laws::law_mcp_lookup_is_exact(set, name);
    }
}

/// Activating one name puts the tool that it stands for under it, unless a tool is there already
/// or it stands for none. Activating no name changes nothing, and the names of two lists are
/// activated as those of the one and then those of the other, however many there are.
pub proof fn law_activation_name_by_name<T: ?Sized + Tool>(
    tool: ToolSearchTool<T>,
    live: Map<Seq<char>, Arc<T>>,
    name: Seq<char>,
    first: Seq<Seq<char>>,
    second: Seq<Seq<char>>,
)
    ensures
        tool.activated(live, seq![name]) == if !live.contains_key(name) && tool.resolve(
            name,
        ) is Some {
            live.insert(name, tool.resolve(name)->0)
        } else {
            live
        },
        tool.is_fresh(live, name) <==> !live.contains_key(name) && tool.activated(
            live,
            seq![name],
        ).contains_key(name),
        tool.activated(live, Seq::empty()) == live,
        tool.activated(live, first + second) == tool.activated(tool.activated(live, first), second),
{
    assert(seq![name].contains(name)) by {
        assert(seq![name][0] == name);
    }
    assert(tool.activated(live, seq![name]) =~= if !live.contains_key(name) && tool.resolve(
        name,
    ) is Some {
        live.insert(name, tool.resolve(name)->0)
    } else {
        live
    });
    assert(tool.activated(live, Seq::empty()) =~= live);
    laws::lemma_activate_both(tool, live, first, second);
}

/// After a plan was carried out, a tool is activated under a name exactly where one was before, or
/// where the plan lists the name and it stands for a deferred tool. A selection leaves the empty
/// name aside.
pub proof fn law_what_is_activated_after<T: ?Sized + Tool>(
    tool: ToolSearchTool<T>,
    live: Map<Seq<char>, Arc<T>>,
    plan: PlanView,
    name: Seq<char>,
)
    ensures
        ({
            let after = tool.live_after(live, plan);
            let listed = match plan {
                PlanView::Reply(_) => false,
                PlanView::Select(names) => name.len() > 0 && names.contains(name),
                PlanView::Activate(names) => names.contains(name),
            };
            &&& after.contains_key(name) <==> live.contains_key(name) || (listed && tool.resolve(
                name,
            ) is Some)
            &&& live.contains_key(name) ==> after[name] == live[name]
            &&& !live.contains_key(name) && after.contains_key(name) ==> Some(after[name])
                == tool.resolve(name)
        }),
{
    if let PlanView::Select(names) = plan {
        laws::lemma_requested::<T>(names, name);
    }
}

/// The block of a tool ends with the whole text of its schema and the closing tag, whatever the
/// length of the text, and starts with the opening tag and the whole name. Between them stands
/// the escaped description, all of it.
pub proof fn law_block_holds_name_description_and_schema(
    name: Seq<char>,
    description: Seq<char>,
    parameters: Seq<char>,
)
    ensures
        ({
            let block = tool_search::function_block(name, description, parameters);
            let head = "<function>{\"name\": \""@ + name + "\", \"description\": \""@;
            let middle = text::escaped(description);
            let tail = "\", \"parameters\": "@ + parameters + "}</function>\n"@;
            &&& starts_with(block, head)
            &&& ends_with(block, tail)
            &&& ends_with(block, parameters + "}</function>\n"@)
            &&& block.len() == head.len() + middle.len() + tail.len()
            &&& forall|i: int|
                0 <= i < middle.len() ==> #[trigger] middle[i] == block[head.len() + i]
        }),
{
    let block = tool_search::function_block(name, description, parameters);
    let close = "}</function>\n"@;
    let end = parameters + close;
    assert forall|i: int| 0 <= i < end.len() implies #[trigger] end[i] == block[block.len()
        - end.len() + i] by {}
}

/// Two tools with the same name and description whose schemas have different texts have different
/// blocks. So do two that differ in the name alone.
pub proof fn law_different_tools_have_different_blocks(
    name: Seq<char>,
    other_name: Seq<char>,
    description: Seq<char>,
    p: Seq<char>,
    q: Seq<char>,
)
    ensures
        p != q ==> tool_search::function_block(name, description, p)
            != tool_search::function_block(name, description, q),
        name != other_name ==> tool_search::function_block(name, description, p)
            != tool_search::function_block(other_name, description, p),
{
    if p != q {
        let a = tool_search::function_block(name, description, p);
        let b = tool_search::function_block(name, description, q);
        if a == b {
            law_block_holds_name_description_and_schema(name, description, p);
            law_block_holds_name_description_and_schema(name, description, q);
            assert(p.len() == q.len());
            let s = p + "}</function>\n"@;
            let t = q + "}</function>\n"@;
            assert forall|i: int| 0 <= i < p.len() implies p[i] == q[i] by {
                assert(s[i] == p[i] && t[i] == q[i]);
            }
            assert(p =~= q);
        }
    }
    if name != other_name {
        let a = tool_search::function_block(name, description, p);
        let b = tool_search::function_block(other_name, description, p);
        if a == b {
            law_block_holds_name_description_and_schema(name, description, p);
            law_block_holds_name_description_and_schema(other_name, description, p);
            assert(name.len() == other_name.len());
            let open = "<function>{\"name\": \""@;
            let s = open + name + "\", \"description\": \""@;
            let t = open + other_name + "\", \"description\": \""@;
            assert forall|i: int| 0 <= i < name.len() implies name[i] == other_name[i] by {
                assert(s[open.len() + i] == name[i] && t[open.len() + i] == other_name[i]);
                assert(a[open.len() + i] == s[open.len() + i]);
                assert(b[open.len() + i] == t[open.len() + i]);
            }
            assert(name =~= other_name);
        }
    }
}

/// The block of a tool shows its name, its description and its schema as JSON text, each in full.
pub proof fn law_tool_is_shown_in_full(shown: ToolSpecView)
    ensures
        ({
            let block = tool_search::block_of(shown);
            let head = "<function>{\"name\": \""@ + shown.name + "\", \"description\": \""@;
            let tail = "\", \"parameters\": "@ + json::rendered(shown.parameters)
                + "}</function>\n"@;
            &&& starts_with(block, head + text::escaped(shown.description))
            &&& ends_with(block, tail)
            &&& block.len() == head.len() + text::escaped(shown.description).len() + tail.len()
        }),
{
    law_block_holds_name_description_and_schema(
        shown.name,
        shown.description,
        json::rendered(shown.parameters),
    );
}

/// A name is shown by the block of the tool that it stands for, and by nothing where it stands for
/// none. The blocks of two lists are those of the one and then those of the other, however many
/// there are.
pub proof fn law_blocks_name_by_name<T: ?Sized + Tool>(
    tool: ToolSearchTool<T>,
    name: Seq<char>,
    first: Seq<Seq<char>>,
    second: Seq<Seq<char>>,
)
    ensures
        tool.blocks(Seq::empty()).len() == 0,
        tool.resolve(name) is Some ==> tool.blocks(seq![name]) == tool_search::block_of(
            tool.resolve(name)->0.described(),
        ),
        tool.resolve(name) is None ==> tool.blocks(seq![name]).len() == 0,
        tool.blocks(first + second) == tool.blocks(first) + tool.blocks(second),
{
    assert(seq![name].drop_last() =~= Seq::empty());
    assert(tool.blocks(seq![name].drop_last()) =~= Seq::empty());
    assert(tool.resolve(name) is Some ==> tool.blocks(seq![name]) =~= tool_search::block_of(
        tool.resolve(name)->0.described(),
    ));
    laws::lemma_blocks_of_both(tool, first, second);
}

/// Of a list, every name that is not empty is requested, in order and as often as it is listed.
pub proof fn law_requests_name_by_name<T: ?Sized + Tool>(
    name: Seq<char>,
    first: Seq<Seq<char>>,
    second: Seq<Seq<char>>,
)
    ensures
        ToolSearchTool::<T>::requested(Seq::empty()).len() == 0,
        name.len() > 0 ==> ToolSearchTool::<T>::requested(seq![name]) == seq![name],
        name.len() == 0 ==> ToolSearchTool::<T>::requested(seq![name]).len() == 0,
        ToolSearchTool::<T>::requested(first + second) == ToolSearchTool::<T>::requested(first)
            + ToolSearchTool::<T>::requested(second),
{
    reveal(Seq::filter);
    let filled = |name: Seq<char>| name.len() > 0;
    assert(seq![name].drop_last() =~= Seq::empty());
    assert(ToolSearchTool::<T>::requested(seq![name].drop_last()) =~= Seq::empty());
    if name.len() > 0 {
        assert(ToolSearchTool::<T>::requested(seq![name]) =~= seq![name]);
    }
    Seq::filter_distributes_over_add(first, second, filled);
}

/// Of a list, every name that stands for no tool and under which none is activated is missing, in
/// order and as often as it is listed.
pub proof fn law_missing_name_by_name<T: ?Sized + Tool>(
    tool: ToolSearchTool<T>,
    live: Map<Seq<char>, Arc<T>>,
    name: Seq<char>,
    first: Seq<Seq<char>>,
    second: Seq<Seq<char>>,
)
    ensures
        tool.missing(live, Seq::empty()).len() == 0,
        tool.resolve(name) is None && !live.contains_key(name) ==> tool.missing(live, seq![name])
            == seq![name],
        tool.resolve(name) is Some || live.contains_key(name) ==> tool.missing(
            live,
            seq![name],
        ).len() == 0,
        tool.missing(live, first + second) == tool.missing(live, first) + tool.missing(
            live,
            second,
        ),
{
    reveal(Seq::filter);
    let unknown = |name: Seq<char>| tool.resolve(name) is None && !live.contains_key(name);
    assert(seq![name].drop_last() =~= Seq::empty());
    assert(tool.missing(live, seq![name].drop_last()) =~= Seq::empty());
    if unknown(name) {
        assert(tool.missing(live, seq![name]) =~= seq![name]);
    }
    Seq::filter_distributes_over_add(first, second, unknown);
}

/// What a plan is answered. A known answer is given as it is. Otherwise the call succeeds without
/// an error, and the output is the blocks of the listed tools in one pair of tags. Behind them a
/// selection tells the names that were not found, all of them, where there are any.
pub proof fn law_what_a_plan_is_answered<T: ?Sized + Tool>(
    tool: ToolSearchTool<T>,
    live: Map<Seq<char>, Arc<T>>,
    plan: PlanView,
)
    ensures
        ({
            let answer = tool.answer(live, plan);
            match plan {
                PlanView::Reply(result) => answer == result,
                PlanView::Select(names) => {
                    let asked = names.filter(|name: Seq<char>| name.len() > 0);
                    let lost = tool.missing(live, asked);
                    let shown = "<functions>\n"@ + tool.blocks(asked) + "</functions>\n"@;
                    &&& answer.success && answer.error is None
                    &&& starts_with(answer.output, shown)
                    &&& lost.len() == 0 ==> answer.output.len() == shown.len()
                    &&& lost.len() > 0 ==> answer.output.skip(shown.len() as int)
                        == "\nNot found: "@ + text::joined(lost, ", "@)
                },
                PlanView::Activate(names) => answer.success && answer.error is None
                    && answer.output == "<functions>\n"@ + tool.blocks(names) + "</functions>\n"@,
            }
        }),
{
    if let PlanView::Select(names) = plan {
        let asked = names.filter(|name: Seq<char>| name.len() > 0);
        let lost = tool.missing(live, asked);
        let shown = "<functions>\n"@ + tool.blocks(asked) + "</functions>\n"@;
        if lost.len() > 0 {
            assert(tool.answer(live, plan).output.skip(shown.len() as int) =~= "\nNot found: "@
                + text::joined(lost, ", "@));
        }
    }
}

/// White space behind some text does not change what trimming leaves of it.
pub(crate) proof fn lemma_trim_more(s: Seq<char>, c: char)
    requires
        text::white(c),
    ensures
        text::trimmed(s.push(c)) == text::trimmed(s),
{
    text_laws::law_trimming_leaves_the_core(s);
    let core = text::trimmed(s);
    let (front, back) = choose|front: Seq<char>, back: Seq<char>|
        s == #[trigger] (front + core + back) && blank(front) && blank(back);
    let more = back.push(c);
    assert forall|i: int| 0 <= i < more.len() implies text::white(#[trigger] more[i]) by {
        if i < back.len() {
            assert(more[i] == back[i]);
        }
    }
    text_laws::law_trimming_takes_off_the_padding(front, core, more);
    assert(s.push(c) =~= front + core + more);
}

/// White space at the end of a list does not change its trimmed pieces.
pub(crate) proof fn lemma_pieces_with_padding(list: Seq<char>, pad: Seq<char>)
    requires
        blank(pad),
    ensures
        text::pieces(list + pad, ',').map_values(|name: Seq<char>| text::trimmed(name))
            == text::pieces(list, ',').map_values(|name: Seq<char>| text::trimmed(name)),
    decreases pad.len(),
{
    let trim_it = |name: Seq<char>| text::trimmed(name);
    if pad.len() == 0 {
        assert(list + pad =~= list);
    } else {
        let less = pad.drop_last();
        let c = pad.last();
        assert forall|i: int| 0 <= i < less.len() implies text::white(#[trigger] less[i]) by {
            assert(less[i] == pad[i]);
        }
        lemma_pieces_with_padding(list, less);
        assert(text::white(pad[pad.len() - 1]));
        assert((list + pad).drop_last() =~= list + less);
        let before = text::pieces(list + less, ',');
        laws::law_list_is_cut_at_commas(list + less);
        lemma_trim_more(before.last(), c);
        assert(text::pieces(list + pad, ',').map_values(trim_it) =~= before.map_values(trim_it));
    }
}

/// A query that starts with `select:` selects the trimmed pieces of what follows.
pub(crate) proof fn lemma_select<T: ?Sized + Tool>(
    tool: ToolSearchTool<T>,
    front: Seq<char>,
    list: Seq<char>,
    max_results: Option<u64>,
)
    requires
        blank(front),
    ensures
        tool.planned(Some(front + "select:"@ + list), max_results) == PlanView::Select(
            text::pieces(list, ',').map_values(|name: Seq<char>| text::trimmed(name)),
        ),
{
    reveal_strlit("select:");
    let mark = "select:"@;
    let rest = text::trimmed_end(list);
    let pad = list.skip(rest.len() as int);
    text_laws::lemma_back_of(list);
    laws::lemma_trimmed_end(list);
    let core = mark + rest;
    assert(list =~= rest + pad);
    assert(front + mark + list =~= front + core + pad);
    assert(core[0] == 's');
    assert(core[core.len() - 1] == if rest.len() > 0 {
        rest.last()
    } else {
        ':'
    });
    text_laws::law_trimming_takes_off_the_padding(front, core, pad);
    text_laws::law_prefix_and_rest_make_the_text(core, mark, rest);
    lemma_pieces_with_padding(rest, pad);
}

/// A query selects by name exactly where, behind any white space, it starts with `select:`. The
/// limit has no part in this.
pub proof fn law_select_is_told_by_its_prefix<T: ?Sized + Tool>(
    tool: ToolSearchTool<T>,
    query: Seq<char>,
    max_results: Option<u64>,
)
    ensures
        tool.planned(Some(query), max_results) is Select <==> exists|front: Seq<char>, list: Seq<char>|
            query == #[trigger] (front + "select:"@ + list) && blank(front),
        tool.planned(None, max_results) !is Select,
{
    let mark = "select:"@;
    if tool.planned(Some(query), max_results) is Select {
        let core = text::trimmed(query);
        text_laws::law_trimming_leaves_the_core(query);
        let (front, back) = choose|front: Seq<char>, back: Seq<char>|
            query == #[trigger] (front + core + back) && blank(front) && blank(back);
        let rest = text::after_prefix(core, mark)->0;
        text_laws::law_prefix_and_rest_make_the_text(core, mark, rest);
        assert(query =~= front + mark + (rest + back));
    }
    if exists|front: Seq<char>, list: Seq<char>|
        query == #[trigger] (front + mark + list) && blank(front) {
        let (front, list) = choose|front: Seq<char>, list: Seq<char>|
            query == #[trigger] (front + mark + list) && blank(front);
        lemma_select(tool, front, list, max_results);
    }
}

/// A selection of one name lists that name in full, without the white space around it, whatever
/// the limit.
pub proof fn law_one_name_is_selected<T: ?Sized + Tool>(
    tool: ToolSearchTool<T>,
    front: Seq<char>,
    before: Seq<char>,
    name: Seq<char>,
    after: Seq<char>,
    max_results: Option<u64>,
)
    requires
        blank(front),
        blank(before),
        blank(after),
        bare(name),
        !name.contains(','),
    ensures
        tool.planned(Some(front + "select:"@ + (before + name + after)), max_results)
            == PlanView::Select(seq![name]),
{
    let list = before + name + after;
    lemma_select(tool, front, list, max_results);
    assert(!list.contains(',')) by {
        assert forall|i: int| 0 <= i < list.len() implies list[i] != ',' by {
            if i < before.len() {
                assert(text::white(before[i]));
            } else if i < before.len() + name.len() {
                assert(list[i] == name[i - before.len()]);
                assert(name.contains(list[i]));
            } else {
                assert(list[i] == after[i - before.len() - name.len()]);
                assert(text::white(after[i - before.len() - name.len()]));
            }
        }
    }
    text_laws::law_unmarked_text_is_one_piece(list, ',');
    text_laws::law_trimming_takes_off_the_padding(before, name, after);
    assert(seq![list].map_values(|name: Seq<char>| text::trimmed(name)) =~= seq![name]);
}

/// The names of a selection are all of those that its list holds: at any comma, they are the names
/// that the part before it selects and then those that the part after it selects. No limit cuts
/// them, neither that of the whole nor those of the parts.
pub proof fn law_selected_lists_add_up<T: ?Sized + Tool>(
    tool: ToolSearchTool<T>,
    a: Seq<char>,
    b: Seq<char>,
    limit: Option<u64>,
    limit_a: Option<u64>,
    limit_b: Option<u64>,
)
    ensures
        ({
            let all = tool.planned(Some("select:"@ + a.push(',') + b), limit);
            let first = tool.planned(Some("select:"@ + a), limit_a);
            let second = tool.planned(Some("select:"@ + b), limit_b);
            &&& all is Select && first is Select && second is Select
            &&& all->Select_0 == first->Select_0 + second->Select_0
        }),
{
    let trim_it = |name: Seq<char>| text::trimmed(name);
    let none = Seq::<char>::empty();
    let mark = "select:"@;
    assert(none + mark + (a.push(',') + b) =~= mark + a.push(',') + b);
    assert(none + mark + a =~= mark + a);
    assert(none + mark + b =~= mark + b);
    lemma_select(tool, none, a.push(',') + b, limit);
    lemma_select(tool, none, a, limit_a);
    lemma_select(tool, none, b, limit_b);
    text_laws::law_pieces_end_at_marks(a, ',', b);
    assert((text::pieces(a, ',') + text::pieces(b, ',')).map_values(trim_it) =~= text::pieces(
        a,
        ',',
    ).map_values(trim_it) + text::pieces(b, ',').map_values(trim_it));
}

/// Every name of a selection is accounted for, whatever the limit. After the call a tool is
/// activated under it, or the output ends with a list of names that were not found and it is one
/// of these. A tool is activated under it exactly where one was before or where it stands for a
/// deferred tool.
pub proof fn law_every_selected_name_is_accounted_for<T: ?Sized + Tool>(
    tool: ToolSearchTool<T>,
    live: Map<Seq<char>, Arc<T>>,
    front: Seq<char>,
    list: Seq<char>,
    max_results: Option<u64>,
    i: int,
)
    requires
        blank(front),
        0 <= i < text::pieces(list, ',').len(),
        text::trimmed(text::pieces(list, ',')[i]).len() > 0,
    ensures
        ({
            let plan = tool.planned(Some(front + "select:"@ + list), max_results);
            let name = text::trimmed(text::pieces(list, ',')[i]);
            let reported = exists|lost: Seq<Seq<char>>|
                lost.contains(name) && ends_with(
                    tool.answer(live, plan).output,
                    "</functions>\n\nNot found: "@ + #[trigger] text::joined(lost, ", "@),
                );
            let kept = tool.live_after(live, plan).contains_key(name);
            &&& kept || reported
            &&& kept <==> live.contains_key(name) || tool.resolve(name) is Some
        }),
{
    let plan = tool.planned(Some(front + "select:"@ + list), max_results);
    let names = text::pieces(list, ',').map_values(|name: Seq<char>| text::trimmed(name));
    let name = text::trimmed(text::pieces(list, ',')[i]);
    lemma_select(tool, front, list, max_results);
    assert(names[i] == name);
    assert(names.contains(name));
    law_what_is_activated_after(tool, live, plan, name);
    laws::law_selection_accounts_for_every_name(tool, live, names, name);
    if !tool.live_after(live, plan).contains_key(name) {
        let asked = ToolSearchTool::<T>::requested(names);
        let lost = tool.missing(live, asked);
        assert(lost.contains(name));
        assert(lost.len() > 0) by {
            assert(lost[lost.index_of(name)] == name);
        }
        reveal_strlit("</functions>\n\nNot found: ");
        reveal_strlit("</functions>\n");
        reveal_strlit("\nNot found: ");
        let told = text::joined(lost, ", "@);
        let end = "</functions>\n\nNot found: "@ + told;
        let shown = "<functions>\n"@ + tool.blocks(asked);
        assert("</functions>\n\nNot found: "@ =~= "</functions>\n"@ + "\nNot found: "@);
        assert(tool.answer(live, plan).output =~= shown + end);
        assert(ends_with(tool.answer(live, plan).output, end));
    }
}

/// What a keyword search with a given number of results comes to: the answer that nothing was
/// found, where no result is asked for or no deferred tool matches, and otherwise the names of the
/// best matches of both sets, as many as asked for or as match.
pub open spec fn is_search_for<T: ?Sized + Tool>(
    tool: ToolSearchTool<T>,
    query: Seq<char>,
    asked: nat,
    plan: PlanView,
) -> bool {
    let terms = catalog::terms_of(query);
    let total = matching(terms, tool.mcp_catalog()) + matching(terms, tool.native_catalog());
    let least = if asked < total {
        asked
    } else {
        total
    };
    match plan {
        PlanView::Reply(result) => least == 0 && result.success && result.error is None
            && result.output == "No matching deferred tools found."@,
        PlanView::Select(names) => false,
        PlanView::Activate(names) => least > 0 && names.len() == least && are_the_best(
            terms,
            tool.mcp_catalog(),
            tool.native_catalog(),
            asked,
            names,
        ),
    }
}

/// A keyword query that asks for `n` results, where a `usize` can hold `n`, activates exactly `n`
/// names, or as many as there are deferred tools in which a term occurs, where these are fewer.
pub proof fn law_search_returns_as_many_as_asked_for<T: ?Sized + Tool>(
    tool: ToolSearchTool<T>,
    front: Seq<char>,
    query: Seq<char>,
    back: Seq<char>,
    n: u64,
)
    requires
        blank(front),
        blank(back),
        bare(query),
        query.len() > 0,
        !starts_with(query, "select:"@),
        n <= usize::MAX,
    ensures
        is_search_for(
            tool,
            query,
            n as nat,
            tool.planned(Some(front + query + back), Some(n)),
        ),
{
    lemma_keywords(tool, front, query, back, Some(n));
}

/// A keyword query that gives no limit, or one that no `usize` can hold, asks for five results.
pub proof fn law_search_returns_five_by_default<T: ?Sized + Tool>(
    tool: ToolSearchTool<T>,
    front: Seq<char>,
    query: Seq<char>,
    back: Seq<char>,
    n: u64,
)
    requires
        blank(front),
        blank(back),
        bare(query),
        query.len() > 0,
        !starts_with(query, "select:"@),
    ensures
        is_search_for(tool, query, 5, tool.planned(Some(front + query + back), None)),
        n > usize::MAX ==> is_search_for(
            tool,
            query,
            5,
            tool.planned(Some(front + query + back), Some(n)),
        ),
{
    lemma_keywords(tool, front, query, back, None);
    if n > usize::MAX {
        lemma_keywords(tool, front, query, back, Some(n));
    }
}

/// A keyword query is searched for with the limit of the call.
pub(crate) proof fn lemma_keywords<T: ?Sized + Tool>(
    tool: ToolSearchTool<T>,
    front: Seq<char>,
    query: Seq<char>,
    back: Seq<char>,
    max_results: Option<u64>,
)
    requires
        blank(front),
        blank(back),
        bare(query),
        query.len() > 0,
        !starts_with(query, "select:"@),
    ensures
        is_search_for(
            tool,
            query,
            tool_search::limit(max_results),
            tool.planned(Some(front + query + back), max_results),
        ),
{
    let mark = "select:"@;
    let max = tool_search::limit(max_results);
    text_laws::law_trimming_takes_off_the_padding(front, query, back);
    text_laws::law_prefix_and_rest_make_the_text(query, mark, query.skip(mark.len() as int));
    if query.len() >= mark.len() && query.take(mark.len() as int) == mark {
        assert forall|i: int| 0 <= i < mark.len() implies #[trigger] query[i] == mark[i] by {
            assert(query.take(mark.len() as int)[i] == query[i]);
        }
    }
    search_laws::law_joint_search_returns_the_best(
        tool.mcp_catalog(),
        tool.native_catalog(),
        query,
        max,
    );
}

/// A call without a query, or with one of nothing but white space, fails and says why. It has no
/// output and activates nothing, whatever its limit.
pub proof fn law_blank_query_is_refused<T: ?Sized + Tool>(
    tool: ToolSearchTool<T>,
    live: Map<Seq<char>, Arc<T>>,
    query: Seq<char>,
    max_results: Option<u64>,
)
    requires
        blank(query),
    ensures
        ({
            let plan = tool.planned(Some(query), max_results);
            &&& plan is Reply
            &&& !plan->Reply_0.success
            &&& plan->Reply_0.output.len() == 0
            &&& plan->Reply_0.error == Some("query parameter is required"@)
            &&& tool.planned(None, max_results) == plan
            &&& tool.answer(live, plan) == plan->Reply_0
            &&& tool.live_after(live, plan) == live
        }),
{
    let none = Seq::<char>::empty();
    text_laws::law_trimming_takes_off_the_padding(query, none, none);
    assert(query + none + none =~= query);
}

} // verus!
