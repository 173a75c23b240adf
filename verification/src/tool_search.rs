//! The built-in `tool_search` tool, which loads tool schemas on demand.
//!
//! Where tools are deferred, their full JSON schemas are kept out of the system prompt. This tool
//! lets the model find and activate them. A query has one of two forms:
//! - `select:name1,name2` fetches tools by their exact names. Native tools have bare names
//!   (`shell`), MCP tools have names of the form `server__tool`.
//! - Anything else is a keyword search over both deferred sets. It returns the best matches of
//!   both together, ranked by the number of terms that match.

use crate::catalog::{self, Entry};
use crate::json::{
    self, json_array, json_natural, json_object, json_text, member, render, Json, JsonNumber,
};
use crate::mcp_deferred::{ActivatedToolSet, DeferredMcpToolSet, DeferredMcpToolStub};
use crate::native_deferred::{DeferredNativeToolSet, DeferredNativeToolStub};
use crate::text::{self, escape, join, split, strip_prefix, trim};
use crate::tool::{Tool, ToolResult, ToolResultView, ToolSpec, ToolSpecView};
use std::sync::Arc;
use vstd::prelude::*;

verus! {

/// How many search results are returned where the call does not say.
pub const DEFAULT_MAX_RESULTS: usize = 5;

/// The tool that fetches the full schemas of deferred tools. Both deferred sets are optional and
/// independent of each other.
pub struct ToolSearchTool<T: ?Sized + Tool = dyn Tool> {
    mcp_deferred: Option<DeferredMcpToolSet<T>>,
    native_deferred: Option<DeferredNativeToolSet<T>>,
}

/// What a call of the tool comes to, before any tool is activated.
pub enum Plan {
    /// The answer is known, and nothing is activated.
    Reply(ToolResult),
    /// The tools with these names are requested.
    Select(Vec<String>),
    /// The tools with these names were found, and there is at least one.
    Activate(Vec<String>),
}

/// The content of a [`Plan`].
pub enum PlanView {
    Reply(ToolResultView),
    Select(Seq<Seq<char>>),
    Activate(Seq<Seq<char>>),
}

impl View for Plan {
    type V = PlanView;

    open spec fn view(&self) -> PlanView {
        match *self {
            Plan::Reply(result) => PlanView::Reply(result@),
            Plan::Select(names) => PlanView::Select(text::strings(names@)),
            Plan::Activate(names) => PlanView::Activate(text::strings(names@)),
        }
    }
}

/// The query in the arguments of a call, where there is one.
pub open spec fn query_in(args: Json) -> Option<Seq<char>> {
    match json::member_of(args, "query"@) {
        Some(value) => json::text_of(value),
        None => None,
    }
}

/// The limit in the arguments of a call, where there is one.
pub open spec fn max_results_in(args: Json) -> Option<u64> {
    match json::member_of(args, "max_results"@) {
        Some(value) => json::natural_of(value),
        None => None,
    }
}

/// The number of search results that a call asks for. A number that no `usize` can hold counts
/// as none.
pub open spec fn limit(max_results: Option<u64>) -> nat {
    match max_results {
        Some(n) => if n <= usize::MAX {
            n as nat
        } else {
            DEFAULT_MAX_RESULTS as nat
        },
        None => DEFAULT_MAX_RESULTS as nat,
    }
}

/// The block in which a tool is shown to the model, made of the tool's name, its description and
/// the text of its schema.
pub open spec fn function_block(
    name: Seq<char>,
    description: Seq<char>,
    parameters: Seq<char>,
) -> Seq<char> {
    "<function>{\"name\": \""@ + name + "\", \"description\": \""@ + text::escaped(
        description,
    ) + "\", \"parameters\": "@ + parameters + "}</function>\n"@
}

/// The block in which a tool is shown to the model.
pub open spec fn block_of(tool: ToolSpecView) -> Seq<char> {
    function_block(tool.name, tool.description, json::rendered(tool.parameters))
}

/// A successful outcome with the given output.
pub open spec fn success(output: Seq<char>) -> ToolResultView {
    ToolResultView { success: true, output, error: None }
}

/// Appends the block of a tool, given the text of its schema.
pub fn push_function(output: &mut String, name: &str, description: &str, parameters: &str)
    ensures
        final(output)@ == old(output)@ + function_block(name@, description@, parameters@),
        (parameters@ + "}</function>\n"@).is_suffix_of(final(output)@),
{
    output.append("<function>{\"name\": \"");
    output.append(name);
    output.append("\", \"description\": \"");
    let description = escape(description);
    output.append(description.as_str());
    output.append("\", \"parameters\": ");
    output.append(parameters);
    output.append("}</function>\n");
    proof {
        let end = parameters@ + "}</function>\n"@;
        let size = output@.len() as int;
        assert(output@.subrange(size - end.len(), size) =~= end);
    }
}

/// Appends the block of a tool. Keyword search and selection both write their blocks with this.
fn emit_function_xml(output: &mut String, spec: &ToolSpec)
    ensures
        final(output)@ == old(output)@ + block_of(spec@),
{
    let parameters = render(&spec.parameters);
    push_function(output, spec.name.as_str(), spec.description.as_str(), parameters.as_str());
}

impl<T: ?Sized + Tool> ToolSearchTool<T> {
    /// The deferred MCP tools.
    pub closed spec fn mcp(self) -> Option<DeferredMcpToolSet<T>> {
        self.mcp_deferred
    }

    /// The deferred native tools.
    pub closed spec fn native(self) -> Option<DeferredNativeToolSet<T>> {
        self.native_deferred
    }

    /// The native tool with a given name.
    pub open spec fn native_tool(self, name: Seq<char>) -> Option<Arc<T>> {
        match self.native() {
            Some(set) => match set.named(name) {
                Some(stub) => Some(stub.tool),
                None => None,
            },
            None => None,
        }
    }

    /// The MCP tool with a given name.
    pub open spec fn mcp_tool(self, name: Seq<char>) -> Option<Arc<T>> {
        match self.mcp() {
            Some(set) => match set.named(name) {
                Some(stub) => Some(stub.tool),
                None => None,
            },
            None => None,
        }
    }

    /// The deferred tool that a name stands for. A native tool comes before an MCP tool.
    pub open spec fn resolve(self, name: Seq<char>) -> Option<Arc<T>> {
        match self.native_tool(name) {
            Some(tool) => Some(tool),
            None => self.mcp_tool(name),
        }
    }

    /// The blocks of the tools that a list of names stands for. A name that stands for no tool
    /// has none.
    pub open spec fn blocks(self, names: Seq<Seq<char>>) -> Seq<char>
        decreases names.len(),
    {
        if names.len() == 0 {
            Seq::empty()
        } else {
            self.blocks(names.drop_last()) + match self.resolve(names.last()) {
                Some(tool) => block_of(tool.described()),
                None => Seq::empty(),
            }
        }
    }

    /// The activated tools after the tools that a list of names stands for were activated. What
    /// was activated before stays as it was.
    pub open spec fn activated(
        self,
        live: Map<Seq<char>, Arc<T>>,
        names: Seq<Seq<char>>,
    ) -> Map<Seq<char>, Arc<T>> {
        Map::new(
            |name: Seq<char>|
                live.contains_key(name) || (names.contains(name) && self.resolve(name) is Some),
            |name: Seq<char>|
                if live.contains_key(name) {
                    live[name]
                } else {
                    self.resolve(name)->0
                },
        )
    }

    /// The names that stand for no deferred tool and for no activated one.
    pub open spec fn missing(
        self,
        live: Map<Seq<char>, Arc<T>>,
        names: Seq<Seq<char>>,
    ) -> Seq<Seq<char>> {
        names.filter(|name: Seq<char>| self.resolve(name) is None && !live.contains_key(name))
    }

    /// What keyword search sees of the deferred MCP tools.
    pub open spec fn mcp_catalog(self) -> Seq<Entry> {
        match self.mcp() {
            Some(set) => set.catalog(),
            None => Seq::empty(),
        }
    }

    /// What keyword search sees of the deferred native tools.
    pub open spec fn native_catalog(self) -> Seq<Entry> {
        match self.native() {
            Some(set) => set.catalog(),
            None => Seq::empty(),
        }
    }

    /// The names of the deferred tools that a query finds: the best matches of both sets together,
    /// and with equally many matching terms those of both sets in turns, MCP tools first.
    pub open spec fn search_hits(self, query: Seq<char>, max_results: nat) -> Seq<Seq<char>> {
        catalog::names_in_both(self.mcp_catalog(), self.native_catalog(), query, max_results)
    }

    /// Whether a tool would be activated under a name: the name stands for a deferred tool, and
    /// no tool is activated under it.
    pub open spec fn is_fresh(self, live: Map<Seq<char>, Arc<T>>, name: Seq<char>) -> bool {
        self.resolve(name) is Some && !live.contains_key(name)
    }

    /// What a call with the given query and limit comes to.
    pub open spec fn planned(self, query: Option<Seq<char>>, max_results: Option<u64>) -> PlanView {
        let asked = match query {
            Some(text) => text::trimmed(text),
            None => Seq::empty(),
        };
        let hits = self.search_hits(asked, limit(max_results));
        if asked.len() == 0 {
            PlanView::Reply(
                ToolResultView {
                    success: false,
                    output: Seq::empty(),
                    error: Some("query parameter is required"@),
                },
            )
        } else {
            match text::after_prefix(asked, "select:"@) {
                Some(list) => PlanView::Select(
                    text::pieces(list, ',').map_values(
                        |name: Seq<char>| text::trimmed(name),
                    ),
                ),
                None => if hits.len() == 0 {
                    PlanView::Reply(success("No matching deferred tools found."@))
                } else {
                    PlanView::Activate(hits)
                },
            }
        }
    }

    /// The names of a list that are not empty.
    pub open spec fn requested(names: Seq<Seq<char>>) -> Seq<Seq<char>> {
        names.filter(|name: Seq<char>| name.len() > 0)
    }

    /// The answer to a selection by name: the blocks of the requested tools, and then the names
    /// that stand for none.
    pub open spec fn selected(
        self,
        live: Map<Seq<char>, Arc<T>>,
        names: Seq<Seq<char>>,
    ) -> ToolResultView {
        let requested = Self::requested(names);
        let missing = self.missing(live, requested);
        let blocks = "<functions>\n"@ + self.blocks(requested) + "</functions>\n"@;
        success(
            if missing.len() == 0 {
                blocks
            } else {
                blocks + ("\nNot found: "@ + text::joined(missing, ", "@))
            },
        )
    }

    /// The answer that a plan leads to.
    pub open spec fn answer(
        self,
        live: Map<Seq<char>, Arc<T>>,
        plan: PlanView,
    ) -> ToolResultView {
        match plan {
            PlanView::Reply(result) => result,
            PlanView::Select(names) => self.selected(live, names),
            PlanView::Activate(names) => success(
                "<functions>\n"@ + self.blocks(names) + "</functions>\n"@,
            ),
        }
    }

    /// The activated tools that a plan leads to.
    pub open spec fn live_after(
        self,
        live: Map<Seq<char>, Arc<T>>,
        plan: PlanView,
    ) -> Map<Seq<char>, Arc<T>> {
        match plan {
            PlanView::Reply(result) => live,
            PlanView::Select(names) => self.activated(live, Self::requested(names)),
            PlanView::Activate(names) => self.activated(live, names),
        }
    }

    /// A search tool without any deferred set. The builders below attach the sets.
    pub fn new() -> (r: Self)
        ensures
            r.mcp() is None,
            r.native() is None,
    {
        ToolSearchTool { mcp_deferred: None, native_deferred: None }
    }

    /// Attaches a set of deferred MCP tools.
    pub fn with_mcp_deferred(self, mcp: DeferredMcpToolSet<T>) -> (r: Self)
        ensures
            r.mcp() == Some(mcp),
            r.native() == self.native(),
    {
        ToolSearchTool { mcp_deferred: Some(mcp), native_deferred: self.native_deferred }
    }

    /// Attaches a set of deferred native tools.
    pub fn with_native_deferred(self, native: DeferredNativeToolSet<T>) -> (r: Self)
        ensures
            r.native() == Some(native),
            r.mcp() == self.mcp(),
    {
        ToolSearchTool { mcp_deferred: self.mcp_deferred, native_deferred: Some(native) }
    }

    /// Activates the tool that a name stands for, unless it is activated, and appends its block.
    /// Returns whether a tool was activated.
    pub fn activate_and_emit(
        &self,
        name: &str,
        activated: &mut ActivatedToolSet<T>,
        output: &mut String,
    ) -> (r: bool)
        ensures
            final(activated)@ == self.activated(old(activated)@, seq![name@]),
            final(output)@ == old(output)@ + self.blocks(seq![name@]),
            r == self.is_fresh(old(activated)@, name@),
    {
        let ghost live = activated@;
        let ghost names = seq![name@];
        proof {
            assert(names.contains(name@)) by {
                assert(names[0] == name@);
            }
            assert(names.drop_last() =~= Seq::empty());
            assert(self.blocks(names.drop_last()) == Seq::<char>::empty());
            match self.resolve(name@) {
                Some(tool) => {
                    assert(self.activated(live, names) =~= if live.contains_key(name@) {
                        live
                    } else {
                        live.insert(name@, tool)
                    });
                    assert(self.blocks(names) =~= block_of(tool.described()));
                },
                None => {
                    assert(self.activated(live, names) =~= live);
                    assert(self.blocks(names) =~= Seq::empty());
                },
            }
        }
        if let Some(native) = &self.native_deferred {
            if let Some(spec) = native.tool_spec(name) {
                let mut fresh = false;
                if !activated.is_activated(name) {
                    if let Some(tool) = native.activate(name) {
                        activated.activate(name.to_string(), tool);
                        fresh = true;
                    }
                }
                emit_function_xml(output, &spec);
                return fresh;
            }
        }
        if let Some(mcp) = &self.mcp_deferred {
            if let Some(spec) = mcp.tool_spec(name) {
                let mut fresh = false;
                if !activated.is_activated(name) {
                    if let Some(tool) = mcp.activate(name) {
                        activated.activate(name.to_string(), tool);
                        fresh = true;
                    }
                }
                emit_function_xml(output, &spec);
                return fresh;
            }
        }
        assert(output@ =~= old(output)@ + Seq::<char>::empty());
        false
    }

    /// Activating the tools of a list and then one more is activating the longer list.
    proof fn lemma_one_more(
        self,
        live: Map<Seq<char>, Arc<T>>,
        names: Seq<Seq<char>>,
        name: Seq<char>,
    )
        ensures
            self.activated(self.activated(live, names), seq![name]) == self.activated(
                live,
                names.push(name),
            ),
            self.blocks(names) + self.blocks(seq![name]) == self.blocks(names.push(name)),
    {
        broadcast use vstd::seq_lib::group_seq_properties;

        let step = self.activated(self.activated(live, names), seq![name]);
        assert(step =~= self.activated(live, names.push(name)));
        assert(names.push(name).drop_last() =~= names);
        assert(seq![name].drop_last() =~= Seq::empty());
        assert(self.blocks(seq![name].drop_last()) == Seq::<char>::empty());
        assert(self.blocks(names) + self.blocks(seq![name]) =~= self.blocks(names.push(name)));
    }

    /// Activates the tools with the given names and shows them.
    pub fn select_tools(&self, names: &Vec<String>, activated: &mut ActivatedToolSet<T>) -> (r:
        ToolResult)
        ensures
            r@ == self.selected(old(activated)@, text::strings(names@)),
            final(activated)@ == self.activated(
                old(activated)@,
                Self::requested(text::strings(names@)),
            ),
    {
        let ghost live = activated@;
        let ghost all = text::strings(names@);
        let ghost unknown = |name: Seq<char>|
            self.resolve(name) is None && !live.contains_key(name);
        let mut output = "<functions>\n".to_string();
        let mut not_found: Vec<String> = Vec::new();
        proof {
            reveal(Seq::filter);
            assert(self.activated(live, Seq::empty()) =~= live);
            assert(output@ + self.blocks(Seq::empty()) =~= output@);
        }
        for i in 0..names.len()
            invariant
                all == text::strings(names@),
                unknown == (|name: Seq<char>|
                    self.resolve(name) is None && !live.contains_key(name)),
                activated@ == self.activated(live, Self::requested(all.take(i as int))),
                output@ == "<functions>\n"@ + self.blocks(Self::requested(all.take(i as int))),
                text::strings(not_found@) == Self::requested(all.take(i as int)).filter(
                    unknown,
                ),
        {
            let name = names[i].as_str();
            let ghost done = Self::requested(all.take(i as int));
            let ghost before = not_found@;
            proof {
                reveal(Seq::filter);
                assert(all.take(i + 1).drop_last() == all.take(i as int));
                assert(all.take(i + 1).last() == name@);
                self.lemma_one_more(live, done, name@);
                assert(done.push(name@).drop_last() =~= done);
            }
            if !name.is_empty() {
                assert(Self::requested(all.take(i + 1)) == done.push(name@));
                let fresh = self.activate_and_emit(name, activated, &mut output);
                assert(output@ =~= "<functions>\n"@ + self.blocks(done.push(name@)));
                assert(done.push(name@).contains(name@)) by {
                    assert(done.push(name@).last() == name@);
                }
                if !fresh && !activated.is_activated(name) {
                    not_found.push(names[i].clone());
                    assert(text::strings(not_found@) == text::strings(before).push(
                        name@,
                    ));
                }
            }
        }
        assert(all.take(names@.len() as int) == all);
        output.append("</functions>\n");
        if not_found.len() > 0 {
            let list = join(&not_found, ", ");
            output.append("\nNot found: ");
            output.append(list.as_str());
            assert(output@ =~= "<functions>\n"@ + self.blocks(Self::requested(all))
                + "</functions>\n"@ + ("\nNot found: "@ + list@));
        }
        ToolResult { success: true, output, error: None }
    }

    /// Decides what a call with the given query and limit comes to.
    pub fn plan_for(&self, query: Option<&str>, max_results: Option<u64>) -> (r: Plan)
        ensures
            r@ == self.planned(
                match query {
                    Some(text) => Some(text@),
                    None => None,
                },
                max_results,
            ),
    {
        let asked = match query {
            Some(text) => trim(text),
            None => "",
        };
        proof {
            reveal_strlit("");
            assert(query is None ==> asked@ =~= Seq::empty());
        }
        let max_results: usize = match max_results {
            Some(n) => if n <= usize::MAX as u64 {
                n as usize
            } else {
                DEFAULT_MAX_RESULTS
            },
            None => DEFAULT_MAX_RESULTS,
        };
        if asked.is_empty() {
            return Plan::Reply(
                ToolResult {
                    success: false,
                    output: String::new(),
                    error: Some("query parameter is required".to_string()),
                },
            );
        }
        if let Some(list) = strip_prefix(asked, "select:") {
            let parts = split(list, ',');
            let ghost all = text::strings(parts@);
            let mut names: Vec<String> = Vec::new();
            for i in 0..parts.len()
                invariant
                    all == text::strings(parts@),
                    text::strings(names@) == all.take(i as int).map_values(
                        |name: Seq<char>| text::trimmed(name),
                    ),
            {
                let name = trim(parts[i].as_str()).to_string();
                let ghost before = names@;
                names.push(name);
                assert(text::strings(names@) == text::strings(before).push(name@));
                assert(all.take(i + 1) == all.take(i as int).push(all[i as int]));
            }
            assert(all.take(parts@.len() as int) == all);
            return Plan::Select(names);
        }
        let hits = self.search_deferred(asked, max_results);
        if hits.len() == 0 {
            return Plan::Reply(
                ToolResult {
                    success: true,
                    output: "No matching deferred tools found.".to_string(),
                    error: None,
                },
            );
        }
        Plan::Activate(hits)
    }

    /// The names of the deferred tools that a query finds.
    fn search_deferred(&self, query: &str, max_results: usize) -> (r: Vec<String>)
        ensures
            text::strings(r@) == self.search_hits(query@, max_results as nat),
    {
        let no_mcp: Vec<DeferredMcpToolStub<T>> = Vec::new();
        let no_native: Vec<DeferredNativeToolStub<T>> = Vec::new();
        let mcp = match &self.mcp_deferred {
            Some(set) => &set.stubs,
            None => &no_mcp,
        };
        let native = match &self.native_deferred {
            Some(set) => &set.stubs,
            None => &no_native,
        };
        assert(catalog::entries(mcp@) =~= self.mcp_catalog());
        assert(catalog::entries(native@) =~= self.native_catalog());
        catalog::search_both(mcp, native, query, max_results)
    }

    /// Reads the arguments of a call and decides what it comes to.
    pub fn plan(&self, args: &serde_json::Value) -> (r: Plan)
        ensures
            r@ == self.planned(
                query_in(json::json(*args)),
                max_results_in(json::json(*args)),
            ),
    {
        let query = match member(args, "query") {
            Some(value) => value.as_str(),
            None => None,
        };
        let max_results = match member(args, "max_results") {
            Some(value) => value.as_u64(),
            None => None,
        };
        self.plan_for(query, max_results)
    }

    /// Carries out a plan: activates the tools it names and shows them.
    pub fn perform(&self, plan: Plan, activated: &mut ActivatedToolSet<T>) -> (r: ToolResult)
        ensures
            r@ == self.answer(old(activated)@, plan@),
            final(activated)@ == self.live_after(old(activated)@, plan@),
    {
        match plan {
            Plan::Reply(result) => result,
            Plan::Select(names) => self.select_tools(&names, activated),
            Plan::Activate(names) => {
                let ghost live = activated@;
                let ghost all = text::strings(names@);
                let mut output = "<functions>\n".to_string();
                proof {
                    assert(self.activated(live, Seq::empty()) =~= live);
                    assert(output@ + self.blocks(Seq::empty()) =~= output@);
                }
                for i in 0..names.len()
                    invariant
                        all == text::strings(names@),
                        activated@ == self.activated(live, all.take(i as int)),
                        output@ == "<functions>\n"@ + self.blocks(all.take(i as int)),
                {
                    let name = names[i].as_str();
                    let ghost done = all.take(i as int);
                    proof {
                        self.lemma_one_more(live, done, name@);
                        assert(all.take(i + 1) == done.push(name@));
                    }
                    self.activate_and_emit(name, activated, &mut output);
                    assert(output@ =~= "<functions>\n"@ + self.blocks(done.push(name@)));
                }
                assert(all.take(names@.len() as int) == all);
                output.append("</functions>\n");
                ToolResult { success: true, output, error: None }
            },
        }
    }

    /// Answers a call of the tool, and activates the deferred tools that it asks for.
    pub fn execute(&self, args: &serde_json::Value, activated: &mut ActivatedToolSet<T>) -> (r:
        ToolResult)
        ensures
            ({
                let args = json::json(*args);
                let plan = self.planned(query_in(args), max_results_in(args));
                &&& r@ == self.answer(old(activated)@, plan)
                &&& final(activated)@ == self.live_after(old(activated)@, plan)
            }),
    {
        let plan = self.plan(args);
        self.perform(plan, activated)
    }
}

/// The schema of the `query` argument.
pub open spec fn query_schema() -> Json {
    json::object_with(
        seq![
            (
                "description"@,
                Json::Text(
                    "Query to find deferred tools. Use \"select:<tool_name>\" for direct selection, or keywords to search."@,
                ),
            ),
            ("type"@, Json::Text("string"@)),
        ],
    )
}

/// The schema of the `max_results` argument.
pub open spec fn max_results_schema() -> Json {
    json::object_with(
        seq![
            (
                "description"@,
                Json::Text("Maximum number of results to return (default: 5)"@),
            ),
            ("type"@, Json::Text("number"@)),
            (
                "default"@,
                Json::Number(JsonNumber::Natural(DEFAULT_MAX_RESULTS as u64)),
            ),
        ],
    )
}

/// The schemas of the arguments, by name.
pub open spec fn properties_schema() -> Json {
    json::object_with(seq![("query"@, query_schema()), ("max_results"@, max_results_schema())])
}

/// The schema of the arguments of the search tool.
pub open spec fn arguments_schema() -> Json {
    json::object_with(
        seq![
            ("type"@, Json::Text("object"@)),
            ("properties"@, properties_schema()),
            ("required"@, Json::Array(seq![Json::Text("query"@)])),
        ],
    )
}

impl<T: ?Sized + Tool> Tool for ToolSearchTool<T> {
    open spec fn described(&self) -> ToolSpecView {
        ToolSpecView {
            name: "tool_search"@,
            description: "Fetch full schema definitions for deferred tools so they can be called. Use \"select:name1,name2\" for direct selection, or keywords to search."@,
            parameters: arguments_schema(),
        }
    }

    fn name(&self) -> (r: &str) {
        "tool_search"
    }

    fn description(&self) -> (r: &str) {
        "Fetch full schema definitions for deferred tools so they can be called. Use \"select:name1,name2\" for direct selection, or keywords to search."
    }

    fn parameters_schema(&self) -> (r: serde_json::Value) {
        proof {
            // The keys of each object differ in length.
            reveal_strlit("description");
            reveal_strlit("type");
            reveal_strlit("default");
            reveal_strlit("query");
            reveal_strlit("max_results");
            reveal_strlit("properties");
            reveal_strlit("required");
        }
        let query = vec![
            (
                "description".to_string(),
                json_text(
                    "Query to find deferred tools. Use \"select:<tool_name>\" for direct selection, or keywords to search.",
                ),
            ),
            ("type".to_string(), json_text("string")),
        ];
        let max_results = vec![
            (
                "description".to_string(),
                json_text("Maximum number of results to return (default: 5)"),
            ),
            ("type".to_string(), json_text("number")),
            ("default".to_string(), json_natural(DEFAULT_MAX_RESULTS as u64)),
        ];
        proof {
            let pairs = json::pairs_of(query@);
            assert(pairs[0].0 == "description"@ && pairs[1].0 == "type"@);
            assert("description"@.len() != "type"@.len());
            let pairs = json::pairs_of(max_results@);
            assert(pairs[0].0 == "description"@ && pairs[1].0 == "type"@ && pairs[2].0
                == "default"@);
            assert("default"@.len() != "type"@.len() && "default"@.len() != "description"@.len());
        }
        let properties = vec![
            ("query".to_string(), json_object(query)),
            ("max_results".to_string(), json_object(max_results)),
        ];
        proof {
            let pairs = json::pairs_of(properties@);
            assert(pairs[0].0 == "query"@ && pairs[1].0 == "max_results"@);
            assert("query"@.len() != "max_results"@.len());
        }
        let required = vec![json_text("query")];
        let schema = vec![
            ("type".to_string(), json_text("object")),
            ("properties".to_string(), json_object(properties)),
            ("required".to_string(), json_array(required)),
        ];
        proof {
            assert(json::object_with(json::pairs_of(query@)) == query_schema()) by {
                let pairs = json::pairs_of(query@);
                assert(pairs =~= seq![pairs[0], pairs[1]]);
            }
            assert(json::object_with(json::pairs_of(max_results@)) == max_results_schema()) by {
                let pairs = json::pairs_of(max_results@);
                assert(pairs =~= seq![pairs[0], pairs[1], pairs[2]]);
            }
            let items = required@.map_values(|item: serde_json::Value| json::json(item));
            assert(items =~= seq![Json::Text("query"@)]);
            assert(json::object_with(json::pairs_of(properties@)) == properties_schema()) by {
                let pairs = json::pairs_of(properties@);
                assert(pairs =~= seq![pairs[0], pairs[1]]);
            }
            assert(json::object_with(json::pairs_of(schema@)) == arguments_schema()) by {
                let pairs = json::pairs_of(schema@);
                assert(pairs =~= seq![pairs[0], pairs[1], pairs[2]]);
            }
            let pairs = json::pairs_of(schema@);
            assert(pairs[0].0 == "type"@ && pairs[1].0 == "properties"@ && pairs[2].0
                == "required"@);
            assert("type"@.len() != "properties"@.len() && "type"@.len() != "required"@.len()
                && "properties"@.len() != "required"@.len());
        }
        json_object(schema)
    }
}

} // verus!
