use std::sync::Arc;
use tool_search::mcp_deferred::{ActivatedToolSet, DeferredMcpToolSet, DeferredMcpToolStub};
use tool_search::native_deferred::DeferredNativeToolSet;
use tool_search::tool::Tool;
use tool_search::tool_search::{push_function, Plan, ToolSearchTool, DEFAULT_MAX_RESULTS};

struct StubTool {
    name: String,
    description: String,
    schema: String,
}

impl Tool for StubTool {
    fn name(&self) -> &str {
        &self.name
    }
    fn description(&self) -> &str {
        &self.description
    }
    fn parameters_schema(&self) -> serde_json::Value {
        serde_json::from_str(&self.schema).unwrap()
    }
}

fn make_tool(name: &str, desc: &str) -> Arc<dyn Tool> {
    Arc::new(StubTool {
        name: name.to_string(),
        description: desc.to_string(),
        schema: r#"{"type": "object", "properties": {}}"#.to_string(),
    })
}

fn make_stub(name: &str, desc: &str) -> DeferredMcpToolStub {
    DeferredMcpToolStub::new(name.to_string(), desc.to_string(), make_tool(name, desc))
}

fn make_deferred_set(stubs: Vec<DeferredMcpToolStub>) -> DeferredMcpToolSet {
    DeferredMcpToolSet { stubs }
}

fn args(text: &str) -> serde_json::Value {
    serde_json::from_str(text).unwrap()
}

fn query(text: &str) -> serde_json::Value {
    serde_json::Value::from_iter(vec![("query", text)])
}

fn block(name: &str, desc: &str) -> String {
    format!(
        "<function>{{\"name\": \"{name}\", \"description\": \"{desc}\", \"parameters\": {{\"properties\":{{}},\"type\":\"object\"}}}}</function>\n"
    )
}

fn search_both(mcp: &[(&str, &str)], native: &[(&str, &str)]) -> ToolSearchTool {
    let mut stubs = Vec::new();
    for (name, desc) in mcp {
        stubs.push(make_stub(name, desc));
    }
    let mut tools = Vec::new();
    for (name, desc) in native {
        tools.push(make_tool(name, desc));
    }
    ToolSearchTool::new()
        .with_mcp_deferred(make_deferred_set(stubs))
        .with_native_deferred(DeferredNativeToolSet::from_tools(tools))
}

#[test]
fn tool_metadata() {
    let tool = ToolSearchTool::new().with_mcp_deferred(make_deferred_set(vec![]));
    assert_eq!(tool.name(), "tool_search");
    assert!(!tool.description().is_empty());
    assert!(tool.parameters_schema()["properties"]["query"].is_object());
}

#[test]
fn empty_query_returns_error() {
    let mut activated = ActivatedToolSet::new();
    let tool = ToolSearchTool::new().with_mcp_deferred(make_deferred_set(vec![]));
    let result = tool.execute(&query(""), &mut activated);
    assert!(!result.success);
}

#[test]
fn select_nonexistent_tool_reports_not_found() {
    let mut activated = ActivatedToolSet::new();
    let tool = ToolSearchTool::new().with_mcp_deferred(make_deferred_set(vec![]));
    let result = tool.execute(&query("select:nonexistent"), &mut activated);
    assert!(result.success);
    assert!(result.output.contains("Not found"));
}

#[test]
fn keyword_search_no_matches() {
    let mut activated = ActivatedToolSet::new();
    let tool = ToolSearchTool::new()
        .with_mcp_deferred(make_deferred_set(vec![make_stub("fs__read", "Read file")]));
    let result = tool.execute(&query("zzzzz_nonexistent"), &mut activated);
    assert!(result.success);
    assert!(result.output.contains("No matching"));
}

#[test]
fn keyword_search_finds_match() {
    let mut activated = ActivatedToolSet::new();
    let tool = ToolSearchTool::new().with_mcp_deferred(make_deferred_set(vec![make_stub(
        "fs__read",
        "Read a file from disk",
    )]));
    let result = tool.execute(&query("read file"), &mut activated);
    assert!(result.success);
    assert!(result.output.contains("<function>"));
    assert!(result.output.contains("fs__read"));
    assert!(activated.is_activated("fs__read"));
}

#[test]
fn multiple_servers_stubs_all_searchable() {
    let mut activated = ActivatedToolSet::new();
    let stubs = vec![
        make_stub("server_a__list_files", "List files on server A"),
        make_stub("server_a__read_file", "Read file on server A"),
        make_stub("server_b__query_db", "Query database on server B"),
        make_stub("server_b__insert_row", "Insert row on server B"),
    ];
    let tool = ToolSearchTool::new().with_mcp_deferred(make_deferred_set(stubs));

    let result = tool.execute(&query("file"), &mut activated);
    assert!(result.success);
    assert!(result.output.contains("server_a__list_files"));
    assert!(result.output.contains("server_a__read_file"));

    let result = tool.execute(&query("database query"), &mut activated);
    assert!(result.success);
    assert!(result.output.contains("server_b__query_db"));
}

#[test]
fn select_activates_and_persists_across_calls() {
    let mut activated = ActivatedToolSet::new();
    let stubs = vec![
        make_stub("srv__tool_a", "Tool A"),
        make_stub("srv__tool_b", "Tool B"),
    ];
    let tool = ToolSearchTool::new().with_mcp_deferred(make_deferred_set(stubs));

    let result = tool.execute(&query("select:srv__tool_a"), &mut activated);
    assert!(result.success);
    assert!(activated.is_activated("srv__tool_a"));
    assert!(!activated.is_activated("srv__tool_b"));

    let result = tool.execute(&query("select:srv__tool_b"), &mut activated);
    assert!(result.success);

    assert!(activated.is_activated("srv__tool_a"));
    assert!(activated.is_activated("srv__tool_b"));
    assert_eq!(activated.tool_specs().len(), 2);
}

#[test]
fn reactivation_is_idempotent() {
    let mut activated = ActivatedToolSet::new();
    let tool = ToolSearchTool::new()
        .with_mcp_deferred(make_deferred_set(vec![make_stub("srv__tool", "A tool")]));

    tool.execute(&query("select:srv__tool"), &mut activated);
    tool.execute(&query("select:srv__tool"), &mut activated);

    assert_eq!(activated.tool_specs().len(), 1);
}

#[test]
fn schema_is_complete() {
    let tool: ToolSearchTool = ToolSearchTool::new();
    let expected = args(
        r#"{
            "type": "object",
            "properties": {
                "query": {
                    "description": "Query to find deferred tools. Use \"select:<tool_name>\" for direct selection, or keywords to search.",
                    "type": "string"
                },
                "max_results": {
                    "description": "Maximum number of results to return (default: 5)",
                    "type": "number",
                    "default": 5
                }
            },
            "required": ["query"]
        }"#,
    );
    assert_eq!(DEFAULT_MAX_RESULTS, 5);
    assert_eq!(tool.parameters_schema(), expected);
    let spec = tool.spec();
    assert_eq!(spec.name, "tool_search");
    assert_eq!(
        spec.description,
        "Fetch full schema definitions for deferred tools so they can be called. \
         Use \"select:name1,name2\" for direct selection, or keywords to search."
    );
    assert_eq!(spec.parameters, expected);
}

#[test]
fn a_call_without_a_usable_query_fails_and_activates_nothing() {
    let tool = search_both(&[("s__a", "x")], &[("b", "x")]);
    for text in [
        r#"{}"#,
        r#"{"query": " \t\u3000 "}"#,
        r#"{"query": 5}"#,
        r#"{"query": null, "max_results": 2}"#,
        r#"["query"]"#,
        r#""query""#,
        r#"null"#,
    ] {
        let mut activated = ActivatedToolSet::new();
        let result = tool.execute(&args(text), &mut activated);
        assert!(!result.success);
        assert_eq!(result.output, "");
        assert_eq!(result.error.as_deref(), Some("query parameter is required"));
        assert!(activated.tool_specs().is_empty());
    }
}

#[test]
fn selection_writes_blocks_and_then_what_is_missing() {
    let mut activated = ActivatedToolSet::new();
    let tool = search_both(&[("s__a", "MCP \"a\"")], &[("b", "native b")]);
    let result = tool.execute(&query("  select: b ,, nope,s__a,  , gone ,b\n"), &mut activated);
    assert!(result.success);
    assert!(result.error.is_none());
    let expected = format!(
        "<functions>\n{}{}{}</functions>\n\nNot found: nope, gone",
        block("b", "native b"),
        block("s__a", "MCP \\\"a\\\""),
        block("b", "native b"),
    );
    assert_eq!(result.output, expected);
    assert!(activated.is_activated("b"));
    assert!(activated.is_activated("s__a"));
    assert!(!activated.is_activated("nope"));
    assert_eq!(activated.tool_specs().len(), 2);
}

#[test]
fn selection_without_names_shows_nothing() {
    let mut activated = ActivatedToolSet::new();
    let tool = search_both(&[], &[("b", "native b")]);
    let result = tool.execute(&query("select:"), &mut activated);
    assert!(result.success);
    assert_eq!(result.output, "<functions>\n</functions>\n");
    assert!(activated.tool_specs().is_empty());
}

#[test]
fn selection_does_not_report_a_tool_that_is_active_already() {
    let mut activated = ActivatedToolSet::new();
    activated.activate("extra".to_string(), make_tool("extra", "from elsewhere"));
    let tool = search_both(&[], &[("b", "native b")]);
    let result = tool.execute(&query("select:extra"), &mut activated);
    assert_eq!(result.output, "<functions>\n</functions>\n");
    assert!(activated.is_activated("extra"));
}

#[test]
fn an_active_tool_is_shown_again_and_kept() {
    let kept = make_tool("b", "older");
    let mut activated = ActivatedToolSet::new();
    activated.activate("b".to_string(), Arc::clone(&kept));
    let tool = search_both(&[], &[("b", "newer")]);
    let result = tool.execute(&query("select:b"), &mut activated);
    assert_eq!(
        result.output,
        format!("<functions>\n{}</functions>\n", block("b", "newer"))
    );
    assert_eq!(activated.tool_specs().len(), 1);
    assert_eq!(activated.tool_specs()[0].description, "older");
}

#[test]
fn a_name_in_both_sets_is_the_native_tool() {
    let mut activated = ActivatedToolSet::new();
    let tool = search_both(&[("same", "from mcp")], &[("same", "from native")]);
    let result = tool.execute(&query("select:same"), &mut activated);
    assert_eq!(
        result.output,
        format!("<functions>\n{}</functions>\n", block("same", "from native"))
    );
    assert_eq!(activated.tool_specs()[0].description, "from native");
}

#[test]
fn search_takes_both_sets_in_turns() {
    let tool = search_both(
        &[("m1", "t"), ("m2", "t"), ("m3", "t")],
        &[("n1", "t"), ("n2", "t"), ("n3", "t"), ("n4", "t"), ("n5", "t")],
    );
    let names = |max: Option<u64>| match tool.plan_for(Some("t"), max) {
        Plan::Activate(names) => names,
        _ => panic!("hits were expected"),
    };
    assert_eq!(names(None), vec!["m1", "n1", "m2", "n2", "m3"]);
    assert_eq!(names(Some(1)), vec!["m1"]);
    assert_eq!(names(Some(2)), vec!["m1", "n1"]);
    assert_eq!(
        names(Some(100)),
        vec!["m1", "n1", "m2", "n2", "m3", "n3", "n4", "n5"]
    );
    let tool = search_both(&[("m1", "t"), ("m2", "t"), ("m3", "t")], &[("n1", "t")]);
    match tool.plan_for(Some("t"), None) {
        Plan::Activate(names) => assert_eq!(names, vec!["m1", "n1", "m2", "m3"]),
        _ => panic!("hits were expected"),
    }
}

#[test]
fn search_shows_the_best_matches_of_each_set() {
    let mut activated = ActivatedToolSet::new();
    let tool = search_both(
        &[("m_low", "red"), ("m_high", "red green")],
        &[("n_low", "green"), ("n_high", "green red")],
    );
    let result = tool.execute(
        &args(r#"{"query": " red GREEN ", "max_results": 3}"#),
        &mut activated,
    );
    let expected = format!(
        "<functions>\n{}{}{}</functions>\n",
        block("m_high", "red green"),
        block("n_high", "green red"),
        block("m_low", "red"),
    );
    assert!(result.success);
    assert_eq!(result.output, expected);
    assert!(!activated.is_activated("n_low"));
    assert_eq!(activated.tool_specs().len(), 3);
}

#[test]
fn the_best_match_of_both_sets_comes_first() {
    let mut activated = ActivatedToolSet::new();
    let tool = search_both(&[("m__x", "alpha")], &[("n_x", "alpha beta")]);
    let result = tool.execute(
        &args(r#"{"query": "alpha beta", "max_results": 1}"#),
        &mut activated,
    );
    assert!(result.success);
    assert_eq!(
        result.output,
        format!("<functions>\n{}</functions>\n", block("n_x", "alpha beta"))
    );
    assert!(activated.is_activated("n_x"));
    assert!(!activated.is_activated("m__x"));
}

#[test]
fn sets_take_turns_only_among_equal_matches() {
    let tool = search_both(
        &[("m1", "red"), ("m2", "red"), ("m3", "red green")],
        &[("n1", "red green"), ("n2", "green"), ("n3", "green red blue"), ("n4", "grey")],
    );
    let names = |max: u64| match tool.plan_for(Some("red green blue"), Some(max)) {
        Plan::Activate(names) => names,
        _ => panic!("hits were expected"),
    };
    assert_eq!(names(10), vec!["n3", "m3", "n1", "m1", "n2", "m2"]);
    assert_eq!(names(4), vec!["n3", "m3", "n1", "m1"]);
    assert_eq!(names(1), vec!["n3"]);
}

#[test]
fn one_set_alone_is_ranked_as_its_own_search_ranks_it() {
    let stubs = [("a", "red"), ("b", "red green"), ("c", "green"), ("d", "green red")];
    let by_tool = match search_both(&[], &stubs).plan_for(Some("Green red"), Some(3)) {
        Plan::Activate(names) => names,
        _ => panic!("hits were expected"),
    };
    let mut tools = Vec::new();
    for (name, desc) in stubs {
        tools.push(make_tool(name, desc));
    }
    let set = DeferredNativeToolSet::from_tools(tools);
    let mut by_set = Vec::new();
    for stub in set.search("green RED", 3) {
        by_set.push(stub.name.clone());
    }
    assert_eq!(by_tool, vec!["b", "d", "a"]);
    assert_eq!(by_tool, by_set);
}

#[test]
fn activating_a_name_twice_does_nothing_the_second_time() {
    let mut activated = ActivatedToolSet::new();
    let tool = search_both(&[("s__a", "one")], &[]);
    let mut first = String::new();
    let mut second = String::new();
    assert!(tool.activate_and_emit("s__a", &mut activated, &mut first));
    assert!(!tool.activate_and_emit("s__a", &mut activated, &mut second));
    assert_eq!(first, block("s__a", "one"));
    assert_eq!(first, second);
    assert_eq!(activated.len(), 1);
    assert!(!tool.activate_and_emit("gone", &mut activated, &mut second));
    assert_eq!(first, second);
    assert_eq!(activated.len(), 1);
}

#[test]
fn selecting_what_a_search_returned_repeats_its_output() {
    let mut activated = ActivatedToolSet::new();
    let tool = search_both(&[("s__a", "t u")], &[("b", "t"), ("c", "u t")]);
    let searched = tool.execute(&query("t u"), &mut activated);
    let names = match tool.plan_for(Some("t u"), None) {
        Plan::Activate(names) => names,
        _ => panic!("hits were expected"),
    };
    assert_eq!(names, vec!["s__a", "c", "b"]);
    let selected = tool.select_tools(&names, &mut activated);
    assert_eq!(selected.output, searched.output);
    assert_eq!(activated.len(), 3);
}

#[test]
fn a_limit_that_is_no_natural_number_is_the_default() {
    let tool = search_both(
        &[("a", "t"), ("b", "t"), ("c", "t"), ("d", "t"), ("e", "t"), ("f", "t")],
        &[],
    );
    for (text, count) in [
        (r#"{"query": "t"}"#, 5),
        (r#"{"query": "t", "max_results": -1}"#, 5),
        (r#"{"query": "t", "max_results": 2.0}"#, 5),
        (r#"{"query": "t", "max_results": "2"}"#, 5),
        (r#"{"query": "t", "max_results": null}"#, 5),
        (r#"{"query": "t", "max_results": 2}"#, 2),
        (r#"{"query": "t", "max_results": 6}"#, 6),
    ] {
        let mut activated = ActivatedToolSet::new();
        tool.execute(&args(text), &mut activated);
        assert_eq!(activated.tool_specs().len(), count, "{}", text);
    }
}

#[test]
fn a_limit_of_zero_finds_nothing() {
    let mut activated = ActivatedToolSet::new();
    let tool = search_both(&[("a", "t")], &[("b", "t")]);
    let result = tool.execute(&args(r#"{"query": "t", "max_results": 0}"#), &mut activated);
    assert!(result.success);
    assert_eq!(result.output, "No matching deferred tools found.");
    assert!(activated.tool_specs().is_empty());
}

#[test]
fn without_deferred_sets_nothing_is_found() {
    let mut activated = ActivatedToolSet::new();
    let tool: ToolSearchTool = ToolSearchTool::new();
    let result = tool.execute(&query("anything"), &mut activated);
    assert_eq!(result.output, "No matching deferred tools found.");
    let result = tool.execute(&query("select:anything"), &mut activated);
    assert_eq!(
        result.output,
        "<functions>\n</functions>\n\nNot found: anything"
    );
}

#[test]
fn a_repeated_call_gives_the_same_answer() {
    let tool = search_both(&[("s__a", "one t")], &[("b", "two t")]);
    for text in ["select:b,gone,s__a", "t"] {
        let mut activated = ActivatedToolSet::new();
        let first = tool.execute(&query(text), &mut activated);
        let count = activated.tool_specs().len();
        let second = tool.execute(&query(text), &mut activated);
        assert_eq!(first.output, second.output);
        assert_eq!(activated.tool_specs().len(), count);
    }
}

#[test]
fn selections_add_up() {
    let tool = search_both(&[("s__a", "A")], &[("b", "B"), ("c", "C")]);
    let mut step_by_step = ActivatedToolSet::new();
    let first = tool.execute(&query("select:b,x"), &mut step_by_step);
    let second = tool.execute(&query("select:s__a,,y,b"), &mut step_by_step);
    let mut at_once = ActivatedToolSet::new();
    let both = tool.execute(&query("select:b,x,s__a,,y,b"), &mut at_once);
    for name in ["s__a", "b", "c", "x", "y"] {
        assert_eq!(step_by_step.is_activated(name), at_once.is_activated(name));
    }
    assert_eq!(step_by_step.len(), 2);
    assert_eq!(at_once.len(), 2);
    let (a, b) = (block("s__a", "A"), block("b", "B"));
    assert_eq!(first.output, format!("<functions>\n{b}</functions>\n\nNot found: x"));
    assert_eq!(second.output, format!("<functions>\n{a}{b}</functions>\n\nNot found: y"));
    assert_eq!(both.output, format!("<functions>\n{b}{a}{b}</functions>\n\nNot found: x, y"));
}

#[test]
fn selection_and_search_write_the_same_blocks() {
    let tool = search_both(&[("s__a", "t one")], &[("b", "t two")]);
    let mut by_name = ActivatedToolSet::new();
    let mut by_keyword = ActivatedToolSet::new();
    let selected = tool.execute(&query("select:s__a,b"), &mut by_name);
    let searched = tool.execute(&query("t"), &mut by_keyword);
    assert_eq!(selected.output, searched.output);
    assert_eq!(by_name.tool_specs().len(), by_keyword.tool_specs().len());
}

#[test]
fn schema_is_written_as_compact_json() {
    let mut activated = ActivatedToolSet::new();
    let live: Arc<dyn Tool> = Arc::new(StubTool {
        name: "odd\"name".to_string(),
        description: String::new(),
        schema: r#"{ "z": [1, -2, 2.5, true, null], "a": "q\"\n" }"#.to_string(),
    });
    let tool = ToolSearchTool::new()
        .with_native_deferred(DeferredNativeToolSet::from_tools(vec![live]));
    let result = tool.execute(&query("select:odd\"name"), &mut activated);
    assert_eq!(
        result.output,
        "<functions>\n<function>{\"name\": \"odd\"name\", \"description\": \"\", \"parameters\": \
         {\"a\":\"q\\\"\\n\",\"z\":[1,-2,2.5,true,null]}}</function>\n</functions>\n"
    );
}

#[test]
fn function_block_is_made_of_its_parts() {
    let mut output = "before ".to_string();
    push_function(&mut output, "n", "say \"x\" \\", "{}");
    assert_eq!(
        output,
        "before <function>{\"name\": \"n\", \"description\": \"say \\\"x\\\" \\\", \"parameters\": {}}</function>\n"
    );
}

#[test]
fn the_prefixed_name_is_the_one_that_counts() {
    let mut activated = ActivatedToolSet::new();
    let stub = DeferredMcpToolStub::new(
        "srv__read".to_string(),
        "stub words".to_string(),
        make_tool("read", "tool words"),
    );
    let tool = ToolSearchTool::new().with_mcp_deferred(make_deferred_set(vec![stub]));
    let result = tool.execute(&query("select:srv__read"), &mut activated);
    assert_eq!(
        result.output,
        format!("<functions>\n{}</functions>\n", block("read", "tool words"))
    );
    assert!(activated.is_activated("srv__read"));
    assert!(!activated.is_activated("read"));
    match tool.plan_for(Some("tool"), None) {
        Plan::Reply(result) => assert_eq!(result.output, "No matching deferred tools found."),
        _ => panic!("no hit was expected"),
    }
}

#[test]
fn activating_a_name_again_replaces_the_tool() {
    let mut activated = ActivatedToolSet::new();
    activated.activate("x".to_string(), make_tool("x", "old"));
    activated.activate("y".to_string(), make_tool("y", "other"));
    activated.activate("x".to_string(), make_tool("x", "new"));
    let specs = activated.tool_specs();
    assert_eq!(specs.len(), 2);
    assert_eq!(specs[0].description, "new");
    assert_eq!(specs[1].description, "other");
    assert!(!activated.is_activated("z"));
}

#[test]
fn mcp_set_looks_up_and_searches_like_the_native_one() {
    let set = make_deferred_set(vec![make_stub("s__a", "alpha beta"), make_stub("s__b", "beta")]);
    assert_eq!(set.get_by_name("s__b").unwrap().description, "beta");
    assert!(set.get_by_name("b").is_none());
    assert_eq!(set.tool_spec("s__a").unwrap().description, "alpha beta");
    assert!(set.tool_spec("a").is_none());
    assert_eq!(set.activate("s__a").unwrap().name(), "s__a");
    assert!(set.activate("a").is_none());
    let hits = set.search("BETA alpha", 1);
    assert_eq!(hits.len(), 1);
    assert_eq!(hits[0].prefixed_name, "s__a");
}
