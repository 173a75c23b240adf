use std::sync::Arc;
use tool_search::native_deferred::{write_stub_debug, DeferredNativeToolSet, DeferredNativeToolStub};
use tool_search::tool::Tool;

struct StubTool {
    name: String,
    description: String,
}

impl Tool for StubTool {
    fn name(&self) -> &str {
        &self.name
    }
    fn description(&self) -> &str {
        &self.description
    }
    fn parameters_schema(&self) -> serde_json::Value {
        serde_json::from_str(r#"{"type": "object", "properties": {}}"#).unwrap()
    }
}

fn make_tool(name: &str, desc: &str) -> Arc<dyn Tool> {
    Arc::new(StubTool {
        name: name.into(),
        description: desc.into(),
    })
}

fn found<'a>(set: &'a DeferredNativeToolSet, query: &str, max_results: usize) -> Vec<&'a str> {
    let mut names = Vec::new();
    for stub in set.search(query, max_results) {
        names.push(stub.name.as_str());
    }
    names
}

#[test]
fn stub_captures_name_and_description() {
    let stub = DeferredNativeToolStub::new(make_tool("shell", "Run shell commands"));
    assert_eq!(stub.name, "shell");
    assert_eq!(stub.description, "Run shell commands");
}

#[test]
fn from_tools_builds_set_with_all_stubs() {
    let set = DeferredNativeToolSet::from_tools(vec![
        make_tool("shell", "Run shell commands"),
        make_tool("web_search", "Search the web"),
    ]);
    assert_eq!(set.len(), 2);
    let names = set.stub_names();
    assert!(names.contains(&"shell"));
    assert!(names.contains(&"web_search"));
}

#[test]
fn get_by_name_finds_exact_match() {
    let set = DeferredNativeToolSet::from_tools(vec![make_tool("shell", "Run shell")]);
    assert!(set.get_by_name("shell").is_some());
    assert!(set.get_by_name("nope").is_none());
}

#[test]
fn search_finds_by_description_keyword() {
    let set = DeferredNativeToolSet::from_tools(vec![
        make_tool("shell", "Run shell commands"),
        make_tool("web_search", "Search the web for results"),
    ]);
    let hits = set.search("search", 5);
    assert_eq!(hits.len(), 1);
    assert_eq!(hits[0].name, "web_search");
}

#[test]
fn search_ranks_by_match_count() {
    let set = DeferredNativeToolSet::from_tools(vec![
        make_tool("shell", "Run a shell command"),
        make_tool("web_search", "Search the web shell-like"),
    ]);
    let hits = set.search("shell command", 5);
    assert_eq!(hits[0].name, "shell");
}

#[test]
fn activate_returns_clone_of_arc() {
    let set = DeferredNativeToolSet::from_tools(vec![make_tool("shell", "Run shell")]);
    let live = set.activate("shell").expect("activates");
    assert_eq!(live.name(), "shell");
}

#[test]
fn tool_spec_returns_full_schema() {
    let set = DeferredNativeToolSet::from_tools(vec![make_tool("shell", "Run shell")]);
    let spec = set.tool_spec("shell").expect("has spec");
    assert_eq!(spec.name, "shell");
    assert!(spec.parameters.is_object());
}

#[test]
fn activation_hands_out_the_tool_itself() {
    let tool = make_tool("shell", "Run shell");
    let set = DeferredNativeToolSet::from_tools(vec![Arc::clone(&tool)]);
    assert!(Arc::ptr_eq(&set.activate("shell").unwrap(), &tool));
    assert!(Arc::ptr_eq(&set.stubs[0].activate(), &tool));
    assert!(set.activate("Shell").is_none());
    assert!(set.tool_spec("Shell").is_none());
}

#[test]
fn lookup_takes_the_first_stub_with_the_name() {
    let set = DeferredNativeToolSet::from_tools(vec![
        make_tool("a", "other"),
        make_tool("twin", "first"),
        make_tool("twin", "second"),
    ]);
    assert_eq!(set.get_by_name("twin").unwrap().description, "first");
    assert_eq!(set.tool_spec("twin").unwrap().description, "first");
}

#[test]
fn stub_names_keep_the_order_of_the_tools() {
    let set = DeferredNativeToolSet::from_tools(vec![
        make_tool("c", ""),
        make_tool("a", ""),
        make_tool("b", ""),
    ]);
    assert_eq!(set.stub_names(), vec!["c", "a", "b"]);
    assert!(!set.is_empty());
}

#[test]
fn default_set_is_empty() {
    let set: DeferredNativeToolSet = DeferredNativeToolSet::default();
    assert_eq!(set.len(), 0);
    assert!(set.is_empty());
    assert!(set.search("anything", 5).is_empty());
}

#[test]
fn clone_keeps_the_stubs_and_the_live_tools() {
    let set = DeferredNativeToolSet::from_tools(vec![make_tool("a", "x"), make_tool("b", "y")]);
    let copy = set.clone();
    assert_eq!(copy.stub_names(), vec!["a", "b"]);
    assert_eq!(copy.stubs[1].description, "y");
    assert!(Arc::ptr_eq(&copy.stubs[0].tool, &set.stubs[0].tool));
}

#[test]
fn ranking_is_descending_and_keeps_ties_in_order() {
    let set = DeferredNativeToolSet::from_tools(vec![
        make_tool("one_a", "red"),
        make_tool("none", "grey"),
        make_tool("two_a", "red green"),
        make_tool("one_b", "green"),
        make_tool("three", "red green blue"),
        make_tool("two_b", "blue red"),
    ]);
    assert_eq!(
        found(&set, "red green blue", 10),
        vec!["three", "two_a", "two_b", "one_a", "one_b"]
    );
    assert_eq!(found(&set, "red green blue", 2), vec!["three", "two_a"]);
    assert!(found(&set, "red green blue", 0).is_empty());
}

#[test]
fn a_repeated_term_counts_each_time() {
    let set = DeferredNativeToolSet::from_tools(vec![
        make_tool("p", "beta gamma"),
        make_tool("q", "alpha"),
    ]);
    assert_eq!(found(&set, "alpha alpha alpha beta gamma", 5), vec!["q", "p"]);
}

#[test]
fn search_ignores_ascii_case_only() {
    let set = DeferredNativeToolSet::from_tools(vec![make_tool("Shell", "CAF\u{c9} Tool")]);
    assert_eq!(found(&set, "sHELL", 5), vec!["Shell"]);
    assert_eq!(found(&set, "caf\u{c9}", 5), vec!["Shell"]);
    assert!(found(&set, "caf\u{e9}", 5).is_empty());
    assert_eq!(found(&set, "TOOL", 5), found(&set, "tool", 5));
}

#[test]
fn terms_match_inside_words_of_name_and_description() {
    let set = DeferredNativeToolSet::from_tools(vec![make_tool("web_search", "Finds pages")]);
    assert_eq!(found(&set, "b_se", 5), vec!["web_search"]);
    assert_eq!(found(&set, "age", 5), vec!["web_search"]);
    assert!(found(&set, "hfinds", 5).is_empty());
}

#[test]
fn search_without_terms_returns_the_first_stubs() {
    let set = DeferredNativeToolSet::from_tools(vec![
        make_tool("a", ""),
        make_tool("b", ""),
        make_tool("c", ""),
    ]);
    assert_eq!(found(&set, " \t\n", 2), vec!["a", "b"]);
    assert_eq!(found(&set, "", 9), vec!["a", "b", "c"]);
}

#[test]
fn white_space_is_that_of_the_standard_library() {
    let set = DeferredNativeToolSet::from_tools(vec![make_tool("", "")]);
    let mut text = String::new();
    for code in 0..=0x10ffffu32 {
        if let Some(c) = char::from_u32(code) {
            text.clear();
            text.push(c);
            // Only a query without terms finds a tool without name and description.
            assert_eq!(set.search(&text, 1).len() == 1, c.is_whitespace(), "{:?}", c);
        }
    }
}

#[test]
fn words_are_those_of_the_standard_library() {
    let query = "\u{3000}alpha  Beta\tga\u{2003}mma\u{85}";
    let mut expected = Vec::new();
    let mut tools = Vec::new();
    for word in query.split_whitespace() {
        let small = word.to_ascii_lowercase();
        tools.push(make_tool(&small, ""));
        expected.push(small);
    }
    let set = DeferredNativeToolSet::from_tools(tools);
    assert_eq!(expected, vec!["alpha", "beta", "ga", "mma"]);
    assert_eq!(found(&set, query, 9), vec!["alpha", "beta", "ga", "mma"]);
}

#[test]
fn debug_text_shows_name_and_description() {
    let stub = DeferredNativeToolStub::new(make_tool("shell", "Say \"hi\"\n"));
    assert_eq!(
        stub.debug_text(),
        "DeferredNativeToolStub { name: \"shell\", description: \"Say \\\"hi\\\"\\n\", .. }"
    );
    assert_eq!(
        write_stub_debug("N", "D"),
        "DeferredNativeToolStub { name: N, description: D, .. }"
    );
}
