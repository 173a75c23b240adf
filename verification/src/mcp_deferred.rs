//! Deferred loading of tools that MCP servers offer, and the set of activated tools.
//!
//! MCP stubs use names of the form `server__tool`. They go through the same search and the same
//! activation as the native ones.

use crate::catalog::{self, Entry, Stub};
use crate::search_laws;
use crate::tool::{Tool, ToolSpec};
use std::sync::Arc;
use vstd::prelude::*;

verus! {

/// A tool of an MCP server registered as a stub.
pub struct DeferredMcpToolStub<T: ?Sized + Tool = dyn Tool> {
    /// The tool's name behind the name of its server.
    pub prefixed_name: String,
    /// Human-readable description, as the server gives it.
    pub description: String,
    /// The live tool, which forwards its calls to the server.
    pub tool: Arc<T>,
}

impl<T: ?Sized + Tool> DeferredMcpToolStub<T> {
    /// A stub with the given name and description for a live tool.
    pub fn new(prefixed_name: String, description: String, tool: Arc<T>) -> (r: Self)
        ensures
            r.prefixed_name == prefixed_name,
            r.description == description,
            r.tool == tool,
    {
        DeferredMcpToolStub { prefixed_name, description, tool }
    }

    /// The live tool behind the stub.
    pub fn activate(&self) -> (r: Arc<T>)
        ensures
            r == self.tool,
    {
        Arc::clone(&self.tool)
    }
}

impl<T: ?Sized + Tool> Stub for DeferredMcpToolStub<T> {
    open spec fn entry(&self) -> Entry {
        Entry { name: self.prefixed_name@, description: self.description@ }
    }

    fn stub_name(&self) -> (r: &String) {
        &self.prefixed_name
    }

    fn stub_description(&self) -> (r: &String) {
        &self.description
    }
}

/// The MCP tool stubs of all connected servers.
pub struct DeferredMcpToolSet<T: ?Sized + Tool = dyn Tool> {
    pub stubs: Vec<DeferredMcpToolStub<T>>,
}

impl<T: ?Sized + Tool> DeferredMcpToolSet<T> {
    /// What keyword search sees of the stubs.
    pub open spec fn catalog(self) -> Seq<Entry> {
        catalog::entries(self.stubs@)
    }

    /// The prefixed names of the stubs, in order.
    pub open spec fn names(self) -> Seq<Seq<char>> {
        catalog::names_in(self.catalog())
    }

    /// The first stub with a given prefixed name.
    pub open spec fn named(self, name: Seq<char>) -> Option<DeferredMcpToolStub<T>> {
        catalog::named(self.stubs@, name)
    }

    /// Looks up a stub by its exact prefixed name.
    pub fn get_by_name(&self, name: &str) -> (r: Option<&DeferredMcpToolStub<T>>)
        ensures
            match self.named(name@) {
                Some(stub) => r is Some && *r->0 == stub,
                None => r is None,
            },
            r is Some <==> exists|i: int|
                0 <= i < self.stubs@.len() && (#[trigger] self.stubs@[i]).prefixed_name@ == name@,
            r is Some ==> r->0.prefixed_name@ == name@,
    {
        proof {
            search_laws::law_mcp_lookup_is_exact(*self, name@);
        }
        catalog::find(&self.stubs, name)
    }

    /// Keyword search. Without regard to ASCII case, each term of the query is looked for in name
    /// and description together. A stub in which at least one term occurs is found, and the stubs
    /// in which the most terms occur come first.
    pub fn search(&self, query: &str, max_results: usize) -> (r: Vec<&DeferredMcpToolStub<T>>)
        ensures
            r@ == catalog::found(self.catalog(), query@, max_results as nat).map_values(
                |i: int| &self.stubs@[i],
            ),
    {
        catalog::search(&self.stubs, query, max_results)
    }

    /// The live tool behind the stub with a given prefixed name.
    pub fn activate(&self, name: &str) -> (r: Option<Arc<T>>)
        ensures
            match self.named(name@) {
                Some(stub) => r == Some(stub.tool),
                None => r is None,
            },
            r is Some <==> exists|i: int|
                0 <= i < self.stubs@.len() && (#[trigger] self.stubs@[i]).prefixed_name@ == name@,
    {
        match self.get_by_name(name) {
            Some(stub) => Some(stub.activate()),
            None => None,
        }
    }

    /// The full specification of the tool behind the stub with a given prefixed name.
    pub fn tool_spec(&self, name: &str) -> (r: Option<ToolSpec>)
        ensures
            match self.named(name@) {
                Some(stub) => r is Some && r->0@ == stub.tool.described(),
                None => r is None,
            },
            r is Some <==> exists|i: int|
                0 <= i < self.stubs@.len() && (#[trigger] self.stubs@[i]).prefixed_name@ == name@,
    {
        match self.get_by_name(name) {
            Some(stub) => Some(stub.tool.spec()),
            None => None,
        }
    }
}

/// The tools that have been activated, by the name each was activated under.
pub struct ActivatedToolSet<T: ?Sized + Tool = dyn Tool> {
    tools: Vec<(String, Arc<T>)>,
}

/// The names in a list of named tools.
spec fn names_of<T: ?Sized + Tool>(tools: Seq<(String, Arc<T>)>) -> Seq<Seq<char>> {
    tools.map_values(|entry: (String, Arc<T>)| entry.0@)
}

/// The tools in a list of named tools, by name.
spec fn by_name<T: ?Sized + Tool>(tools: Seq<(String, Arc<T>)>) -> Map<Seq<char>, Arc<T>> {
    Map::new(
        |name: Seq<char>| names_of(tools).contains(name),
        |name: Seq<char>| tools[names_of(tools).index_of(name)].1,
    )
}

/// In a list without repeated names every tool is the one found under its name.
proof fn lemma_by_name<T: ?Sized + Tool>(tools: Seq<(String, Arc<T>)>)
    requires
        names_of(tools).no_duplicates(),
    ensures
        forall|i: int| 0 <= i < tools.len() ==> by_name(tools)[names_of(tools)[i]] == tools[i].1,
{
    assert forall|i: int| 0 <= i < tools.len() implies by_name(tools)[names_of(tools)[i]]
        == tools[i].1 by {
        assert(names_of(tools).contains(names_of(tools)[i]));
        assert(names_of(tools).index_of(names_of(tools)[i]) == i);
    }
}

/// Putting a tool in the place of the one with its name, or at the end where there is none,
/// inserts it under its name.
proof fn lemma_put<T: ?Sized + Tool>(
    tools: Seq<(String, Arc<T>)>,
    at: int,
    entry: (String, Arc<T>),
)
    requires
        names_of(tools).no_duplicates(),
        0 <= at <= tools.len(),
        at < tools.len() ==> tools[at].0@ == entry.0@,
        at == tools.len() ==> !names_of(tools).contains(entry.0@),
    ensures
        ({
            let after = if at < tools.len() {
                tools.update(at, entry)
            } else {
                tools.push(entry)
            };
            &&& names_of(after).no_duplicates()
            &&& by_name(after) == by_name(tools).insert(entry.0@, entry.1)
            &&& names_of(after) == if at < tools.len() {
                names_of(tools)
            } else {
                names_of(tools).push(entry.0@)
            }
        }),
{
    let after = if at < tools.len() {
        tools.update(at, entry)
    } else {
        tools.push(entry)
    };
    let names = names_of(tools);
    let new_names = names_of(after);
    if at < tools.len() {
        assert(new_names =~= names);
    } else {
        assert(new_names =~= names.push(entry.0@));
        assert forall|i: int, j: int| 0 <= i < j < new_names.len() implies new_names[i]
            != new_names[j] by {
            assert(names[i] == new_names[i]);
        }
    }
    lemma_by_name(tools);
    lemma_by_name(after);
    let expected = by_name(tools).insert(entry.0@, entry.1);
    assert(new_names[at] == entry.0@);
    assert forall|name: Seq<char>| by_name(after).contains_key(name) == expected.contains_key(
        name,
    ) by {
        if new_names.contains(name) {
            let i = new_names.index_of(name);
            assert(i != at ==> names[i] == name);
        }
        if names.contains(name) {
            let i = names.index_of(name);
            assert(new_names[i] == name);
        }
    }
    assert forall|name: Seq<char>| by_name(after).contains_key(name) implies by_name(after)[name]
        == expected[name] by {
        let i = new_names.index_of(name);
        assert(new_names[i] == name);
        if i != at {
            assert(names[i] == name);
            assert(after[i] == tools[i]);
        }
    }
    assert(by_name(after) =~= expected);
}

impl<T: ?Sized + Tool> View for ActivatedToolSet<T> {
    type V = Map<Seq<char>, Arc<T>>;

    closed spec fn view(&self) -> Map<Seq<char>, Arc<T>> {
        by_name(self.tools@)
    }
}

impl<T: ?Sized + Tool> ActivatedToolSet<T> {
    /// No name stands in the set twice.
    #[verifier::type_invariant]
    spec fn distinct(self) -> bool {
        names_of(self.tools@).no_duplicates()
    }

    /// The names of the activated tools, in the order in which they were activated.
    pub closed spec fn order(self) -> Seq<Seq<char>> {
        names_of(self.tools@)
    }

    /// A set without any tool.
    pub fn new() -> (r: Self)
        ensures
            r@ == Map::<Seq<char>, Arc<T>>::empty(),
            r.order() == Seq::<Seq<char>>::empty(),
    {
        let r = ActivatedToolSet { tools: Vec::new() };
        assert(r@ =~= Map::<Seq<char>, Arc<T>>::empty());
        r
    }

    /// The number of activated tools.
    pub fn len(&self) -> (r: usize)
        ensures
            r == self@.dom().len(),
    {
        proof {
            use_type_invariant(self);
            assert(self.order().to_set() =~= self@.dom());
            self.order().unique_seq_to_set();
        }
        self.tools.len()
    }

    /// Whether a tool is activated under a name.
    pub fn is_activated(&self, name: &str) -> (r: bool)
        ensures
            r == self@.contains_key(name@),
    {
        let wanted = name.to_string();
        for i in 0..self.tools.len()
            invariant
                wanted@ == name@,
                forall|k: int| 0 <= k < i ==> names_of(self.tools@)[k] != name@,
        {
            if self.tools[i].0 == wanted {
                assert(names_of(self.tools@)[i as int] == name@);
                return true;
            }
        }
        false
    }

    /// Activates a tool under a name. Another tool with that name is replaced.
    pub fn activate(&mut self, name: String, tool: Arc<T>)
        ensures
            final(self)@ == old(self)@.insert(name@, tool),
            final(self).order() == if old(self)@.contains_key(name@) {
                old(self).order()
            } else {
                old(self).order().push(name@)
            },
    {
        proof {
            use_type_invariant(&*self);
        }
        let mut tools: Vec<(String, Arc<T>)> = Vec::new();
        std::mem::swap(&mut tools, &mut self.tools);
        let ghost before = tools@;
        let mut i: usize = 0;
        while i < tools.len() && tools[i].0 != name
            invariant
                tools@ == before,
                i <= tools@.len(),
                forall|k: int| 0 <= k < i ==> names_of(before)[k] != name@,
            decreases tools@.len() - i,
        {
            i += 1;
        }
        proof {
            if i == before.len() && names_of(before).contains(name@) {
                assert(names_of(before)[names_of(before).index_of(name@)] == name@);
            }
            assert(i < before.len() ==> names_of(before)[i as int] == name@);
            lemma_put(before, i as int, (name, tool));
        }
        if i < tools.len() {
            tools[i] = (name, tool);
        } else {
            tools.push((name, tool));
        }
        self.tools = tools;
    }

    /// The specifications of the activated tools, one for each.
    pub fn tool_specs(&self) -> (r: Vec<ToolSpec>)
        ensures
            self.order().no_duplicates(),
            self.order().to_set() == self@.dom(),
            r@.len() == self.order().len() == self@.dom().len(),
            forall|i: int|
                0 <= i < r@.len() ==> (#[trigger] r@[i])@ == self@[self.order()[i]].described(),
    {
        proof {
            use_type_invariant(self);
        }
        let mut r: Vec<ToolSpec> = Vec::new();
        for i in 0..self.tools.len()
            invariant
                r@.len() == i,
                forall|k: int| 0 <= k < i ==> (#[trigger] r@[k])@ == self.tools@[k].1.described(),
        {
            r.push(self.tools[i].1.spec());
        }
        proof {
            lemma_by_name(self.tools@);
            assert(self.order().to_set() =~= self@.dom());
            self.order().unique_seq_to_set();
        }
        r
    }
}

} // verus!
