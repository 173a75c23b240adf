//! Deferred loading of native (built-in) tools.
//!
//! A stub, which is a name and a description, goes into the system prompt. The full parameter
//! schema reaches the model only once the tool has been activated through `tool_search`. Native
//! stubs use bare names such as `shell`.

use crate::catalog::{self, Entry, Stub};
use crate::search_laws;
use crate::text;
use crate::tool::{Tool, ToolSpec};
use std::sync::Arc;
use vstd::prelude::*;

verus! {

/// A native tool registered as a stub. The live tool is kept, so that activation is a cheap clone
/// of the handle.
pub struct DeferredNativeToolStub<T: ?Sized + Tool = dyn Tool> {
    /// Bare tool name, which the model calls once the tool is activated.
    pub name: String,
    /// Human-readable description, taken from the tool.
    pub description: String,
    /// The live tool.
    pub tool: Arc<T>,
}

/// What the debug form of a stub is made of: its name and its description in quotes.
pub open spec fn stub_debug(quoted_name: Seq<char>, quoted_description: Seq<char>) -> Seq<char> {
    "DeferredNativeToolStub { name: "@ + quoted_name + ", description: "@ + quoted_description
        + ", .. }"@
}

/// Writes the debug form of a stub from its quoted name and its quoted description.
pub fn write_stub_debug(quoted_name: &str, quoted_description: &str) -> (r: String)
    ensures
        r@ == stub_debug(quoted_name@, quoted_description@),
{
    let mut r = "DeferredNativeToolStub { name: ".to_string();
    r.append(quoted_name);
    r.append(", description: ");
    r.append(quoted_description);
    r.append(", .. }");
    r
}

impl<T: ?Sized + Tool> DeferredNativeToolStub<T> {
    /// Whether this is the stub of a tool: it has the tool's name and description, and holds the
    /// tool itself.
    pub open spec fn captures(self, tool: Arc<T>) -> bool {
        &&& self.name@ == tool.described().name
        &&& self.description@ == tool.described().description
        &&& self.tool == tool
    }

    /// The stub of a live tool.
    pub fn new(tool: Arc<T>) -> (r: Self)
        ensures
            r.captures(tool),
            r.name@ == tool.described().name,
            r.description@ == tool.described().description,
            r.tool == tool,
    {
        let name = tool.name().to_string();
        let description = tool.description().to_string();
        DeferredNativeToolStub { name, description, tool }
    }

    /// The live tool behind the stub.
    pub fn activate(&self) -> (r: Arc<T>)
        ensures
            r == self.tool,
    {
        Arc::clone(&self.tool)
    }

    /// The stub in debug output. The live tool is left out.
    pub fn debug_text(&self) -> (r: String)
        ensures
            r@ == stub_debug(
                text::quoted(self.name@),
                text::quoted(self.description@),
            ),
    {
        let name = text::quote(self.name.as_str());
        let description = text::quote(self.description.as_str());
        write_stub_debug(name.as_str(), description.as_str())
    }
}

impl<T: ?Sized + Tool> Clone for DeferredNativeToolStub<T> {
    fn clone(&self) -> (r: Self)
        ensures
            r == *self,
    {
        DeferredNativeToolStub {
            name: self.name.clone(),
            description: self.description.clone(),
            tool: Arc::clone(&self.tool),
        }
    }
}

impl<T: ?Sized + Tool> Stub for DeferredNativeToolStub<T> {
    open spec fn entry(&self) -> Entry {
        Entry { name: self.name@, description: self.description@ }
    }

    fn stub_name(&self) -> (r: &String) {
        &self.name
    }

    fn stub_description(&self) -> (r: &String) {
        &self.description
    }
}

/// The native tool stubs that are known at startup.
pub struct DeferredNativeToolSet<T: ?Sized + Tool = dyn Tool> {
    pub stubs: Vec<DeferredNativeToolStub<T>>,
}

impl<T: ?Sized + Tool> Default for DeferredNativeToolSet<T> {
    fn default() -> (r: Self)
        ensures
            r.stubs@.len() == 0,
    {
        DeferredNativeToolSet { stubs: Vec::new() }
    }
}

impl<T: ?Sized + Tool> Clone for DeferredNativeToolSet<T> {
    fn clone(&self) -> (r: Self)
        ensures
            r.stubs@ == self.stubs@,
    {
        let mut stubs: Vec<DeferredNativeToolStub<T>> = Vec::new();
        for i in 0..self.stubs.len()
            invariant
                stubs@ == self.stubs@.take(i as int),
        {
            stubs.push(self.stubs[i].clone());
        }
        DeferredNativeToolSet { stubs }
    }
}

impl<T: ?Sized + Tool> DeferredNativeToolSet<T> {
    /// What keyword search sees of the stubs.
    pub open spec fn catalog(self) -> Seq<Entry> {
        catalog::entries(self.stubs@)
    }

    /// The names of the stubs, in order.
    pub open spec fn names(self) -> Seq<Seq<char>> {
        catalog::names_in(self.catalog())
    }

    /// The first stub with a given name.
    pub open spec fn named(self, name: Seq<char>) -> Option<DeferredNativeToolStub<T>> {
        catalog::named(self.stubs@, name)
    }

    /// A set with the stub of every tool, in order.
    pub fn from_tools(tools: Vec<Arc<T>>) -> (r: Self)
        ensures
            r.stubs@.len() == tools@.len(),
            forall|i: int| 0 <= i < tools@.len() ==> (#[trigger] r.stubs@[i]).captures(tools@[i]),
    {
        let mut stubs: Vec<DeferredNativeToolStub<T>> = Vec::new();
        for i in 0..tools.len()
            invariant
                stubs@.len() == i,
                forall|k: int| 0 <= k < i ==> (#[trigger] stubs@[k]).captures(tools@[k]),
        {
            stubs.push(DeferredNativeToolStub::new(Arc::clone(&tools[i])));
        }
        DeferredNativeToolSet { stubs }
    }

    /// All stub names, in order.
    pub fn stub_names(&self) -> (r: Vec<&str>)
        ensures
            r@.map_values(|name: &str| name@) == self.names(),
    {
        let mut r: Vec<&str> = Vec::new();
        for i in 0..self.stubs.len()
            invariant
                r@.map_values(|name: &str| name@) == self.names().take(i as int),
        {
            let name = self.stubs[i].name.as_str();
            let ghost before = r@;
            r.push(name);
            assert(r@.map_values(|name: &str| name@) == before.map_values(|name: &str| name@).push(
                name@,
            ));
            assert(self.names()[i as int] == name@);
        }
        r
    }

    /// The number of stubs.
    pub fn len(&self) -> (r: usize)
        ensures
            r == self.stubs@.len(),
    {
        self.stubs.len()
    }

    /// Whether there is no stub.
    pub fn is_empty(&self) -> (r: bool)
        ensures
            r == (self.stubs@.len() == 0),
    {
        self.stubs.len() == 0
    }

    /// Looks up a stub by its exact name.
    pub fn get_by_name(&self, name: &str) -> (r: Option<&DeferredNativeToolStub<T>>)
        ensures
            match self.named(name@) {
                Some(stub) => r is Some && *r->0 == stub,
                None => r is None,
            },
            r is Some <==> exists|i: int|
                0 <= i < self.stubs@.len() && (#[trigger] self.stubs@[i]).name@ == name@,
            r is Some ==> r->0.name@ == name@,
    {
        proof {
            search_laws::law_native_lookup_is_exact(*self, name@);
        }
        catalog::find(&self.stubs, name)
    }

    /// Keyword search. Without regard to ASCII case, each term of the query is looked for in name
    /// and description together. A stub in which at least one term occurs is found, and the stubs
    /// in which the most terms occur come first.
    pub fn search(&self, query: &str, max_results: usize) -> (r: Vec<&DeferredNativeToolStub<T>>)
        ensures
            r@ == catalog::found(self.catalog(), query@, max_results as nat).map_values(
                |i: int| &self.stubs@[i],
            ),
    {
        catalog::search(&self.stubs, query, max_results)
    }

    /// The live tool behind the stub with a given name.
    pub fn activate(&self, name: &str) -> (r: Option<Arc<T>>)
        ensures
            match self.named(name@) {
                Some(stub) => r == Some(stub.tool),
                None => r is None,
            },
            r is Some <==> exists|i: int|
                0 <= i < self.stubs@.len() && (#[trigger] self.stubs@[i]).name@ == name@,
    {
        match self.get_by_name(name) {
            Some(stub) => Some(stub.activate()),
            None => None,
        }
    }

    /// The full specification of the tool behind the stub with a given name.
    pub fn tool_spec(&self, name: &str) -> (r: Option<ToolSpec>)
        ensures
            match self.named(name@) {
                Some(stub) => r is Some && r->0@ == stub.tool.described(),
                None => r is None,
            },
            r is Some <==> exists|i: int|
                0 <= i < self.stubs@.len() && (#[trigger] self.stubs@[i]).name@ == name@,
    {
        match self.get_by_name(name) {
            Some(stub) => Some(stub.tool.spec()),
            None => None,
        }
    }
}

} // verus!
