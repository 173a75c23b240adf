//! What a tool tells of itself, and what a call of one returns.

use crate::json::{self, Json};
use vstd::prelude::*;

verus! {

/// The full description of a tool, its parameter schema included.
pub struct ToolSpec {
    pub name: String,
    pub description: String,
    pub parameters: serde_json::Value,
}

/// The content of a [`ToolSpec`].
pub struct ToolSpecView {
    pub name: Seq<char>,
    pub description: Seq<char>,
    pub parameters: Json,
}

impl View for ToolSpec {
    type V = ToolSpecView;

    open spec fn view(&self) -> ToolSpecView {
        ToolSpecView {
            name: self.name@,
            description: self.description@,
            parameters: json::json(self.parameters),
        }
    }
}

/// The outcome of a tool call.
pub struct ToolResult {
    pub success: bool,
    pub output: String,
    pub error: Option<String>,
}

/// The content of a [`ToolResult`].
pub struct ToolResultView {
    pub success: bool,
    pub output: Seq<char>,
    pub error: Option<Seq<char>>,
}

impl View for ToolResult {
    type V = ToolResultView;

    open spec fn view(&self) -> ToolResultView {
        ToolResultView {
            success: self.success,
            output: self.output@,
            error: match self.error {
                Some(error) => Some(error@),
                None => None,
            },
        }
    }
}

/// A tool that can be offered to a language model.
///
/// What a tool tells of itself is fixed: it is the same at every call.
pub trait Tool: Send + Sync {
    /// What the tool tells of itself. A verified implementation defines this; of one that does
    /// not, nothing more is known than that its methods agree with it.
    open spec fn described(&self) -> ToolSpecView {
        arbitrary()
    }

    /// The name under which the tool is called.
    fn name(&self) -> (r: &str)
        ensures
            r@ == self.described().name,
    ;

    /// What the tool does, in words.
    fn description(&self) -> (r: &str)
        ensures
            r@ == self.described().description,
    ;

    /// The JSON schema of the arguments that the tool takes.
    fn parameters_schema(&self) -> (r: serde_json::Value)
        ensures
            json::json(r) == self.described().parameters,
    ;

    /// The name, the description and the schema together.
    fn spec(&self) -> (r: ToolSpec)
        ensures
            r@ == self.described(),
    {
        ToolSpec {
            name: self.name().to_string(),
            description: self.description().to_string(),
            parameters: self.parameters_schema(),
        }
    }
}

} // verus!
