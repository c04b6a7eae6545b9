//! The MCP server over stdio: how it describes itself, its tool listing,
//! and the answer to a tool call.
use vstd::prelude::*;
use crate::tools::{tool_list, ToolSpec};

verus! {

/// The text the server gives clients about itself.
pub open spec fn instructions() -> Seq<char> {
    "MCP server providing WSL system information and command execution"@
}

/// The MCP server.
#[derive(Clone, Copy)]
pub struct McpWslServer;

/// The content of a tool call's answer: the tool's text, and whether it is
/// an error.
pub struct ToolCallContent {
    pub text: String,
    pub is_error: bool,
}

/// How the server describes itself.
pub struct ServerDescription {
    pub instructions: String,
    /// Whether it offers tools.
    pub tools: bool,
}

impl McpWslServer {
    /// `get_info`: the instructions, and the tools capability.
    pub fn get_info(&self) -> (r: ServerDescription)
        ensures
            r.instructions@ == instructions(),
            r.tools,
    {
        ServerDescription {
            instructions: "MCP server providing WSL system information and command execution".to_owned(),
            tools: true,
        }
    }

    /// `list_tools`: the tool listing.
    pub fn list_tools(&self) -> (r: Vec<ToolSpec>)
        ensures
            r@.len() == crate::tools::catalog_order().len(),
            forall|i: int| 0 <= i < r@.len() ==> #[trigger] r@[i]@ == crate::tools::tool_view(crate::tools::catalog_order()[i]),
    {
        tool_list()
    }

    /// `call_tool`: the answer to a tool call, from what the tool gave.
    pub fn call_tool(&self, result: Result<String, String>) -> (r: ToolCallContent)
        ensures
            match result {
                Ok(t) => r.text == t && !r.is_error,
                Err(e) => r.text == e && r.is_error,
            },
    {
        tool_call_content(result)
    }
}

/// The content of the answer to a tool call: the text on success, the error
/// text flagged as an error otherwise.
pub fn tool_call_content(result: Result<String, String>) -> (r: ToolCallContent)
    ensures
        match result {
            Ok(t) => r.text == t && !r.is_error,
            Err(e) => r.text == e && r.is_error,
        },
{
    match result {
        Ok(text) => ToolCallContent { text, is_error: false },
        Err(text) => ToolCallContent { text, is_error: true },
    }
}

} // verus!
