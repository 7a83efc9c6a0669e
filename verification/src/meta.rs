//! The gateway's built-in `mcpmux_*` meta tools: their names, whether each
//! one writes (and so needs approval), and the namespace test that routes
//! them before FeatureSet filtering.

use vstd::prelude::*;
use crate::text::{chars_of, starts_with};

verus! {

/// Prefix shared by every meta tool name.
pub const MCPMUX_PREFIX: &'static str = "mcpmux_";

/// The characters of [`MCPMUX_PREFIX`].
pub open spec fn meta_prefix() -> Seq<char> {
    seq!['m', 'c', 'p', 'm', 'u', 'x', '_']
}

/// Whether `name` is one of the gateway's own tools (it carries the prefix).
pub fn is_meta_tool(name: &str) -> (b: bool)
    ensures
        b == meta_prefix().is_prefix_of(name@),
{
    proof {
        reveal_strlit("mcpmux_");
    }
    let prefix = chars_of(MCPMUX_PREFIX);
    assert(prefix@ =~= meta_prefix());
    starts_with(&chars_of(name), &prefix)
}

/// Lists every tool installed in the caller's Space, unfiltered.
pub struct ListAllToolsTool;

/// The name of [`ListAllToolsTool`].
pub open spec fn mcpmux_list_all_tools_name() -> Seq<char> {
    seq!['m', 'c', 'p', 'm', 'u', 'x', '_', 'l', 'i', 's', 't', '_', 'a', 'l', 'l', '_', 't', 'o', 'o', 'l', 's']
}

impl ListAllToolsTool {
    /// The tool's name.
    pub fn name(&self) -> (r: &'static str)
        ensures
            r@ == mcpmux_list_all_tools_name(),
    {
        proof {
            reveal_strlit("mcpmux_list_all_tools");
        }
        "mcpmux_list_all_tools"
    }

    /// Whether calling the tool changes state (and so asks for approval).
    pub fn is_write(&self) -> (b: bool)
        ensures
            b == false,
    {
        false
    }
}

/// Lists the FeatureSets of the caller's Space.
pub struct ListFeatureSetsTool;

/// The name of [`ListFeatureSetsTool`].
pub open spec fn mcpmux_list_feature_sets_name() -> Seq<char> {
    seq!['m', 'c', 'p', 'm', 'u', 'x', '_', 'l', 'i', 's', 't', '_', 'f', 'e', 'a', 't', 'u', 'r', 'e', '_', 's', 'e', 't', 's']
}

impl ListFeatureSetsTool {
    /// The tool's name.
    pub fn name(&self) -> (r: &'static str)
        ensures
            r@ == mcpmux_list_feature_sets_name(),
    {
        proof {
            reveal_strlit("mcpmux_list_feature_sets");
        }
        "mcpmux_list_feature_sets"
    }

    /// Whether calling the tool changes state (and so asks for approval).
    pub fn is_write(&self) -> (b: bool)
        ensures
            b == false,
    {
        false
    }
}

/// Returns the input schemas of named tools.
pub struct GetToolSchemaTool;

/// The name of [`GetToolSchemaTool`].
pub open spec fn mcpmux_get_tool_schema_name() -> Seq<char> {
    seq!['m', 'c', 'p', 'm', 'u', 'x', '_', 'g', 'e', 't', '_', 't', 'o', 'o', 'l', '_', 's', 'c', 'h', 'e', 'm', 'a']
}

impl GetToolSchemaTool {
    /// The tool's name.
    pub fn name(&self) -> (r: &'static str)
        ensures
            r@ == mcpmux_get_tool_schema_name(),
    {
        proof {
            reveal_strlit("mcpmux_get_tool_schema");
        }
        "mcpmux_get_tool_schema"
    }

    /// Whether calling the tool changes state (and so asks for approval).
    pub fn is_write(&self) -> (b: bool)
        ensures
            b == false,
    {
        false
    }
}

/// Forwards an invocation to a backend tool after the permission checks.
pub struct InvokeToolTool;

/// The name of [`InvokeToolTool`].
pub open spec fn mcpmux_invoke_tool_name() -> Seq<char> {
    seq!['m', 'c', 'p', 'm', 'u', 'x', '_', 'i', 'n', 'v', 'o', 'k', 'e', '_', 't', 'o', 'o', 'l']
}

impl InvokeToolTool {
    /// The tool's name.
    pub fn name(&self) -> (r: &'static str)
        ensures
            r@ == mcpmux_invoke_tool_name(),
    {
        proof {
            reveal_strlit("mcpmux_invoke_tool");
        }
        "mcpmux_invoke_tool"
    }

    /// Whether calling the tool changes state (and so asks for approval).
    pub fn is_write(&self) -> (b: bool)
        ensures
            b == false,
    {
        false
    }
}

/// Searches the resources the caller may read.
pub struct SearchResourcesTool;

/// The name of [`SearchResourcesTool`].
pub open spec fn mcpmux_search_resources_name() -> Seq<char> {
    seq!['m', 'c', 'p', 'm', 'u', 'x', '_', 's', 'e', 'a', 'r', 'c', 'h', '_', 'r', 'e', 's', 'o', 'u', 'r', 'c', 'e', 's']
}

impl SearchResourcesTool {
    /// The tool's name.
    pub fn name(&self) -> (r: &'static str)
        ensures
            r@ == mcpmux_search_resources_name(),
    {
        proof {
            reveal_strlit("mcpmux_search_resources");
        }
        "mcpmux_search_resources"
    }

    /// Whether calling the tool changes state (and so asks for approval).
    pub fn is_write(&self) -> (b: bool)
        ensures
            b == false,
    {
        false
    }
}

/// Reads one resource through the gateway.
pub struct ReadResourceTool;

/// The name of [`ReadResourceTool`].
pub open spec fn mcpmux_read_resource_name() -> Seq<char> {
    seq!['m', 'c', 'p', 'm', 'u', 'x', '_', 'r', 'e', 'a', 'd', '_', 'r', 'e', 's', 'o', 'u', 'r', 'c', 'e']
}

impl ReadResourceTool {
    /// The tool's name.
    pub fn name(&self) -> (r: &'static str)
        ensures
            r@ == mcpmux_read_resource_name(),
    {
        proof {
            reveal_strlit("mcpmux_read_resource");
        }
        "mcpmux_read_resource"
    }

    /// Whether calling the tool changes state (and so asks for approval).
    pub fn is_write(&self) -> (b: bool)
        ensures
            b == false,
    {
        false
    }
}

/// Searches the prompts the caller may fetch.
pub struct SearchPromptsTool;

/// The name of [`SearchPromptsTool`].
pub open spec fn mcpmux_search_prompts_name() -> Seq<char> {
    seq!['m', 'c', 'p', 'm', 'u', 'x', '_', 's', 'e', 'a', 'r', 'c', 'h', '_', 'p', 'r', 'o', 'm', 'p', 't', 's']
}

impl SearchPromptsTool {
    /// The tool's name.
    pub fn name(&self) -> (r: &'static str)
        ensures
            r@ == mcpmux_search_prompts_name(),
    {
        proof {
            reveal_strlit("mcpmux_search_prompts");
        }
        "mcpmux_search_prompts"
    }

    /// Whether calling the tool changes state (and so asks for approval).
    pub fn is_write(&self) -> (b: bool)
        ensures
            b == false,
    {
        false
    }
}

/// Fetches one prompt through the gateway.
pub struct FetchPromptTool;

/// The name of [`FetchPromptTool`].
pub open spec fn mcpmux_fetch_prompt_name() -> Seq<char> {
    seq!['m', 'c', 'p', 'm', 'u', 'x', '_', 'f', 'e', 't', 'c', 'h', '_', 'p', 'r', 'o', 'm', 'p', 't']
}

impl FetchPromptTool {
    /// The tool's name.
    pub fn name(&self) -> (r: &'static str)
        ensures
            r@ == mcpmux_fetch_prompt_name(),
    {
        proof {
            reveal_strlit("mcpmux_fetch_prompt");
        }
        "mcpmux_fetch_prompt"
    }

    /// Whether calling the tool changes state (and so asks for approval).
    pub fn is_write(&self) -> (b: bool)
        ensures
            b == false,
    {
        false
    }
}

/// Appends a FeatureSet to the binding of the caller's workspace (needs approval).
pub struct BindCurrentWorkspaceTool;

/// The name of [`BindCurrentWorkspaceTool`].
pub open spec fn mcpmux_bind_current_workspace_name() -> Seq<char> {
    seq!['m', 'c', 'p', 'm', 'u', 'x', '_', 'b', 'i', 'n', 'd', '_', 'c', 'u', 'r', 'r', 'e', 'n', 't', '_', 'w', 'o', 'r', 'k', 's', 'p', 'a', 'c', 'e']
}

impl BindCurrentWorkspaceTool {
    /// The tool's name.
    pub fn name(&self) -> (r: &'static str)
        ensures
            r@ == mcpmux_bind_current_workspace_name(),
    {
        proof {
            reveal_strlit("mcpmux_bind_current_workspace");
        }
        "mcpmux_bind_current_workspace"
    }

    /// Whether calling the tool changes state (and so asks for approval).
    pub fn is_write(&self) -> (b: bool)
        ensures
            b == true,
    {
        true
    }
}

/// Every built-in tool is routed as a meta tool: its name carries the prefix.
pub proof fn law_every_tool_is_meta()
    ensures
        meta_prefix().is_prefix_of(mcpmux_list_all_tools_name()),
        meta_prefix().is_prefix_of(mcpmux_list_feature_sets_name()),
        meta_prefix().is_prefix_of(mcpmux_get_tool_schema_name()),
        meta_prefix().is_prefix_of(mcpmux_invoke_tool_name()),
        meta_prefix().is_prefix_of(mcpmux_search_resources_name()),
        meta_prefix().is_prefix_of(mcpmux_read_resource_name()),
        meta_prefix().is_prefix_of(mcpmux_search_prompts_name()),
        meta_prefix().is_prefix_of(mcpmux_fetch_prompt_name()),
        meta_prefix().is_prefix_of(mcpmux_bind_current_workspace_name()),

{
    assert(meta_prefix() =~= mcpmux_list_all_tools_name().take(7));
    assert(meta_prefix() =~= mcpmux_list_feature_sets_name().take(7));
    assert(meta_prefix() =~= mcpmux_get_tool_schema_name().take(7));
    assert(meta_prefix() =~= mcpmux_invoke_tool_name().take(7));
    assert(meta_prefix() =~= mcpmux_search_resources_name().take(7));
    assert(meta_prefix() =~= mcpmux_read_resource_name().take(7));
    assert(meta_prefix() =~= mcpmux_search_prompts_name().take(7));
    assert(meta_prefix() =~= mcpmux_fetch_prompt_name().take(7));
    assert(meta_prefix() =~= mcpmux_bind_current_workspace_name().take(7));

}

} // verus!
