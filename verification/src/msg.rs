//! The shapes of the messages exchanged between clients and the session
//! daemon, and token usage accounting.

use std::path::PathBuf;
use vstd::prelude::*;

use crate::tool_use::ToolUse;

verus! {

/// Identifies a session, a turn or an operation.
#[derive(Clone, Copy, Debug, PartialEq, Eq, Hash, Structural)]
pub struct Id(pub u128);

/// Why a session span closed.
#[derive(Clone, Copy, Debug, PartialEq, Eq, Structural)]
pub enum SessionEndReason {
    /// The session was replaced by a new or resumed session.
    Replaced,
    /// The daemon is shutting down.
    Shutdown,
}

/// How a turn ended.
#[derive(Clone, Debug)]
pub enum TurnEndStatus {
    Completed,
    Interrupted { reason: Option<String> },
    Error {
        /// One-line summary. For a classified LLM failure this is the semantic
        /// error kind, e.g. "rate limited"; otherwise the top of the error chain.
        headline: String,
        /// Expanded cause shown as indented child rows beneath the headline.
        /// May be empty when there is nothing useful to add.
        details: Vec<String>,
    },
}

/// Why a turn paused.
#[derive(Clone, Debug)]
pub enum TurnPauseReason {
    Approval { tools: Vec<ToolUse>, message: String },
}

/// Progress reported by a running tool.
#[derive(Clone, Debug)]
pub struct ToolUpdate {
    pub tool_use_id: String,
    pub seq: u64,
    pub message: String,
}

/// How a tool call ended.
#[derive(Clone, Copy, Debug, PartialEq, Eq, Structural)]
pub enum ToolEndStatus {
    Completed,
    Cancelled,
    Denied,
    Failed,
}

/// The end of a tool call: its status and JSON result.
#[derive(Clone, Debug)]
pub struct ToolEnd {
    pub tool_use_id: String,
    pub status: ToolEndStatus,
    pub result_json: serde_json::Value,
    pub is_error: bool,
}

/// The answer to an approval request for a tool call.
#[derive(Clone, Copy, Debug, PartialEq, Eq, Structural)]
pub enum ReviewDecision {
    Accept,
    Skip,
    AcceptForSession,
    /// Approve and persist an allow rule so the same call is auto-approved
    /// across future sessions ("always allow").
    AcceptAlways,
    Abort,
}

/// Where a skill or subagent was defined.
#[derive(Clone, Copy, Debug, PartialEq, Eq, Hash, PartialOrd, Ord, Structural)]
pub enum Scope {
    Project,
    User,
    System,
}

/// A skill available to the session.
#[derive(Clone, Debug)]
pub struct SkillMetadata {
    pub name: String,
    pub description: Option<String>,
    pub scope: Scope,
    pub argument_hint: Option<String>,
}

/// A subagent available to the session.
#[derive(Clone, Debug)]
pub struct SubagentMetadata {
    pub name: String,
    pub description: String,
    pub scope: Scope,
}

/// The extensions of a session after a refresh.
#[derive(Clone, Debug)]
pub struct ExtensionRefreshed {
    pub session_id: Id,
    pub skills: Vec<SkillMetadata>,
    pub subagents: Vec<SubagentMetadata>,
    pub mcp_servers: Vec<McpServerInfo>,
}

/// A connected MCP server and its tools.
#[derive(Clone, Debug)]
pub struct McpServerInfo {
    pub name: String,
    pub command: String,
    pub args: Vec<String>,
    pub tools: Vec<McpToolInfo>,
}

/// A tool offered by an MCP server.
#[derive(Clone, Debug)]
pub struct McpToolInfo {
    pub name: String,
    pub qualified_name: String,
    pub description: String,
    pub parameters: Vec<McpToolParam>,
}

/// A parameter of an MCP tool.
#[derive(Clone, Debug)]
pub struct McpToolParam {
    pub name: String,
    pub param_type: String,
    pub required: bool,
    pub description: String,
}

/// How hard the model thinks.
#[derive(Clone, Copy, Debug, PartialEq, Eq, Hash, Structural)]
pub enum Thinking {
    Disabled,
    Enabled,
    Deep,
    Max,
}

/// How tool calls are approved.
#[derive(Clone, Copy, Debug, PartialEq, Eq, Structural)]
pub enum PermissionMode {
    /// Honor user rules; an unmatched call asks unless it is provably safe.
    Strict,
    /// Honor user rules; an unmatched call runs unless it is provably
    /// dangerous.
    Auto,
    /// Bypass all permission checks, including user deny rules.
    Yolo,
}

impl Default for PermissionMode {
    /// Strict unless chosen otherwise.
    fn default() -> (mode: Self)
        ensures
            mode == PermissionMode::Strict,
    {
        PermissionMode::Strict
    }
}

/// Whether a model takes images, given what its settings declare: models
/// are assumed to unless declared otherwise.
pub fn vision_support(declared: Option<bool>) -> (supported: bool)
    ensures
        supported == (match declared {
            Some(flag) => flag,
            None => true,
        }),
{
    match declared {
        Some(flag) => flag,
        None => true,
    }
}

/// A patch of session overrides. `None` means "leave unchanged" for every
/// field, whoever built the value.
#[derive(Clone, Debug, Default)]
pub struct SessionOverrides {
    pub model: Option<String>,
    pub provider: Option<String>,
    pub permission_mode: Option<PermissionMode>,
    pub system_prompt: Option<String>,
    pub append_system_prompt: Option<String>,
    pub allowed_tools: Option<Vec<String>>,
    pub disallowed_tools: Option<Vec<String>>,
    pub cwd: Option<PathBuf>,
    pub thinking: Option<Thinking>,
}

/// Context-window occupancy of the root session. `pct_left` is measured
/// against the auto-compact threshold: ~100 on a fresh session, 0 when
/// compaction is imminent.
#[derive(Clone, Copy, Debug, PartialEq, Eq, Structural)]
pub struct ContextWindow {
    /// Tokens currently occupying the window.
    pub used_tokens: u32,
    /// Raw model context limit.
    pub limit_tokens: u32,
    /// Percent of the usable window remaining (0-100).
    pub pct_left: u8,
}

} // verus!
