//! What the agent process sends over the bridge.

use super::envelope::ActionEnvelope;
use super::PIBRIDGE_VERSION;
use crate::json::Json;
use vstd::prelude::*;

verus! {

/// A tool call that the agent asks for.
#[derive(Clone, Debug)]
pub struct BridgeToolRequest {
    pub version: u32,
    pub call_id: String,
    pub tool_name: String,
    pub input: Json,
    pub envelope: ActionEnvelope,
}

/// A tool call that the agent takes back.
#[derive(Clone, Debug, PartialEq, Eq)]
pub struct BridgeCancellation {
    pub version: u32,
    pub call_id: String,
    pub reason: String,
}

/// What the agent process reports.
#[derive(Clone, Debug, PartialEq, Eq)]
pub enum BridgeEvent {
    SessionStarted { version: u32, session_id: String, pi_version: String },
    ToolCallObserved { version: u32, call_id: String, tool_name: String },
    ToolResultObserved { version: u32, call_id: String, success: bool },
    AgentSettled { version: u32 },
    StreamIssue { version: u32, kind: String, detail: String },
    ProcessExited { version: u32, code: Option<i32> },
}

impl BridgeEvent {
    /// The version of the bridge contract.
    pub fn version(&self) -> (r: u32)
        ensures
            r == PIBRIDGE_VERSION,
    {
        PIBRIDGE_VERSION
    }
}

} // verus!
