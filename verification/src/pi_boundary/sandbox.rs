//! The sandbox driver's types, and a driver that refuses everything.

use super::envelope::NetworkResource;
use crate::text::concat;
use vstd::prelude::*;

verus! {

/// How an action is isolated.
#[derive(Clone, Copy, Debug, PartialEq, Eq, Structural)]
pub enum SandboxProfile {
    /// A fresh virtual machine for each action, with disposable state.
    Strict,
}

/// The limits of a run.
#[derive(Clone, Copy, Debug, PartialEq, Eq, Structural)]
pub struct SandboxQuotas {
    pub memory_mb: u64,
    pub vcpus: u32,
    pub wall_time_ms: u64,
    pub output_bytes: u64,
}

/// A run to prepare.
#[derive(Clone, Debug, PartialEq, Eq)]
pub struct SandboxSpec {
    pub version: u32,
    pub profile: SandboxProfile,
    /// The digest of the approved guest image.
    pub image_digest: String,
    pub command: Vec<String>,
    pub quotas: SandboxQuotas,
    /// The endpoints that may be reached. None may where it is empty.
    pub egress_allowlist: Vec<NetworkResource>,
}

/// A prepared run.
#[derive(Clone, Copy, Debug, PartialEq, Eq, Structural)]
pub struct SandboxHandle {
    pub version: u32,
    pub run_id: u128,
}

/// A piece of output.
#[derive(Clone, Debug, PartialEq, Eq)]
pub struct OutputChunk {
    pub stream: String,
    pub bytes: Vec<u8>,
}

/// What a stream carried.
#[derive(Clone, Copy, Debug, PartialEq, Eq, Structural)]
pub struct StreamStats {
    pub bytes: u64,
    pub truncated: bool,
}

/// A file that a run changed.
#[derive(Clone, Debug, PartialEq, Eq)]
pub struct ExportedFile {
    pub path: String,
    pub content_hash: String,
    pub size_bytes: u64,
}

/// How a run ended.
#[derive(Clone, Debug, PartialEq, Eq)]
pub enum SandboxOutcome {
    Completed { exit_code: i32 },
    TimedOut,
    Cancelled,
    Failed { reason: String },
}

/// Why a run did not happen.
#[derive(Clone, Debug, PartialEq, Eq)]
pub enum SandboxError {
    Unavailable(String),
    RunFailed(String),
    QuotaExceeded(String),
}

impl SandboxError {
    /// The message of the error.
    pub open spec fn text(self) -> Seq<char> {
        match self {
            SandboxError::Unavailable(s) => "sandbox unavailable: "@ + s@,
            SandboxError::RunFailed(s) => "sandbox run failed: "@ + s@,
            SandboxError::QuotaExceeded(s) => "sandbox quota exceeded: "@ + s@,
        }
    }

    /// The message of the error.
    pub fn message(&self) -> (r: String)
        ensures
            r@ == self.text(),
    {
        match self {
            SandboxError::Unavailable(s) => concat("sandbox unavailable: ", s.as_str()),
            SandboxError::RunFailed(s) => concat("sandbox run failed: ", s.as_str()),
            SandboxError::QuotaExceeded(s) => concat("sandbox quota exceeded: ", s.as_str()),
        }
    }
}

/// A driver that refuses every step: nothing runs without a real one.
#[derive(Clone, Copy, Debug)]
pub struct NullSandboxDriver;

impl Default for NullSandboxDriver {
    fn default() -> (r: NullSandboxDriver)
        ensures
            r == NullSandboxDriver,
    {
        NullSandboxDriver
    }
}

impl NullSandboxDriver {
    /// The error that every step of the driver gives.
    pub fn refusal(&self) -> (r: SandboxError)
        ensures
            r matches SandboxError::Unavailable(m) && m@
                == "phase-0 spike: no sandbox driver; execution is refused"@,
    {
        SandboxError::Unavailable(
            "phase-0 spike: no sandbox driver; execution is refused".to_owned(),
        )
    }
}

} // verus!
