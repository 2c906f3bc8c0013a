//! Error taxonomy of the build pipeline.
//!
//! Every failure is fatal: the pipeline is batch-mode and a failed build
//! invalidates the whole output. Each variant carries enough context to
//! localize the fault; callers that need text render it themselves.

use vstd::prelude::*;

verus! {

/// A fatal pipeline error.
#[derive(Clone, Copy, Debug, PartialEq, Eq)]
pub enum ProcessError {
    /// An input value (index, length) is out of range: `value` broke the
    /// bound `bound`.
    InputMalformed { value: usize, bound: usize },
    /// The meshlet builder or the simplifier handed back obviously invalid
    /// data, found while processing `level`: `value` broke the bound `bound`.
    LibraryFailure { level: u32, value: usize, bound: usize },
    /// An operation would have broken a cluster-graph invariant at the named
    /// cluster.
    InvariantViolation { level: u32, cluster: usize },
}

/// A reason the packed asset bytes were rejected by the loader.
#[derive(Clone, Copy, Debug, PartialEq, Eq)]
pub enum DecodeError {
    /// Fewer bytes than a header.
    TooSmall,
    /// The magic number is not `LLAD`.
    BadMagic,
    /// The version field is not the supported version.
    BadVersion,
    /// The arrays the header announces run past the end of the bytes.
    Truncated,
}

/// An error of the rendering backend.
#[derive(Clone, Debug)]
pub enum LumeError {
    InstanceCreationFailed(String),
    DeviceCreationFailed(String),
    SurfaceCreationFailed(String),
    ResourceCreationFailed(String),
    PipelineCreationFailed(String),
    ShaderCompilationFailed(String),
    SubmissionFailed(String),
    BackendError(String),
    OutOfMemory,
    Generic(&'static str),
}

} // verus!
