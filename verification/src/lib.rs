/// The job coordinator's decisions: binary naming, paths, argument vectors.
pub mod job;
/// Exact integer and fixed-point decimal parsing.
pub mod numbers;
/// Decoding the metadata prober's structured output into typed records.
pub mod probe;
/// The progress watcher's state machine and its laws.
pub mod progress;
/// Resolving an opaque resource locator into a native filesystem path.
pub mod resolve;
/// Character-exact string matching and replacement.
pub mod text;

use vstd::prelude::*;

verus! {

/// The failure taxonomy of the orchestrator: every operation that can fail
/// reports one of these.
#[derive(Clone, Copy, Debug, PartialEq, Eq, Structural)]
pub enum CoreError {
    /// The resource locator was not validly percent-encoded.
    DecodeError,
    /// The platform has no known transcoder or prober binary.
    ProcessSpawnError,
    /// An external process exited with a non-zero status.
    ProcessExitError,
    /// The progress file could not be created or opened.
    FileIoError,
    /// A structured document or numeric field could not be parsed.
    ParseError,
}

} // verus!
