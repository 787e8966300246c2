//! The Windows sandbox provider, which relies on Job Objects for resource constraints.
//! Building the sandboxed command is process handling and lives with the caller.

use vstd::prelude::*;

verus! {

/// Windows sandbox provider using Job Objects.
///
/// Applies resource limits and environment scrubbing. Filesystem and network
/// restrictions are best-effort (Job Objects don't restrict filesystem access).
pub struct WindowsSandboxProvider;

impl WindowsSandboxProvider {
    /// The provider's name.
    pub fn name(&self) -> (res: &'static str)
        ensures
            res@ == "windows-job"@,
    {
        "windows-job"
    }

    /// Job Objects are available on every supported Windows version.
    pub fn is_available(&self) -> (res: bool)
        ensures
            res,
    {
        true
    }
}

} // verus!
