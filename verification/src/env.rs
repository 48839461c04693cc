//! Capability-based environment injection for hook handlers.
//!
//! Each environment-dependent capability is expressed as a small trait.
//! Production wires the real implementations via [`Env::prod`]; tests
//! construct an [`Env`] from stub or in-memory implementations.
use vstd::prelude::*;

use crate::linux::{check_support, partial_landlock_message, SupportLevel};

verus! {

/// Read/write user-, project-, and session-level policy state.
pub trait PolicyStore {}

/// Per-session bookkeeping: audit init, active-session marker, trace init,
/// incremental stats/trace updates, and pending-ask recording.
pub trait SessionRecorder {}

/// Probe the host for sandbox support.
pub trait SandboxProbe {
    fn check_support(&self) -> SupportLevel;
}

/// Bundle of environment capabilities passed through hook handlers.
pub struct Env<'a> {
    pub policy: &'a dyn PolicyStore,
    pub session: &'a dyn SessionRecorder,
    pub sandbox: &'a dyn SandboxProbe,
}

/// Production [`PolicyStore`].
pub struct DefaultPolicyStore;

impl PolicyStore for DefaultPolicyStore {}

/// Production [`SessionRecorder`].
pub struct DefaultSessionRecorder;

impl SessionRecorder for DefaultSessionRecorder {}

/// Production [`SandboxProbe`]: asks the running kernel.
pub struct DefaultSandboxProbe;

impl SandboxProbe for DefaultSandboxProbe {
    fn check_support(&self) -> (r: SupportLevel)
        ensures
            r is Full || (r matches SupportLevel::Partial { missing } && missing@.len() == 1
                && missing@[0]@ == partial_landlock_message()),
    {
        check_support()
    }
}

impl Env<'static> {
    /// Build the production [`Env`], wiring every capability to the real
    /// subsystems.
    pub fn prod() -> (r: Env<'static>) {
        Env { policy: &DefaultPolicyStore, session: &DefaultSessionRecorder, sandbox: &DefaultSandboxProbe }
    }
}

} // verus!
