//! Platform-agnostic sandbox policy types and the decisions that compile
//! them to kernel enforcement.
use vstd::prelude::*;

pub mod caps;
pub mod text;
pub mod paths;
pub mod names;
pub mod env_policy;
pub mod env_effect;
pub mod policy;
pub mod gitdir;
pub mod linux;
pub mod env;
pub mod laws;
pub mod properties;

pub use caps::{Cap, SystemCap};
pub use env::{DefaultPolicyStore, DefaultSandboxProbe, DefaultSessionRecorder, Env, PolicyStore, SandboxProbe, SessionRecorder};
pub use env_policy::{EnvCommandPlan, EnvDefault, EnvPolicy};
pub use linux::{check_support, SupportLevel};
pub use names::{StrMap, StrSet};
pub use paths::{PathContext, SymlinkWalk};
pub use policy::{NetworkPolicy, PathMatch, RuleEffect, SandboxPolicy, SandboxRule, ViolationAction};

verus! {

} // verus!
