//! The steps of a workflow.
use vstd::prelude::*;

use crate::harness::HarnessConfig;
use crate::hooks::Hook;

verus! {

/// A single step of an agent workflow: what to do, and which harness does it.
/// The options of the harness are its own.
pub struct Step {
    pub name: String,
    pub prompt_template: String,
    /// Hooks that run before the agent is invoked.
    pub pre_hooks: Vec<Hook>,
    /// Hooks that run after a successful invocation of the agent.
    pub post_hooks: Vec<Hook>,
    /// The agent harness for this step.
    pub harness: HarnessConfig,
}

} // verus!
