//! The planning agent's settings and the decisions taken around its calls
//! to the model: timeouts, and falling back to a smaller context when the
//! prompt does not fit.

use vstd::prelude::*;
use crate::paths::{join_path, path_join};
use crate::text::{contains_text, str_contains};

verus! {

broadcast use vstd::string::group_string_axioms;

/// Errors raised by planning.
#[derive(Debug, Clone)]
pub enum PilotError {
    Planning(String),
    PlanValidation(String),
    TaskDecomposition(String),
    EvidenceGathering(String),
}

/// Settings of the model used for planning.
#[derive(Debug, Clone)]
pub struct ModelConfig {
    pub model_id: String,
    pub context_window: u64,
    pub extended_context: bool,
}

/// Agent settings relevant to planning.
#[derive(Debug, Clone)]
pub struct AgentConfig {
    pub timeout_secs: u64,
    pub planning_timeout_secs: u64,
    pub max_sdk_iterations: u32,
    pub plugin_dirs: Vec<String>,
    pub planning_model: ModelConfig,
}

/// How much of the user's and project's resources the agent loads.
#[derive(Debug, Clone, Copy, PartialEq, Eq, Structural)]
pub enum ResourceStrategy {
    Full,
    Minimal,
}

/// Runs planning prompts against the planning model.
pub struct PlanAgent {
    working_dir: String,
    model: String,
    timeout_secs: u64,
    default_timeout_secs: u64,
    max_iterations: u32,
    context_window: u64,
    extended_context: bool,
    plugin_dirs: Vec<String>,
}

/// A plan agent's settings, as values.
pub struct PlanAgentView {
    pub working_dir: Seq<char>,
    pub model: Seq<char>,
    pub timeout_secs: u64,
    pub default_timeout_secs: u64,
    pub max_iterations: u32,
    pub context_window: u64,
    pub extended_context: bool,
    pub plugin_dirs: Seq<Seq<char>>,
}

impl View for PlanAgent {
    type V = PlanAgentView;

    closed spec fn view(&self) -> PlanAgentView {
        PlanAgentView {
            working_dir: self.working_dir@,
            model: self.model@,
            timeout_secs: self.timeout_secs,
            default_timeout_secs: self.default_timeout_secs,
            max_iterations: self.max_iterations,
            context_window: self.context_window,
            extended_context: self.extended_context,
            plugin_dirs: self.plugin_dirs@.map_values(|p: String| p@),
        }
    }
}

/// The plugin directories of a configuration, resolved against the working directory.
pub open spec fn resolved_dirs(working_dir: Seq<char>, dirs: Seq<Seq<char>>) -> Seq<Seq<char>> {
    dirs.map_values(|d: Seq<char>| path_join(working_dir, d))
}

/// The agent a configuration describes, for a working directory.
pub open spec fn configured_agent(working_dir: Seq<char>, config: AgentConfig) -> PlanAgentView {
    PlanAgentView {
        working_dir,
        model: config.planning_model.model_id@,
        timeout_secs: config.planning_timeout_secs,
        default_timeout_secs: config.timeout_secs,
        max_iterations: config.max_sdk_iterations,
        context_window: config.planning_model.context_window,
        extended_context: config.planning_model.extended_context,
        plugin_dirs: resolved_dirs(working_dir, config.plugin_dirs@.map_values(|p: String| p@)),
    }
}

/// The planning timeout when one is set, else the general one.
pub open spec fn timeout_of(a: PlanAgentView) -> u64 {
    if a.timeout_secs > 0 {
        a.timeout_secs
    } else {
        a.default_timeout_secs
    }
}

/// The error says the prompt did not fit in the model's context.
pub open spec fn token_overflow(e: PilotError) -> bool {
    match e {
        PilotError::Planning(msg) => contains_text(msg@, "prompt is too long"@) || (contains_text(msg@, "400"@)
            && contains_text(msg@, "token"@)),
        _ => false,
    }
}

/// Whether a planning error reports that the prompt overflowed the context.
pub fn is_token_overflow_error(error: &PilotError) -> (b: bool)
    ensures
        b == token_overflow(*error),
{
    match error {
        PilotError::Planning(msg) => str_contains(msg.as_str(), "prompt is too long") || (str_contains(
            msg.as_str(),
            "400",
        ) && str_contains(msg.as_str(), "token")),
        _ => false,
    }
}

/// After a failed run: the strategy to retry with, if any. A run with all
/// resources loaded that overflowed the context is retried with the
/// minimal set; any other failure is final.
pub fn fallback_strategy(error: &PilotError, strategy: ResourceStrategy) -> (r: Option<ResourceStrategy>)
    ensures
        r == (if token_overflow(*error) && strategy == ResourceStrategy::Full {
            Some(ResourceStrategy::Minimal)
        } else {
            None
        }),
{
    if is_token_overflow_error(error) && strategy == ResourceStrategy::Full {
        Some(ResourceStrategy::Minimal)
    } else {
        None
    }
}

impl PlanAgent {
    /// The agent for `working_dir`, configured for planning.
    pub fn new(working_dir: &str, config: &AgentConfig) -> (r: Result<Self, PilotError>)
        ensures
            r matches Ok(a) && a@ == configured_agent(working_dir@, *config),
    {
        let ghost dv = config.plugin_dirs@.map_values(|p: String| p@);
        let mut plugin_dirs: Vec<String> = Vec::new();
        let mut i: usize = 0;
        while i < config.plugin_dirs.len()
            invariant
                0 <= i <= config.plugin_dirs.len(),
                dv == config.plugin_dirs@.map_values(|p: String| p@),
                plugin_dirs@.map_values(|p: String| p@) == resolved_dirs(working_dir@, dv.subrange(0, i as int)),
            decreases config.plugin_dirs.len() - i,
        {
            let ghost before = plugin_dirs@.map_values(|p: String| p@);
            plugin_dirs.push(join_path(working_dir, config.plugin_dirs[i].as_str()));
            proof {
                assert(plugin_dirs@.map_values(|p: String| p@) =~= before.push(path_join(working_dir@, dv[i as int])));
                assert(resolved_dirs(working_dir@, dv.subrange(0, i + 1)) =~= resolved_dirs(
                    working_dir@,
                    dv.subrange(0, i as int),
                ).push(path_join(working_dir@, dv[i as int])));
            }
            i = i + 1;
        }
        proof {
            assert(dv.subrange(0, config.plugin_dirs.len() as int) =~= dv);
        }
        let a = PlanAgent {
            working_dir: working_dir.to_string(),
            model: config.planning_model.model_id.clone(),
            timeout_secs: config.planning_timeout_secs,
            default_timeout_secs: config.timeout_secs,
            max_iterations: config.max_sdk_iterations,
            context_window: config.planning_model.context_window,
            extended_context: config.planning_model.extended_context,
            plugin_dirs,
        };
        proof {
            assert(a@.plugin_dirs =~= resolved_dirs(working_dir@, dv));
        }
        Ok(a)
    }

    /// Size of the planning model's context window, in tokens.
    pub fn context_window(&self) -> (n: u64)
        ensures
            n == self@.context_window,
    {
        self.context_window
    }

    /// Whether the planning model runs with its extended context.
    pub fn has_extended_context(&self) -> (b: bool)
        ensures
            b == self@.extended_context,
    {
        self.extended_context
    }

    /// Timeout of one planning run, in seconds.
    pub fn effective_timeout(&self) -> (secs: u64)
        ensures
            secs == timeout_of(self@),
    {
        if self.timeout_secs > 0 {
            self.timeout_secs
        } else {
            self.default_timeout_secs
        }
    }
}

} // verus!
