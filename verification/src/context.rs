//! What every command is run with: the global options of the command line.
use vstd::prelude::*;

use crate::config::{
    action_view, resolve_start, default_step_ok, start_spec, EnvVars, ResolveAction, ResolveArgs,
};
use crate::output::Format;
use crate::vault::clone_opt_string;

verus! {

/// The global options of a command.
pub struct Context {
    pub team: Option<String>,
    pub token: Option<String>,
    pub vault: Option<String>,
    pub format: Format,
    pub copy: bool,
}

impl Context {
    /// The configuration is resolved from the explicit
    /// team, token and vault, the environment and the home directory. Gives
    /// what resolution is run with and its first step (continued with
    /// `resolve_after_vault` and `resolve_after_default`; by
    /// `lemma_steps_resolve` the run ends with `resolve_spec`).
    pub fn config(&self, env: EnvVars, home: Option<String>) -> (r: (ResolveArgs, ResolveAction))
        ensures
            r.0.team == self.team,
            r.0.token == self.token,
            r.0.vault == self.vault,
            r.0.env == env,
            r.0.home == home,
            action_view(r.1) == start_spec(r.0),
            match self.vault {
                Some(v) => r.1 matches ResolveAction::LoadVault(d) && d@ == v@,
                None => default_step_ok(r.0, r.1),
            },
    {
        let args = ResolveArgs {
            team: clone_opt_string(&self.team),
            token: clone_opt_string(&self.token),
            vault: clone_opt_string(&self.vault),
            env,
            home,
        };
        let first = resolve_start(&args);
        (args, first)
    }
}

} // verus!
