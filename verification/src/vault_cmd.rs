//! `slab vault`: setting up a vault and describing it.
use vstd::prelude::*;

use crate::config::{opt_view, or_view, Config};
use crate::context::Context;
use crate::from_delta::push_lit;
use crate::json::{decimal, push_decimal};
use crate::text::string_of;
use crate::vault::push_str;

verus! {

/// The subcommands of `slab vault`.
pub enum VaultAction {
    /// Initialize a new local vault.
    Init { team: Option<String>, path: Option<String> },
    /// Show vault info.
    Info,
}

/// What `slab vault` goes on to do.
pub enum VaultPlan {
    /// Resolve the configuration from `team`, `token` and `vault`, put the
    /// vault at `vault` when it is given, and initialize it.
    Init { team: Option<String>, token: Option<String>, vault: Option<String> },
    /// Describe the vault of the resolved configuration.
    Info,
}

/// What a `slab vault` subcommand does. Initializing
/// takes the team and the vault path from the subcommand, else from the
/// global options, and the token from the global options.
pub fn run(ctx: &Context, action: VaultAction) -> (r: VaultPlan)
    ensures
        match action {
            VaultAction::Init { team, path } => r matches VaultPlan::Init { team: t, token: k, vault: v }
                && opt_view(t) == or_view(team, ctx.team) && opt_view(k) == opt_view(ctx.token)
                && opt_view(v) == or_view(path, ctx.vault),
            VaultAction::Info => r matches VaultPlan::Info,
        },
{
    match action {
        VaultAction::Init { team, path } => VaultPlan::Init {
            team: crate::config::clone_or(&team, &ctx.team),
            token: crate::vault::clone_opt_string(&ctx.token),
            vault: crate::config::clone_or(&path, &ctx.vault),
        },
        VaultAction::Info => VaultPlan::Info,
    }
}

/// The configuration a vault is initialized with: the resolved one, at
/// the given vault path when there is one.
pub fn init_config(resolved: Config, vault: &Option<String>) -> (c: Config)
    ensures
        c.team == resolved.team,
        c.token == resolved.token,
        c.endpoint == resolved.endpoint,
        c.vault_path@ == match vault {
            Some(v) => v@,
            None => resolved.vault_path@,
        },
{
    let mut c = resolved;
    if let Some(v) = vault {
        c.vault_path = v.clone();
    }
    c
}

/// The first lines of `slab vault info`: team, vault and endpoint.
pub fn info_header(c: &Config) -> (r: String)
    ensures
        r@ == "team:     "@ + c.team@ + "\nvault:    "@ + c.vault_path@ + "\nendpoint: "@ + c.endpoint@
            + "\n"@,
{
    let mut o: Vec<char> = Vec::new();
    push_lit(&mut o, "team:     ");
    push_str(&mut o, &c.team);
    push_lit(&mut o, "\nvault:    ");
    push_str(&mut o, &c.vault_path);
    push_lit(&mut o, "\nendpoint: ");
    push_str(&mut o, &c.endpoint);
    push_lit(&mut o, "\n");
    string_of(o.as_slice())
}

/// The last line of `slab vault info`: the number of tracked posts, or a
/// hint when the vault has no state database yet (`None`).
pub fn posts_line(post_count: Option<usize>) -> (r: String)
    ensures
        r@ == match post_count {
            Some(n) => "posts:    "@ + decimal(n as nat) + "\n"@,
            None => "posts:    (no state db — run `slab pull` first)\n"@,
        },
{
    let mut o: Vec<char> = Vec::new();
    match post_count {
        Some(n) => {
            push_lit(&mut o, "posts:    ");
            push_decimal(&mut o, n as u64);
            push_lit(&mut o, "\n");
        },
        None => push_lit(&mut o, "posts:    (no state db — run `slab pull` first)\n"),
    }
    string_of(o.as_slice())
}

/// What `slab vault init` prints.
pub fn init_text(vault_path: &str) -> (r: String)
    ensures
        r@ == "vault initialized at "@ + vault_path@ + "\n"@,
{
    let mut o: Vec<char> = Vec::new();
    push_lit(&mut o, "vault initialized at ");
    push_lit(&mut o, vault_path);
    push_lit(&mut o, "\n");
    string_of(o.as_slice())
}

} // verus!
