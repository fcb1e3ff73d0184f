//! Configuration: team, token, API endpoint and vault location, and the
//! order in which they are looked up.
use vstd::prelude::*;

use crate::paths::{path_join, path_join_str};
use crate::to_delta::lit_string;
use crate::vault::clone_opt_string;

verus! {

/// Settings of the `slab` tool.
#[derive(Debug)]
pub struct Config {
    pub team: String,
    pub token: String,
    pub endpoint: String,
    pub vault_path: String,
}

/// The contents of `.slab/config.toml`.
#[derive(Debug)]
pub struct ConfigFile {
    pub team: String,
    pub token: String,
    pub endpoint: Option<String>,
}

/// The environment variables the configuration reads (`SLAB_TEAM`,
/// `SLAB_API_TOKEN`, `SLAB_VAULT`, `SLAB_ENDPOINT`), each `None` when unset.
#[derive(Debug)]
pub struct EnvVars {
    pub team: Option<String>,
    pub token: Option<String>,
    pub vault: Option<String>,
    pub endpoint: Option<String>,
}

/// Why no configuration could be built.
#[derive(Debug, Clone, Copy, PartialEq, Eq, Structural)]
pub enum ConfigError {
    TeamRequired,
    TokenRequired,
}

impl ConfigError {
    pub fn message(&self) -> (m: &'static str)
        ensures
            m@ == match *self {
                ConfigError::TeamRequired => "--team or SLAB_TEAM is required"@,
                ConfigError::TokenRequired => "--token or SLAB_API_TOKEN is required"@,
            },
    {
        match self {
            ConfigError::TeamRequired => "--team or SLAB_TEAM is required",
            ConfigError::TokenRequired => "--token or SLAB_API_TOKEN is required",
        }
    }
}

/// Model of a configuration.
pub struct ConfigView {
    pub team: Seq<char>,
    pub token: Seq<char>,
    pub endpoint: Seq<char>,
    pub vault_path: Seq<char>,
}

impl View for Config {
    type V = ConfigView;

    open spec fn view(&self) -> ConfigView {
        ConfigView {
            team: self.team@,
            token: self.token@,
            endpoint: self.endpoint@,
            vault_path: self.vault_path@,
        }
    }
}

/// Model of a config file.
pub struct ConfigFileView {
    pub team: Seq<char>,
    pub token: Seq<char>,
    pub endpoint: Option<Seq<char>>,
}

impl View for ConfigFile {
    type V = ConfigFileView;

    open spec fn view(&self) -> ConfigFileView {
        ConfigFileView { team: self.team@, token: self.token@, endpoint: opt_view(self.endpoint) }
    }
}

/// What saving a configuration writes to its config file.
pub open spec fn file_for(c: ConfigView) -> ConfigFileView {
    ConfigFileView { team: c.team, token: c.token, endpoint: Some(c.endpoint) }
}

/// The configuration that a config file of the vault at `vault` holds
/// (the endpoint defaults to the public API).
pub open spec fn config_from_file(f: ConfigFileView, vault: Seq<char>) -> ConfigView {
    ConfigView {
        team: f.team,
        token: f.token,
        endpoint: match f.endpoint {
            Some(e) => e,
            None => default_endpoint(),
        },
        vault_path: vault,
    }
}

/// Loading what was saved gives the configuration back: the config file
/// written for a configuration, read for its vault, is that configuration.
pub proof fn lemma_save_then_load(c: ConfigView)
    ensures
        config_from_file(file_for(c), c.vault_path) == c,
{
}

/// The public API endpoint.
pub open spec fn default_endpoint() -> Seq<char> {
    "https://api.slab.com/v1/graphql"@
}

pub open spec fn opt_view(o: Option<String>) -> Option<Seq<char>> {
    match o {
        Some(s) => Some(s@),
        None => None,
    }
}

/// `a.or(b)`.
pub open spec fn or_view(a: Option<String>, b: Option<String>) -> Option<Seq<char>> {
    match a {
        Some(s) => Some(s@),
        None => opt_view(b),
    }
}

/// `~/.slab` (or `./.slab` without a home directory).
pub open spec fn vault_root_spec(home: Option<Seq<char>>) -> Seq<char> {
    path_join(
        match home {
            Some(h) => h,
            None => "."@,
        },
        ".slab"@,
    )
}

/// The root under which vaults are kept, `<home>/.slab`, given the home
/// directory (`.` when there is none).
pub fn default_vault_root(home: &Option<String>) -> (r: String)
    ensures
        r@ == vault_root_spec(opt_view(*home)),
{
    match home {
        Some(h) => path_join_str(h.as_str(), ".slab"),
        None => path_join_str(".", ".slab"),
    }
}

/// `dir/.slab/config.toml`.
pub open spec fn config_file_in_spec(dir: Seq<char>) -> Seq<char> {
    path_join(path_join(dir, ".slab"@), "config.toml"@)
}

/// The configuration file of the vault at `dir`.
pub fn config_file_in(dir: &str) -> (r: String)
    ensures
        r@ == config_file_in_spec(dir@),
{
    let s = path_join_str(dir, ".slab");
    path_join_str(s.as_str(), "config.toml")
}

pub fn clone_or(a: &Option<String>, b: &Option<String>) -> (r: Option<String>)
    ensures
        opt_view(r) == or_view(*a, *b),
{
    match a {
        Some(s) => Some(s.clone()),
        None => clone_opt_string(b),
    }
}

/// What a configuration built from explicit values, then the environment,
/// is: the team and token are required; the vault defaults to
/// `<root>/<team>` and the endpoint to the public API.
pub open spec fn env_config(
    team: Option<String>,
    token: Option<String>,
    vault: Option<String>,
    env: EnvVars,
    home: Option<String>,
) -> Result<ConfigView, ConfigError> {
    match or_view(team, env.team) {
        None => Err(ConfigError::TeamRequired),
        Some(t) => match or_view(token, env.token) {
            None => Err(ConfigError::TokenRequired),
            Some(k) => Ok(
                ConfigView {
                    team: t,
                    token: k,
                    endpoint: match env.endpoint {
                        Some(e) => e@,
                        None => default_endpoint(),
                    },
                    vault_path: match or_view(vault, env.vault) {
                        Some(v) => v,
                        None => path_join(vault_root_spec(opt_view(home)), t),
                    },
                },
            ),
        },
    }
}

pub open spec fn result_view(r: Result<Config, ConfigError>) -> Result<ConfigView, ConfigError> {
    match r {
        Ok(c) => Ok(c@),
        Err(e) => Err(e),
    }
}

impl Config {
    pub fn slab_dir(&self) -> (r: String)
        ensures
            r@ == path_join(self.vault_path@, ".slab"@),
    {
        path_join_str(self.vault_path.as_str(), ".slab")
    }

    pub fn state_db_path(&self) -> (r: String)
        ensures
            r@ == path_join(path_join(self.vault_path@, ".slab"@), "state.db"@),
    {
        let d = self.slab_dir();
        path_join_str(d.as_str(), "state.db")
    }

    pub fn config_file_path(&self) -> (r: String)
        ensures
            r@ == path_join(path_join(self.vault_path@, ".slab"@), "config.toml"@),
    {
        let d = self.slab_dir();
        path_join_str(d.as_str(), "config.toml")
    }

    /// The configuration stored in a vault's config file (the endpoint
    /// defaults to the public API).
    pub fn from_file(file: &ConfigFile, vault_path: &str) -> (c: Config)
        ensures
            c@ == config_from_file(file@, vault_path@),
            c.team == file.team,
            c.token == file.token,
            c.endpoint@ == match file.endpoint {
                Some(e) => e@,
                None => default_endpoint(),
            },
            c.vault_path@ == vault_path@,
    {
        Config {
            team: file.team.clone(),
            token: file.token.clone(),
            endpoint: match &file.endpoint {
                Some(e) => e.clone(),
                None => lit_string("https://api.slab.com/v1/graphql"),
            },
            vault_path: lit_string(vault_path),
        }
    }

    /// The file contents that `save` writes for this configuration.
    pub fn to_file(&self) -> (f: ConfigFile)
        ensures
            f@ == file_for(self@),
            f.team == self.team,
            f.token == self.token,
            f.endpoint == Some(self.endpoint),
    {
        ConfigFile {
            team: self.team.clone(),
            token: self.token.clone(),
            endpoint: Some(self.endpoint.clone()),
        }
    }

    /// A configuration from explicit values first, then the environment; the vault
    /// defaults to `~/.slab/<team>`.
    pub fn from_env(
        team: &Option<String>,
        token: &Option<String>,
        vault: &Option<String>,
        env: &EnvVars,
        home: &Option<String>,
    ) -> (r: Result<Config, ConfigError>)
        ensures
            result_view(r) == env_config(*team, *token, *vault, *env, *home),
            or_view(*team, env.team) is None ==> r == Err::<Config, ConfigError>(
                ConfigError::TeamRequired,
            ),
            or_view(*team, env.team) is Some && or_view(*token, env.token) is None ==> r == Err::<
                Config,
                ConfigError,
            >(ConfigError::TokenRequired),
            r matches Ok(c) ==> {
                &&& or_view(*team, env.team) == Some(c.team@)
                &&& or_view(*token, env.token) == Some(c.token@)
                &&& c.vault_path@ == match or_view(*vault, env.vault) {
                    Some(v) => v,
                    None => path_join(vault_root_spec(opt_view(*home)), c.team@),
                }
                &&& c.endpoint@ == match env.endpoint {
                    Some(e) => e@,
                    None => default_endpoint(),
                }
            },
            (or_view(*team, env.team) is Some && or_view(*token, env.token) is Some) ==> r is Ok,
    {
        let team = match clone_or(team, &env.team) {
            Some(t) => t,
            None => {
                return Err(ConfigError::TeamRequired);
            },
        };
        let token = match clone_or(token, &env.token) {
            Some(t) => t,
            None => {
                return Err(ConfigError::TokenRequired);
            },
        };
        let vault_path = match clone_or(vault, &env.vault) {
            Some(v) => v,
            None => {
                let root = default_vault_root(home);
                path_join_str(root.as_str(), team.as_str())
            },
        };
        let endpoint = match &env.endpoint {
            Some(e) => e.clone(),
            None => lit_string("https://api.slab.com/v1/graphql"),
        };
        Ok(Config { team, token, endpoint, vault_path })
    }
}

// ---------------------------------------------------------------------
// Resolution: a saved vault config first, then the default vault of the
// team, then explicit values and the environment.
/// What configuration resolution is given.
#[derive(Debug)]
pub struct ResolveArgs {
    pub team: Option<String>,
    pub token: Option<String>,
    pub vault: Option<String>,
    pub env: EnvVars,
    /// The home directory, if known.
    pub home: Option<String>,
}

/// The next step of resolution.
#[derive(Debug)]
pub enum ResolveAction {
    /// Read the config file of the vault at this directory (the explicit
    /// vault), and report it (or its absence) to `resolve_after_vault`.
    LoadVault(String),
    /// Read the config file of the team's default vault at this directory,
    /// and report it to `resolve_after_default`.
    LoadDefault(String),
    /// Resolution is over.
    Finish(Result<Config, ConfigError>),
}

/// The team named explicitly or by the environment.
pub open spec fn effective_team(args: ResolveArgs) -> Option<Seq<char>> {
    or_view(args.team, args.env.team)
}

/// The step after the explicit vault: the team's default vault if a team
/// is known, else the environment.
pub open spec fn default_step_ok(args: ResolveArgs, a: ResolveAction) -> bool {
    match effective_team(args) {
        Some(t) => a matches ResolveAction::LoadDefault(d) && d@ == path_join(
            vault_root_spec(opt_view(args.home)),
            t,
        ),
        None => a matches ResolveAction::Finish(r) && from_env_ok(args, r),
    }
}

/// `r` is what `Config::from_env` (explicit values, then the environment)
/// gives for these arguments.
pub open spec fn from_env_ok(args: ResolveArgs, r: Result<Config, ConfigError>) -> bool {
    &&& or_view(args.team, args.env.team) is None ==> r == Err::<Config, ConfigError>(
        ConfigError::TeamRequired,
    )
    &&& or_view(args.team, args.env.team) is Some && or_view(args.token, args.env.token) is None
        ==> r == Err::<Config, ConfigError>(ConfigError::TokenRequired)
    &&& r matches Ok(c) ==> {
        &&& or_view(args.team, args.env.team) == Some(c.team@)
        &&& or_view(args.token, args.env.token) == Some(c.token@)
        &&& c.vault_path@ == match or_view(args.vault, args.env.vault) {
            Some(v) => v,
            None => path_join(vault_root_spec(opt_view(args.home)), c.team@),
        }
        &&& c.endpoint@ == match args.env.endpoint {
            Some(e) => e@,
            None => default_endpoint(),
        }
    }
    &&& (or_view(args.team, args.env.team) is Some && or_view(args.token, args.env.token) is Some)
        ==> r is Ok
}

/// Model of a resolution step.
pub enum ResolveActionView {
    LoadVault(Seq<char>),
    LoadDefault(Seq<char>),
    Finish(Result<ConfigView, ConfigError>),
}

pub open spec fn action_view(a: ResolveAction) -> ResolveActionView {
    match a {
        ResolveAction::LoadVault(d) => ResolveActionView::LoadVault(d@),
        ResolveAction::LoadDefault(d) => ResolveActionView::LoadDefault(d@),
        ResolveAction::Finish(r) => ResolveActionView::Finish(result_view(r)),
    }
}

pub open spec fn found_view(f: Option<ConfigFile>) -> Option<ConfigFileView> {
    match f {
        Some(x) => Some(x@),
        None => None,
    }
}

/// The configuration from explicit values and the environment.
pub open spec fn env_of_args(args: ResolveArgs) -> Result<ConfigView, ConfigError> {
    env_config(args.team, args.token, args.vault, args.env, args.home)
}

/// The team's default vault directory, `<root>/<team>`.
pub open spec fn default_dir(args: ResolveArgs, t: Seq<char>) -> Seq<char> {
    path_join(vault_root_spec(opt_view(args.home)), t)
}

/// The step after the explicit vault.
pub open spec fn default_spec(args: ResolveArgs) -> ResolveActionView {
    match effective_team(args) {
        Some(t) => ResolveActionView::LoadDefault(default_dir(args, t)),
        None => ResolveActionView::Finish(env_of_args(args)),
    }
}

/// The first step.
pub open spec fn start_spec(args: ResolveArgs) -> ResolveActionView {
    match args.vault {
        Some(v) => ResolveActionView::LoadVault(v@),
        None => default_spec(args),
    }
}

/// A saved configuration with the explicit team and token on top.
pub open spec fn with_explicit(args: ResolveArgs, c: ConfigView) -> ConfigView {
    ConfigView {
        team: match args.team {
            Some(t) => t@,
            None => c.team,
        },
        token: match args.token {
            Some(t) => t@,
            None => c.token,
        },
        ..c
    }
}

/// A saved configuration with the explicit token on top.
pub open spec fn with_token(args: ResolveArgs, c: ConfigView) -> ConfigView {
    ConfigView {
        token: match args.token {
            Some(t) => t@,
            None => c.token,
        },
        ..c
    }
}

/// The step after the explicit vault's config file was looked for.
pub open spec fn after_vault_spec(
    args: ResolveArgs,
    vault: Seq<char>,
    found: Option<ConfigFileView>,
) -> ResolveActionView {
    match found {
        Some(f) => ResolveActionView::Finish(Ok(with_explicit(args, config_from_file(f, vault)))),
        None => default_spec(args),
    }
}

/// The step after the default vault's config file was looked for.
pub open spec fn after_default_spec(
    args: ResolveArgs,
    dir: Seq<char>,
    found: Option<ConfigFileView>,
) -> ResolveActionView {
    match found {
        Some(f) => ResolveActionView::Finish(Ok(with_token(args, config_from_file(f, dir)))),
        None => ResolveActionView::Finish(env_of_args(args)),
    }
}

/// The configuration resolved for `args` when `file_at(dir)` is the
/// config file of the vault at `dir` (`None` when it has none): the
/// explicit vault's saved config with the explicit team and token on top;
/// else, when a team is known, its default vault's saved config with the
/// explicit token on top; else explicit values and the environment.
pub open spec fn resolve_spec(
    args: ResolveArgs,
    file_at: spec_fn(Seq<char>) -> Option<ConfigFileView>,
) -> Result<ConfigView, ConfigError> {
    let team = match args.team {
        Some(t) => Some(t@),
        None => match args.env.team {
            Some(t) => Some(t@),
            None => None,
        },
    };
    let token = match args.token {
        Some(t) => Some(t@),
        None => match args.env.token {
            Some(t) => Some(t@),
            None => None,
        },
    };
    let saved_endpoint = |f: ConfigFileView|
        match f.endpoint {
            Some(e) => e,
            None => "https://api.slab.com/v1/graphql"@,
        };
    let root = path_join(
        match args.home {
            Some(h) => h@,
            None => "."@,
        },
        ".slab"@,
    );
    let from_vault = match args.vault {
        Some(v) => match file_at(v@) {
            Some(f) => Some(
                ConfigView {
                    team: match args.team {
                        Some(t) => t@,
                        None => f.team,
                    },
                    token: match args.token {
                        Some(t) => t@,
                        None => f.token,
                    },
                    endpoint: saved_endpoint(f),
                    vault_path: v@,
                },
            ),
            None => None,
        },
        None => None,
    };
    let from_env = match team {
        None => Err(ConfigError::TeamRequired),
        Some(t) => match token {
            None => Err(ConfigError::TokenRequired),
            Some(k) => Ok(
                ConfigView {
                    team: t,
                    token: k,
                    endpoint: match args.env.endpoint {
                        Some(e) => e@,
                        None => "https://api.slab.com/v1/graphql"@,
                    },
                    vault_path: match args.vault {
                        Some(v) => v@,
                        None => match args.env.vault {
                            Some(v) => v@,
                            None => path_join(root, t),
                        },
                    },
                },
            ),
        },
    };
    match from_vault {
        Some(c) => Ok(c),
        None => match team {
            Some(t) => match file_at(path_join(root, t)) {
                Some(f) => Ok(
                    ConfigView {
                        team: f.team,
                        token: match args.token {
                            Some(k) => k@,
                            None => f.token,
                        },
                        endpoint: saved_endpoint(f),
                        vault_path: path_join(root, t),
                    },
                ),
                None => from_env,
            },
            None => from_env,
        },
    }
}

/// Running the resolution steps from the first, each load answered with
/// the config file found at its directory.
pub open spec fn run_steps(
    args: ResolveArgs,
    file_at: spec_fn(Seq<char>) -> Option<ConfigFileView>,
) -> ResolveActionView {
    let a1 = start_spec(args);
    let a2 = match a1 {
        ResolveActionView::LoadVault(d) => after_vault_spec(args, d, file_at(d)),
        _ => a1,
    };
    match a2 {
        ResolveActionView::LoadDefault(d) => after_default_spec(args, d, file_at(d)),
        _ => a2,
    }
}

/// Resolution as `Context::config` starts it (`start_spec`) and the
/// `resolve_after_vault` and `resolve_after_default` steps continue it
/// ends after at most three steps, with the configuration that
/// `resolve_spec` describes.
pub proof fn lemma_steps_resolve(
    args: ResolveArgs,
    file_at: spec_fn(Seq<char>) -> Option<ConfigFileView>,
)
    ensures
        run_steps(args, file_at) == ResolveActionView::Finish(resolve_spec(args, file_at)),
{
}

fn default_step(args: &ResolveArgs) -> (a: ResolveAction)
    ensures
        default_step_ok(*args, a),
        action_view(a) == default_spec(*args),
{
    match clone_or(&args.team, &args.env.team) {
        Some(t) => {
            let root = default_vault_root(&args.home);
            ResolveAction::LoadDefault(path_join_str(root.as_str(), t.as_str()))
        },
        None => ResolveAction::Finish(
            Config::from_env(&args.team, &args.token, &args.vault, &args.env, &args.home),
        ),
    }
}

/// First step: the explicit vault's config, if a vault is given.
pub fn resolve_start(args: &ResolveArgs) -> (a: ResolveAction)
    ensures
        action_view(a) == start_spec(*args),
        match args.vault {
            Some(v) => a matches ResolveAction::LoadVault(d) && d@ == v@,
            None => default_step_ok(*args, a),
        },
{
    match &args.vault {
        Some(v) => ResolveAction::LoadVault(v.clone()),
        None => default_step(args),
    }
}

/// After the explicit vault's config file was looked for (`found` is its
/// contents, `None` when it does not exist): the saved config with the
/// explicit team and token on top, or the next step.
pub fn resolve_after_vault(args: &ResolveArgs, vault: &str, found: Option<ConfigFile>) -> (a:
    ResolveAction)
    ensures
        action_view(a) == after_vault_spec(*args, vault@, found_view(found)),
        match found {
            Some(f) => a matches ResolveAction::Finish(Ok(c)) && {
                &&& c.team@ == match args.team {
                    Some(t) => t@,
                    None => f.team@,
                }
                &&& c.token@ == match args.token {
                    Some(t) => t@,
                    None => f.token@,
                }
                &&& c.endpoint@ == match f.endpoint {
                    Some(e) => e@,
                    None => default_endpoint(),
                }
                &&& c.vault_path@ == vault@
            },
            None => default_step_ok(*args, a),
        },
{
    match found {
        Some(f) => {
            let mut c = Config::from_file(&f, vault);
            if let Some(t) = &args.team {
                c.team = t.clone();
            }
            if let Some(t) = &args.token {
                c.token = t.clone();
            }
            ResolveAction::Finish(Ok(c))
        },
        None => default_step(args),
    }
}

/// After the default vault's config file was looked for: the saved config
/// with the explicit token on top, or the environment.
pub fn resolve_after_default(args: &ResolveArgs, dir: &str, found: Option<ConfigFile>) -> (a:
    ResolveAction)
    ensures
        action_view(a) == after_default_spec(*args, dir@, found_view(found)),
        match found {
            Some(f) => a matches ResolveAction::Finish(Ok(c)) && {
                &&& c.team@ == f.team@
                &&& c.token@ == match args.token {
                    Some(t) => t@,
                    None => f.token@,
                }
                &&& c.endpoint@ == match f.endpoint {
                    Some(e) => e@,
                    None => default_endpoint(),
                }
                &&& c.vault_path@ == dir@
            },
            None => a matches ResolveAction::Finish(r) && from_env_ok(*args, r),
        },
{
    match found {
        Some(f) => {
            let mut c = Config::from_file(&f, dir);
            if let Some(t) = &args.token {
                c.token = t.clone();
            }
            ResolveAction::Finish(Ok(c))
        },
        None => ResolveAction::Finish(
            Config::from_env(&args.team, &args.token, &args.vault, &args.env, &args.home),
        ),
    }
}

} // verus!
