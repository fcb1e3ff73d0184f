//! `slab auth`: logging in, showing who is logged in, logging out.
use vstd::prelude::*;

use crate::config::{or_view, Config};
use crate::context::Context;
use crate::from_delta::push_lit;
use crate::paths::path_join;
use crate::text::{chars_of, string_of};
use crate::to_delta::lit_string;
use crate::vault::{clone_opt_string, push_str};

verus! {

/// The subcommands of `slab auth`.
pub enum AuthAction {
    /// Store API token and verify connection.
    Login { token: Option<String>, team: Option<String> },
    /// Show current authentication status.
    Status,
    /// Remove stored credentials.
    Logout,
}

/// What `slab auth` goes on to do.
pub enum AuthPlan {
    /// Resolve the configuration for `team` with `token`, check the token
    /// with Slab, and save the configuration.
    Login { team: String, token: String },
    /// Print `text`, the state of the configuration; the command succeeds
    /// whether or not a configuration could be resolved.
    Status { text: String },
    /// Remove the configuration file.
    Logout,
}

/// The first of three optional values.
pub open spec fn first_of(a: Option<String>, b: Option<String>, c: Option<String>) -> Option<
    Seq<char>,
> {
    match a {
        Some(s) => Some(s@),
        None => or_view(b, c),
    }
}

fn clone_first(a: &Option<String>, b: &Option<String>, c: &Option<String>) -> (r: Option<String>)
    ensures
        crate::config::opt_view(r) == first_of(*a, *b, *c),
{
    match a {
        Some(s) => Some(s.clone()),
        None => crate::config::clone_or(b, c),
    }
}

/// The token preview of `slab auth status`: the token's first eight
/// bytes, all of it when shorter.
pub open spec fn preview_of(token: Seq<char>, p: Seq<char>) -> bool {
    &&& utf8_count(token) <= 8 ==> p == token
    &&& utf8_count(token) > 8 ==> p == token.take(p.len() as int) && utf8_count(p) == 8
}

/// What a `slab auth` subcommand does. Logging in takes the
/// team and the token from the subcommand, else from the global options,
/// else from the environment (`env_team`, `env_token`); each is required.
/// The status shows `resolved`, the configuration resolved for the
/// context (`None` when none could be), and never fails.
pub fn run(
    ctx: &Context,
    action: AuthAction,
    env_team: Option<String>,
    env_token: Option<String>,
    resolved: Option<&Config>,
) -> (r: Result<AuthPlan, String>)
    requires
        resolved matches Some(c) ==> cut_at(c.token@, 8),
    ensures
        match action {
            AuthAction::Login { token, team } => match first_of(team, ctx.team, env_team) {
                None => r matches Err(e) && e@ == "--team is required for login"@,
                Some(t) => match first_of(token, ctx.token, env_token) {
                    None => r matches Err(e) && e@ == "--token is required for login"@,
                    Some(k) => r matches Ok(AuthPlan::Login { team, token }) && team@ == t
                        && token@ == k,
                },
            },
            AuthAction::Status => r matches Ok(AuthPlan::Status { text }) && match resolved {
                Some(c) => exists|p: Seq<char>|
                    preview_of(c.token@, p) && text@ == status_text_spec(Some(*c), p),
                None => text@ == status_text_spec(None, Seq::empty()),
            },
            AuthAction::Logout => r matches Ok(AuthPlan::Logout),
        },
{
    match action {
        AuthAction::Login { token, team } => {
            let team = match clone_first(&team, &ctx.team, &env_team) {
                Some(t) => t,
                None => {
                    return Err(lit_string("--team is required for login"));
                },
            };
            let token = match clone_first(&token, &ctx.token, &env_token) {
                Some(t) => t,
                None => {
                    return Err(lit_string("--token is required for login"));
                },
            };
            Ok(AuthPlan::Login { team, token })
        },
        AuthAction::Status => Ok(AuthPlan::Status { text: status_text(resolved) }),
        AuthAction::Logout => Ok(AuthPlan::Logout),
    }
}

/// Bytes that UTF-8 takes for `c`.
pub open spec fn utf8_len(c: char) -> nat {
    let u = c as u32;
    if u < 0x80 {
        1
    } else if u < 0x800 {
        2
    } else if u < 0x10000 {
        3
    } else {
        4
    }
}

/// Bytes that UTF-8 takes for `s` (`str::len`).
pub open spec fn utf8_count(s: Seq<char>) -> nat
    decreases s.len(),
{
    if s.len() == 0 {
        0
    } else {
        utf8_count(s.drop_last()) + utf8_len(s.last())
    }
}

/// Byte `n` of `s` falls between characters (or past the end).
pub open spec fn cut_at(s: Seq<char>, n: nat) -> bool {
    utf8_count(s) <= n || exists|k: int| 0 <= k <= s.len() && utf8_count(#[trigger] s.take(k)) == n
}

proof fn lemma_utf8_count_mono(s: Seq<char>, j: int, k: int)
    requires
        0 <= j <= k <= s.len(),
    ensures
        utf8_count(s.take(j)) + (k - j) <= utf8_count(s.take(k)),
    decreases k - j,
{
    if j < k {
        lemma_utf8_count_mono(s, j, k - 1);
        assert(s.take(k).drop_last() =~= s.take(k - 1));
    }
}

/// `&token[..8.min(token.len())]`: the token's first eight bytes (all of
/// it when shorter), as characters.
pub fn token_preview(token: &str) -> (r: String)
    requires
        cut_at(token@, 8),
    ensures
        utf8_count(token@) <= 8 ==> r@ == token@,
        utf8_count(token@) > 8 ==> r@ == token@.take(r@.len() as int) && utf8_count(r@) == 8,
{
    let cs = chars_of(token);
    let mut n: u64 = 0;
    let mut i: usize = 0;
    assert(cs@.take(0) =~= Seq::<char>::empty());
    while i < cs.len()
        invariant
            i <= cs@.len(),
            cs@ == token@,
            n == utf8_count(cs@.take(i as int)),
            n < 8,
            cut_at(token@, 8),
        decreases cs.len() - i,
    {
        let u = cs[i] as u32;
        let w: u64 = if u < 0x80 {
            1
        } else if u < 0x800 {
            2
        } else if u < 0x10000 {
            3
        } else {
            4
        };
        assert(cs@.take(i + 1).drop_last() =~= cs@.take(i as int));
        assert(n + w == utf8_count(cs@.take(i + 1)));
        if n + w >= 8 {
            proof {
                if n + w > 8 && utf8_count(token@) > 8 {
                    let k = choose|k: int| 0 <= k <= cs@.len() && utf8_count(#[trigger] cs@.take(k)) == 8;
                    if k <= i {
                        lemma_utf8_count_mono(cs@, k, i as int);
                    } else {
                        lemma_utf8_count_mono(cs@, i + 1, k);
                    }
                }
                if n + w > 8 && utf8_count(token@) <= 8 {
                    lemma_utf8_count_mono(cs@, i + 1, cs@.len() as int);
                    assert(cs@.take(cs@.len() as int) =~= cs@);
                }
            }
            let r = crate::text::slice_chars(cs.as_slice(), 0, i + 1);
            assert(r@ =~= cs@.take(i + 1));
            proof {
                if utf8_count(token@) <= 8 {
                    lemma_utf8_count_mono(cs@, i + 1, cs@.len() as int);
                    assert(cs@.take(cs@.len() as int) =~= cs@);
                    assert(i + 1 == cs@.len());
                }
            }
            return string_of(r.as_slice());
        }
        n = n + w;
        i = i + 1;
    }
    assert(cs@.take(cs@.len() as int) =~= cs@);
    string_of(cs.as_slice())
}

/// `slab auth status` once the configuration is resolved (`None` when it
/// could not be).
pub open spec fn status_text_spec(cfg: Option<Config>, preview: Seq<char>) -> Seq<char> {
    match cfg {
        Some(c) => "team:  "@ + c.team@ + "\nvault: "@ + c.vault_path@ + "\nendpoint: "@ + c.endpoint@
            + "\ntoken: "@ + preview + "...\n"@,
        None => "not authenticated — run `slab auth login` first\n"@,
    }
}

/// The text of `slab auth status`.
pub fn status_text(cfg: Option<&Config>) -> (r: String)
    requires
        cfg matches Some(c) ==> cut_at(c.token@, 8),
    ensures
        match cfg {
            Some(c) => exists|p: Seq<char>| preview_of(c.token@, p) && r@ == status_text_spec(Some(*c), p),
            None => r@ == status_text_spec(None, Seq::empty()),
        },
{
    match cfg {
        Some(c) => {
            let mut o: Vec<char> = Vec::new();
            push_lit(&mut o, "team:  ");
            push_str(&mut o, &c.team);
            push_lit(&mut o, "\nvault: ");
            push_str(&mut o, &c.vault_path);
            push_lit(&mut o, "\nendpoint: ");
            push_str(&mut o, &c.endpoint);
            push_lit(&mut o, "\ntoken: ");
            let p = token_preview(c.token.as_str());
            push_str(&mut o, &p);
            push_lit(&mut o, "...\n");
            assert(o@ =~= status_text_spec(Some(*c), p@));
            string_of(o.as_slice())
        },
        None => lit_string("not authenticated — run `slab auth login` first\n"),
    }
}

/// The line `slab auth login` prints once the token is accepted.
pub fn login_text(host: &str, team: &str) -> (r: String)
    ensures
        r@ == "authenticated to "@ + host@ + " ("@ + team@ + ")\n"@,
{
    let mut o: Vec<char> = Vec::new();
    push_lit(&mut o, "authenticated to ");
    push_lit(&mut o, host);
    push_lit(&mut o, " (");
    push_lit(&mut o, team);
    push_lit(&mut o, ")\n");
    string_of(o.as_slice())
}

/// The line `slab auth login` prints once the configuration is saved.
pub fn saved_text(config_file: &str) -> (r: String)
    ensures
        r@ == "config saved to "@ + config_file@ + "\n"@,
{
    let mut o: Vec<char> = Vec::new();
    push_lit(&mut o, "config saved to ");
    push_lit(&mut o, config_file);
    push_lit(&mut o, "\n");
    string_of(o.as_slice())
}

/// What `slab auth logout` prints: the removed file, if there was one.
pub fn logout_text(removed: Option<&str>) -> (r: String)
    ensures
        r@ == match removed {
            Some(p) => "removed "@ + p@ + "\n"@ + "logged out\n"@,
            None => "logged out\n"@,
        },
{
    let mut o: Vec<char> = Vec::new();
    match removed {
        Some(p) => {
            push_lit(&mut o, "removed ");
            push_lit(&mut o, p);
            push_lit(&mut o, "\n");
        },
        None => {},
    }
    push_lit(&mut o, "logged out\n");
    string_of(o.as_slice())
}

} // verus!
