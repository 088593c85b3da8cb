//! What the tray menu shows and switches: the event payloads sent to the
//! interface layer and the pure configuration reads and writes behind the
//! menu actions. Building the menu widgets themselves is the application
//! shell's job.

use vstd::prelude::*;
use vstd::string::StringExecFns;
use crate::config::{CcemConfig, EnvEntry};
use crate::session::lemma_filter_push;
use crate::text::str_eq;

verus! {

/// Event payload for environment changes.
pub struct EnvChangedPayload {
    pub env: String,
}

/// Event payload for permission changes.
pub struct PermChangedPayload {
    pub perm: String,
}

/// Event payload for session focus.
pub struct SessionFocusPayload {
    pub session_id: String,
}

/// What the tray shows, read out of the configuration: the current
/// environment name (the built-in one when none is selected), the
/// environment names with the built-in one first and the rest in
/// configuration order, and the current permission mode (the development
/// default when none is set).
pub fn read_config_state(cfg: &CcemConfig) -> (r: (String, Vec<String>, String))
    ensures
        r.0@ == match cfg.current {
            Some(c) => c@,
            None => "official"@,
        },
        r.2@ == match cfg.default_mode {
            Some(m) => m@,
            None => "dev"@,
        },
        ({
            let others = cfg.registries@.map_values(|e: EnvEntry| e.name).filter(
                |nm: String| nm@ != "official"@,
            );
            &&& r.1@.len() == 1 + others.len()
            &&& r.1@[0]@ == "official"@
            &&& r.1@.skip(1) == others
        }),
{
    let current_env = match &cfg.current {
        Some(c) => c.clone(),
        None => String::from_str("official"),
    };
    let current_perm = match &cfg.default_mode {
        Some(m) => m.clone(),
        None => String::from_str("dev"),
    };
    let ghost f = |e: EnvEntry| e.name;
    let ghost pred = |nm: String| nm@ != "official"@;
    let mut envs: Vec<String> = Vec::new();
    envs.push(String::from_str("official"));
    let n = cfg.registries.len();
    let mut i: usize = 0;
    while i < n
        invariant
            n == cfg.registries@.len(),
            i <= n,
            f == (|e: EnvEntry| e.name),
            pred == (|nm: String| nm@ != "official"@),
            envs@.len() >= 1,
            envs@[0]@ == "official"@,
            envs@.skip(1) == cfg.registries@.subrange(0, i as int).map_values(f).filter(pred),
        decreases n - i,
    {
        let ghost prefix = cfg.registries@.subrange(0, i as int);
        let ghost x = cfg.registries@[i as int];
        let name = &cfg.registries[i].name;
        if !str_eq(name.as_str(), "official") {
            envs.push(name.clone());
        }
        proof {
            assert(cfg.registries@.subrange(0, i as int + 1) =~= prefix.push(x));
            assert(prefix.push(x).map_values(f) =~= prefix.map_values(f).push(f(x)));
            lemma_filter_push(prefix.map_values(f), pred, f(x));
            if pred(f(x)) {
                assert(envs@.skip(1) =~= prefix.map_values(f).filter(pred).push(x.name));
            } else {
                assert(envs@.skip(1) =~= prefix.map_values(f).filter(pred));
            }
        }
        i += 1;
    }
    proof {
        assert(cfg.registries@.subrange(0, n as int) =~= cfg.registries@);
    }
    (current_env, envs, current_perm)
}

/// Selects an environment in the configuration; nothing else changes. The
/// application shell persists the configuration afterwards.
pub fn set_current_env_internal(cfg: &mut CcemConfig, env_name: &str)
    ensures
        final(cfg).current matches Some(c) && c@ == env_name@,
        final(cfg).registries == old(cfg).registries,
        final(cfg).default_mode == old(cfg).default_mode,
{
    cfg.current = Some(env_name.to_owned());
}

/// Selects a permission mode in the configuration; nothing else changes. The
/// application shell persists the configuration afterwards.
pub fn set_current_perm_internal(cfg: &mut CcemConfig, perm_mode: &str)
    ensures
        final(cfg).default_mode matches Some(m) && m@ == perm_mode@,
        final(cfg).registries == old(cfg).registries,
        final(cfg).current == old(cfg).current,
{
    cfg.default_mode = Some(perm_mode.to_owned());
}

} // verus!
