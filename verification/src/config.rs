//! Configuration data: the named environments with their connection
//! settings, the selected environment and permission mode, and the paths the
//! configuration lives under. Reading and writing the files is the
//! application shell's job; this module owns the shapes and the key
//! encryption around them.

use vstd::prelude::*;
use vstd::string::StringExecFns;
use crate::crypto;

verus! {

/// Connection settings of one environment: endpoint, stored API key and the
/// model names handed to the launched tool. The API key field holds the
/// encrypted form at rest.
pub struct EnvConfig {
    pub base_url: Option<String>,
    pub api_key: Option<String>,
    pub model: Option<String>,
    pub small_model: Option<String>,
}

impl Clone for EnvConfig {
    fn clone(&self) -> (r: Self)
        ensures
            r == *self,
    {
        EnvConfig {
            base_url: match &self.base_url {
                Some(v) => Some(v.clone()),
                None => None,
            },
            api_key: match &self.api_key {
                Some(v) => Some(v.clone()),
                None => None,
            },
            model: match &self.model {
                Some(v) => Some(v.clone()),
                None => None,
            },
            small_model: match &self.small_model {
                Some(v) => Some(v.clone()),
                None => None,
            },
        }
    }
}

/// One named environment of the configuration.
pub struct EnvEntry {
    pub name: String,
    pub config: EnvConfig,
}

impl Clone for EnvEntry {
    fn clone(&self) -> (r: Self)
        ensures
            r == *self,
    {
        EnvEntry { name: self.name.clone(), config: self.config.clone() }
    }
}

/// The tool's configuration: the environments by name, the selected
/// environment and the default permission mode.
pub struct CcemConfig {
    pub registries: Vec<EnvEntry>,
    pub current: Option<String>,
    pub default_mode: Option<String>,
}

impl CcemConfig {
    /// Environment names are unique.
    pub open spec fn wf(self) -> bool {
        forall|i: int, j: int|
            0 <= i < j < self.registries@.len() ==> self.registries@[i].name@
                != self.registries@[j].name@
    }
}

impl Default for CcemConfig {
    /// A fresh configuration holds the one built-in environment, selected.
    fn default() -> (r: Self)
        ensures
            r.registries@.len() == 1,
            r.registries@[0].name@ == "official"@,
            r.registries@[0].config.base_url matches Some(u) && u@
                == "https://api.anthropic.com"@,
            r.registries@[0].config.api_key is None,
            r.registries@[0].config.model matches Some(m) && m@ == "sonnet-4-5-20250929"@,
            r.registries@[0].config.small_model matches Some(m) && m@
                == "haiku-4-5-20251001"@,
            r.current matches Some(c) && c@ == "official"@,
            r.default_mode is None,
            r.wf(),
    {
        let mut registries: Vec<EnvEntry> = Vec::new();
        registries.push(
            EnvEntry {
                name: String::from_str("official"),
                config: EnvConfig {
                    base_url: Some(String::from_str("https://api.anthropic.com")),
                    api_key: None,
                    model: Some(String::from_str("sonnet-4-5-20250929")),
                    small_model: Some(String::from_str("haiku-4-5-20251001")),
                },
            },
        );
        CcemConfig { registries, current: Some(String::from_str("official")), default_mode: None }
    }
}

/// True when the configuration holds an environment with this name.
pub open spec fn registries_contain(v: Seq<EnvEntry>, name: Seq<char>) -> bool {
    exists|i: int| 0 <= i < v.len() && v[i].name@ == name
}

/// Index of the first environment with this name, or -1 when none exists.
pub open spec fn first_registry_index(v: Seq<EnvEntry>, name: Seq<char>) -> int
    decreases v.len(),
{
    if v.len() == 0 {
        -1
    } else if v[0].name@ == name {
        0
    } else {
        let r = first_registry_index(v.drop_first(), name);
        if r < 0 {
            -1
        } else {
            r + 1
        }
    }
}

/// `first_registry_index` finds exactly the first matching position.
proof fn lemma_first_registry_index(v: Seq<EnvEntry>, name: Seq<char>)
    ensures
        !registries_contain(v, name) ==> first_registry_index(v, name) == -1,
        registries_contain(v, name) ==> {
            let k = first_registry_index(v, name);
            &&& 0 <= k < v.len()
            &&& v[k].name@ == name
            &&& forall|j: int| 0 <= j < k ==> v[j].name@ != name
        },
    decreases v.len(),
{
    if v.len() > 0 && v[0].name@ != name {
        let rest = v.drop_first();
        lemma_first_registry_index(rest, name);
        assert(forall|i: int| 0 <= i < rest.len() ==> rest[i] == v[i + 1]);
        if registries_contain(v, name) {
            let i = choose|i: int| 0 <= i < v.len() && v[i].name@ == name;
            assert(rest[i - 1].name@ == name);
            assert(registries_contain(rest, name));
        }
        if registries_contain(rest, name) {
            let i = choose|i: int| 0 <= i < rest.len() && rest[i].name@ == name;
            assert(v[i + 1].name@ == name);
            assert(registries_contain(v, name));
        }
        if registries_contain(v, name) {
            let k = first_registry_index(v, name);
            assert(rest[k - 1] == v[k]);
            assert forall|j: int| 0 <= j < k implies v[j].name@ != name by {
                if j > 0 {
                    assert(rest[j - 1] == v[j]);
                }
            }
        }
    }
}

/// Position of the first environment with this name, if any.
fn find_registry_index(regs: &Vec<EnvEntry>, name: &str) -> (r: Option<usize>)
    ensures
        match r {
            Some(i) => i == first_registry_index(regs@, name@) && i < regs@.len()
                && regs@[i as int].name@ == name@,
            None => !registries_contain(regs@, name@),
        },
{
    let n = regs.len();
    let mut i: usize = 0;
    while i < n
        invariant
            n == regs@.len(),
            i <= n,
            forall|j: int| 0 <= j < i ==> regs@[j].name@ != name@,
        decreases n - i,
    {
        if crate::text::str_eq(regs[i].name.as_str(), name) {
            proof {
                assert(registries_contain(regs@, name@));
                lemma_first_registry_index(regs@, name@);
                let k = first_registry_index(regs@, name@);
                assert(!(k < i) && !(i < k));
            }
            return Some(i);
        }
        i += 1;
    }
    None
}

/// Adds a new environment under this name; a name already taken is refused
/// with a message naming it, and nothing changes.
pub fn add_environment(cfg: &mut CcemConfig, name: String, env: EnvConfig) -> (r: Result<
    (),
    String,
>)
    ensures
        registries_contain(old(cfg).registries@, name@) ==> *final(cfg) == *old(cfg),
        r is Err <==> registries_contain(old(cfg).registries@, name@),
        r matches Err(m) ==> m@ == "Environment '"@ + name@ + "' already exists"@,
        r is Ok ==> final(cfg).registries@ == old(cfg).registries@.push(
            EnvEntry { name, config: env },
        ) && final(cfg).current == old(cfg).current && final(cfg).default_mode == old(
            cfg,
        ).default_mode,
{
    match find_registry_index(&cfg.registries, name.as_str()) {
        Some(_) => {
            let mut m = String::from_str("Environment '");
            m.append(name.as_str());
            m.append("' already exists");
            Err(m)
        },
        None => {
            cfg.registries.push(EnvEntry { name, config: env });
            Ok(())
        },
    }
}

/// Replaces the settings of an existing environment; an unknown name is
/// refused with a message naming it, and nothing changes.
pub fn update_environment(cfg: &mut CcemConfig, name: &str, env: EnvConfig) -> (r: Result<
    (),
    String,
>)
    ensures
        !registries_contain(old(cfg).registries@, name@) ==> *final(cfg) == *old(cfg),
        r is Err <==> !registries_contain(old(cfg).registries@, name@),
        r matches Err(m) ==> m@ == "Environment '"@ + name@ + "' does not exist"@,
        r is Ok ==> ({
            let k = first_registry_index(old(cfg).registries@, name@);
            &&& final(cfg).registries@ == old(cfg).registries@.update(
                k,
                EnvEntry { name: old(cfg).registries@[k].name, config: env },
            )
            &&& final(cfg).current == old(cfg).current
            &&& final(cfg).default_mode == old(cfg).default_mode
        }),
{
    match find_registry_index(&cfg.registries, name) {
        Some(i) => {
            self_update_entry(&mut cfg.registries, i, env);
            Ok(())
        },
        None => {
            let mut m = String::from_str("Environment '");
            m.append(name);
            m.append("' does not exist");
            Err(m)
        },
    }
}

/// Replaces the settings stored at one position, keeping the name.
fn self_update_entry(regs: &mut Vec<EnvEntry>, i: usize, env: EnvConfig)
    requires
        i < old(regs)@.len(),
    ensures
        final(regs)@ == old(regs)@.update(
            i as int,
            EnvEntry { name: old(regs)@[i as int].name, config: env },
        ),
{
    regs[i].config = env;
    proof {
        assert(regs@ =~= old(regs)@.update(
            i as int,
            EnvEntry { name: old(regs)@[i as int].name, config: env },
        ));
    }
}

/// Deletes an environment. The built-in environment cannot be deleted; an
/// unknown name is refused; when the deleted environment was the selected
/// one, the selection falls back to the built-in environment.
pub fn delete_environment(cfg: &mut CcemConfig, name: &str) -> (r: Result<(), String>)
    ensures
        name@ == "official"@ ==> (r matches Err(m) && m@
            == "Cannot delete the 'official' environment"@ && *final(cfg) == *old(cfg)),
        name@ != "official"@ && !registries_contain(old(cfg).registries@, name@) ==> (r matches Err(
            m,
        ) && m@ == "Environment '"@ + name@ + "' does not exist"@ && *final(cfg) == *old(cfg)),
        name@ != "official"@ && registries_contain(old(cfg).registries@, name@) ==> (r is Ok
            && final(cfg).registries@ == old(cfg).registries@.filter(
            |e: EnvEntry| e.name@ != name@,
        ) && final(cfg).default_mode == old(cfg).default_mode && (old(cfg).current matches Some(c)
            && c@ == name@ ==> (final(cfg).current matches Some(c2) && c2@ == "official"@)) && (!(
        old(cfg).current matches Some(c) && c@ == name@) ==> final(cfg).current == old(
            cfg,
        ).current)),
{
    if crate::text::str_eq(name, "official") {
        proof {
            reveal_strlit("official");
        }
        return Err(String::from_str("Cannot delete the 'official' environment"));
    }
    match find_registry_index(&cfg.registries, name) {
        None => {
            let mut m = String::from_str("Environment '");
            m.append(name);
            m.append("' does not exist");
            Err(m)
        },
        Some(_) => {
            let ghost pred = |e: EnvEntry| e.name@ != name@;
            let n = cfg.registries.len();
            let mut kept: Vec<EnvEntry> = Vec::new();
            let mut i: usize = 0;
            while i < n
                invariant
                    n == cfg.registries@.len(),
                    i <= n,
                    pred == (|e: EnvEntry| e.name@ != name@),
                    kept@ == cfg.registries@.subrange(0, i as int).filter(pred),
                decreases n - i,
            {
                let ghost prefix = cfg.registries@.subrange(0, i as int);
                let ghost x = cfg.registries@[i as int];
                if !crate::text::str_eq(cfg.registries[i].name.as_str(), name) {
                    kept.push(cfg.registries[i].clone());
                }
                proof {
                    assert(cfg.registries@.subrange(0, i as int + 1) =~= prefix.push(x));
                    crate::session::lemma_filter_push(prefix, pred, x);
                }
                i += 1;
            }
            proof {
                assert(cfg.registries@.subrange(0, n as int) =~= cfg.registries@);
            }
            cfg.registries = kept;
            let was_current = match &cfg.current {
                Some(c) => crate::text::str_eq(c.as_str(), name),
                None => false,
            };
            if was_current {
                cfg.current = Some(String::from_str("official"));
            }
            Ok(())
        },
    }
}

/// A project directory the user pinned, with its display name.
pub struct FavoriteProject {
    pub path: String,
    pub name: String,
}

impl Clone for FavoriteProject {
    fn clone(&self) -> (r: Self)
        ensures
            r == *self,
    {
        FavoriteProject { path: self.path.clone(), name: self.name.clone() }
    }
}

/// A project directory recently launched from, newest first.
pub struct RecentProject {
    pub path: String,
    pub last_used: String,
}

impl Clone for RecentProject {
    fn clone(&self) -> (r: Self)
        ensures
            r == *self,
    {
        RecentProject { path: self.path.clone(), last_used: self.last_used.clone() }
    }
}

/// A project directory found in the VS Code recent list.
pub struct VSCodeProject {
    pub path: String,
    pub synced_at: String,
}

impl Clone for VSCodeProject {
    fn clone(&self) -> (r: Self)
        ensures
            r == *self,
    {
        VSCodeProject { path: self.path.clone(), synced_at: self.synced_at.clone() }
    }
}

/// A project directory found in a JetBrains IDE's recent list.
pub struct JetBrainsProject {
    pub path: String,
    pub ide: String,
    pub synced_at: String,
}

impl Clone for JetBrainsProject {
    fn clone(&self) -> (r: Self)
        ensures
            r == *self,
    {
        JetBrainsProject {
            path: self.path.clone(),
            ide: self.ide.clone(),
            synced_at: self.synced_at.clone(),
        }
    }
}

/// The desktop-only configuration: pinned and recently used project
/// directories, and the project lists synced from other editors.
pub struct AppConfig {
    pub favorites: Vec<FavoriteProject>,
    pub recent: Vec<RecentProject>,
    pub vscode_projects: Vec<VSCodeProject>,
    pub jetbrains_projects: Vec<JetBrainsProject>,
}

impl Default for AppConfig {
    /// A fresh desktop configuration is empty.
    fn default() -> (r: Self)
        ensures
            r.favorites@.len() == 0,
            r.recent@.len() == 0,
            r.vscode_projects@.len() == 0,
            r.jetbrains_projects@.len() == 0,
    {
        AppConfig {
            favorites: Vec::new(),
            recent: Vec::new(),
            vscode_projects: Vec::new(),
            jetbrains_projects: Vec::new(),
        }
    }
}

/// How many recent projects are kept.
pub const RECENT_LIMIT: usize = 10;

/// True when some favorite carries this path.
pub open spec fn favorites_contain(v: Seq<FavoriteProject>, path: Seq<char>) -> bool {
    exists|i: int| 0 <= i < v.len() && v[i].path@ == path
}

/// Pins a project directory; a path already pinned is left alone, so pinning
/// never duplicates a path that was unique before.
pub fn add_favorite(cfg: &mut AppConfig, path: String, name: String)
    ensures
        favorites_contain(old(cfg).favorites@, path@) ==> final(cfg).favorites@ == old(
            cfg,
        ).favorites@,
        !favorites_contain(old(cfg).favorites@, path@) ==> final(cfg).favorites@ == old(
            cfg,
        ).favorites@.push(FavoriteProject { path, name }),
        final(cfg).recent == old(cfg).recent,
        final(cfg).vscode_projects == old(cfg).vscode_projects,
        final(cfg).jetbrains_projects == old(cfg).jetbrains_projects,
{
    let n = cfg.favorites.len();
    let mut i: usize = 0;
    while i < n
        invariant
            n == cfg.favorites@.len(),
            i <= n,
            forall|j: int| 0 <= j < i ==> cfg.favorites@[j].path@ != path@,
        decreases n - i,
    {
        if crate::text::str_eq(cfg.favorites[i].path.as_str(), path.as_str()) {
            return ;
        }
        i += 1;
    }
    cfg.favorites.push(FavoriteProject { path, name });
}

/// Unpins every favorite with this path; unknown paths are a silent no-op.
pub fn remove_favorite(cfg: &mut AppConfig, path: &str)
    ensures
        final(cfg).favorites@ == old(cfg).favorites@.filter(
            |f: FavoriteProject| f.path@ != path@,
        ),
        final(cfg).recent == old(cfg).recent,
        final(cfg).vscode_projects == old(cfg).vscode_projects,
        final(cfg).jetbrains_projects == old(cfg).jetbrains_projects,
{
    let ghost pred = |f: FavoriteProject| f.path@ != path@;
    let n = cfg.favorites.len();
    let mut kept: Vec<FavoriteProject> = Vec::new();
    let mut i: usize = 0;
    while i < n
        invariant
            n == cfg.favorites@.len(),
            i <= n,
            pred == (|f: FavoriteProject| f.path@ != path@),
            kept@ == cfg.favorites@.subrange(0, i as int).filter(pred),
        decreases n - i,
    {
        let ghost prefix = cfg.favorites@.subrange(0, i as int);
        let ghost x = cfg.favorites@[i as int];
        if !crate::text::str_eq(cfg.favorites[i].path.as_str(), path) {
            kept.push(cfg.favorites[i].clone());
        }
        proof {
            assert(cfg.favorites@.subrange(0, i as int + 1) =~= prefix.push(x));
            crate::session::lemma_filter_push(prefix, pred, x);
        }
        i += 1;
    }
    proof {
        assert(cfg.favorites@.subrange(0, n as int) =~= cfg.favorites@);
    }
    cfg.favorites = kept;
}

/// Records a launch from a project directory: any older entry for the same
/// path is dropped, the new entry goes to the front, and only the newest
/// entries up to the limit are kept.
pub fn add_recent(cfg: &mut AppConfig, path: String, last_used: String)
    ensures
        ({
            let fresh = RecentProject { path: path, last_used: last_used };
            let others = old(cfg).recent@.filter(|p: RecentProject| p.path@ != path@);
            final(cfg).recent@ == (seq![fresh] + others).take(
                if 1 + others.len() <= RECENT_LIMIT {
                    (1 + others.len()) as int
                } else {
                    RECENT_LIMIT as int
                },
            )
        }),
        final(cfg).favorites == old(cfg).favorites,
        final(cfg).vscode_projects == old(cfg).vscode_projects,
        final(cfg).jetbrains_projects == old(cfg).jetbrains_projects,
{
    let ghost pred = |p: RecentProject| p.path@ != path@;
    let n = cfg.recent.len();
    let mut kept: Vec<RecentProject> = Vec::new();
    kept.push(RecentProject { path: path.clone(), last_used });
    let mut i: usize = 0;
    while i < n
        invariant
            n == cfg.recent@.len(),
            i <= n,
            pred == (|p: RecentProject| p.path@ != path@),
            kept@.len() >= 1,
            kept@.skip(1) == cfg.recent@.subrange(0, i as int).filter(pred),
            kept@[0].path@ == path@,
            kept@[0] == (RecentProject { path: path, last_used: last_used }),
        decreases n - i,
    {
        let ghost prefix = cfg.recent@.subrange(0, i as int);
        let ghost x = cfg.recent@[i as int];
        if !crate::text::str_eq(cfg.recent[i].path.as_str(), path.as_str()) {
            kept.push(cfg.recent[i].clone());
        }
        proof {
            assert(cfg.recent@.subrange(0, i as int + 1) =~= prefix.push(x));
            crate::session::lemma_filter_push(prefix, pred, x);
            if pred(x) {
                assert(kept@.skip(1) =~= prefix.filter(pred).push(x));
            }
        }
        i += 1;
    }
    let ghost fresh = RecentProject { path: path, last_used: last_used };
    let ghost others = old(cfg).recent@.filter(|p: RecentProject| p.path@ != path@);
    proof {
        assert(cfg.recent@.subrange(0, n as int) =~= cfg.recent@);
        assert(others == old(cfg).recent@.filter(pred));
        assert(kept@ =~= seq![fresh] + others);
    }
    kept.truncate(RECENT_LIMIT);
    cfg.recent = kept;
    proof {
        let bound = if 1 + others.len() <= RECENT_LIMIT {
            (1 + others.len()) as int
        } else {
            RECENT_LIMIT as int
        };
        assert(cfg.recent@ =~= (seq![fresh] + others).take(bound));
    }
}

/// Path of the main configuration file under the tool's directory.
pub fn get_config_path(ccem_dir: &str) -> (r: String)
    ensures
        r@ == ccem_dir@ + "/config.json"@,
{
    let mut p = ccem_dir.to_owned();
    p.append("/config.json");
    p
}

/// Path of the desktop-only configuration file under the tool's directory.
pub fn get_app_config_path(ccem_dir: &str) -> (r: String)
    ensures
        r@ == ccem_dir@ + "/app.json"@,
{
    let mut p = ccem_dir.to_owned();
    p.append("/app.json");
    p
}

/// A copy of the environment with its stored API key decrypted; a key that
/// cannot be decrypted is kept exactly as stored.
pub fn get_env_with_decrypted_key(env: &EnvConfig) -> (r: EnvConfig)
    ensures
        r.base_url == env.base_url,
        r.model == env.model,
        r.small_model == env.small_model,
        env.api_key is None ==> r.api_key is None,
        env.api_key matches Some(k) ==> (r.api_key matches Some(p) && p@ == (
        if crypto::spec_decrypt_fails(k@) {
            k@
        } else {
            crypto::spec_decrypt_ok(k@)
        })),
{
    EnvConfig {
        base_url: match &env.base_url {
            Some(v) => Some(v.clone()),
            None => None,
        },
        api_key: match &env.api_key {
            Some(k) => Some(
                match crypto::decrypt(k.as_str()) {
                    Ok(p) => p,
                    Err(_) => k.clone(),
                },
            ),
            None => None,
        },
        model: match &env.model {
            Some(v) => Some(v.clone()),
            None => None,
        },
        small_model: match &env.small_model {
            Some(v) => Some(v.clone()),
            None => None,
        },
    }
}

/// Builds an environment whose API key, where given and non-empty, is stored
/// in the encrypted form; the other settings pass through unchanged.
pub fn create_env_with_encrypted_key(
    base_url: Option<String>,
    api_key: Option<String>,
    model: Option<String>,
    small_model: Option<String>,
) -> (r: EnvConfig)
    ensures
        r.base_url == base_url,
        r.model == model,
        r.small_model == small_model,
        api_key is None ==> r.api_key is None,
        api_key matches Some(k) ==> (r.api_key matches Some(e) && (k@.len() == 0 ==> e@ == k@)
            && (k@.len() > 0 ==> crypto::is_encryption_of(e@, k@))),
{
    EnvConfig {
        base_url,
        api_key: match api_key {
            Some(k) => Some(crypto::encrypt(k.as_str())),
            None => None,
        },
        model,
        small_model,
    }
}

} // verus!
