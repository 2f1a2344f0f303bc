//! Agent settings: a user file and a project file, the project's values
//! laid over the user's field by field.

use vstd::prelude::*;

verus! {

broadcast use vstd::string::group_string_axioms;

/// Compaction settings.
#[derive(Debug, Clone, PartialEq)]
pub struct CompactionConfig {
    /// Whether automatic compaction is on.
    pub enabled: Option<bool>,
    /// Tokens kept for the compaction summary.
    pub reserve_tokens: Option<u64>,
}

/// The agent's settings; every field may be absent.
#[derive(Debug, Clone, PartialEq)]
pub struct Settings {
    pub default_provider: Option<String>,
    pub default_model: Option<String>,
    /// `none`, `low`, `medium` or `high`.
    pub thinking_level: Option<String>,
    pub compaction: Option<CompactionConfig>,
    pub shell: Option<String>,
    pub theme: Option<String>,
    pub max_turns: Option<usize>,
}

/// `overlay` where it has a value, else `base`.
pub open spec fn pick<T>(base: Option<T>, overlay: Option<T>) -> Option<T> {
    match overlay {
        Some(v) => Some(v),
        None => base,
    }
}

/// The compaction settings of `overlay` laid over those of `base`.
pub open spec fn merged_compaction(base: CompactionConfig, overlay: CompactionConfig) -> CompactionConfig {
    CompactionConfig {
        enabled: pick(base.enabled, overlay.enabled),
        reserve_tokens: pick(base.reserve_tokens, overlay.reserve_tokens),
    }
}

/// The settings of `overlay` laid over those of `base`: each field of the
/// overlay that has a value wins; the compaction settings are merged field
/// by field.
pub open spec fn merged(base: Settings, overlay: Settings) -> Settings {
    Settings {
        default_provider: pick(base.default_provider, overlay.default_provider),
        default_model: pick(base.default_model, overlay.default_model),
        thinking_level: pick(base.thinking_level, overlay.thinking_level),
        compaction: match (base.compaction, overlay.compaction) {
            (_, None) => base.compaction,
            (None, Some(o)) => Some(o),
            (Some(b), Some(o)) => Some(merged_compaction(b, o)),
        },
        shell: pick(base.shell, overlay.shell),
        theme: pick(base.theme, overlay.theme),
        max_turns: pick(base.max_turns, overlay.max_turns),
    }
}

/// Settings with no value.
pub open spec fn empty_settings() -> Settings {
    Settings {
        default_provider: None,
        default_model: None,
        thinking_level: None,
        compaction: None,
        shell: None,
        theme: None,
        max_turns: None,
    }
}

fn copy_opt_string(o: &Option<String>) -> (r: Option<String>)
    ensures
        r == *o,
{
    match o {
        Some(s) => Some(s.clone()),
        None => None,
    }
}

fn deep_merge_compaction(base: &mut CompactionConfig, overlay: &CompactionConfig)
    ensures
        *final(base) == merged_compaction(*old(base), *overlay),
{
    if overlay.enabled.is_some() {
        base.enabled = overlay.enabled;
    }
    if overlay.reserve_tokens.is_some() {
        base.reserve_tokens = overlay.reserve_tokens;
    }
}

/// Lays `overlay` over `base`: every field that the overlay sets replaces
/// the base's; the compaction settings are merged field by field.
pub fn deep_merge(base: &mut Settings, overlay: &Settings)
    ensures
        *final(base) == merged(*old(base), *overlay),
{
    if overlay.default_provider.is_some() {
        base.default_provider = copy_opt_string(&overlay.default_provider);
    }
    if overlay.default_model.is_some() {
        base.default_model = copy_opt_string(&overlay.default_model);
    }
    if overlay.thinking_level.is_some() {
        base.thinking_level = copy_opt_string(&overlay.thinking_level);
    }
    if overlay.shell.is_some() {
        base.shell = copy_opt_string(&overlay.shell);
    }
    if overlay.theme.is_some() {
        base.theme = copy_opt_string(&overlay.theme);
    }
    if overlay.max_turns.is_some() {
        base.max_turns = overlay.max_turns;
    }
    match &overlay.compaction {
        None => {},
        Some(ov) => {
            let merged_c = match &base.compaction {
                None => CompactionConfig { enabled: ov.enabled, reserve_tokens: ov.reserve_tokens },
                Some(b) => {
                    let mut c = CompactionConfig { enabled: b.enabled, reserve_tokens: b.reserve_tokens };
                    deep_merge_compaction(&mut c, ov);
                    c
                },
            };
            base.compaction = Some(merged_c);
        },
    }
}

/// An empty overlay changes nothing.
pub proof fn merge_empty_overlay(base: Settings)
    ensures
        merged(base, empty_settings()) == base,
{
}

/// Laying the same overlay twice is laying it once.
pub proof fn merge_idempotent(base: Settings, overlay: Settings)
    ensures
        merged(merged(base, overlay), overlay) == merged(base, overlay),
{
}

/// Overlays compose: laying `b` then `c` over `a` is laying over `a` the
/// result of laying `c` over `b`.
pub proof fn merge_associative(a: Settings, b: Settings, c: Settings)
    ensures
        merged(merged(a, b), c) == merged(a, merged(b, c)),
{
}

/// Merging into empty settings gives the overlay.
pub proof fn merge_into_empty(overlay: Settings)
    ensures
        merged(empty_settings(), overlay) == overlay,
{
}

/// Every field that the overlay sets wins over the base, and every field it
/// leaves unset keeps the base's value; of the compaction settings, each
/// field is taken from the overlay where it sets one.
pub proof fn merge_overlay_wins(base: Settings, overlay: Settings)
    ensures
        merged(base, overlay).default_provider == if overlay.default_provider is Some {
            overlay.default_provider
        } else {
            base.default_provider
        },
        merged(base, overlay).default_model == if overlay.default_model is Some {
            overlay.default_model
        } else {
            base.default_model
        },
        merged(base, overlay).thinking_level == if overlay.thinking_level is Some {
            overlay.thinking_level
        } else {
            base.thinking_level
        },
        merged(base, overlay).shell == if overlay.shell is Some {
            overlay.shell
        } else {
            base.shell
        },
        merged(base, overlay).theme == if overlay.theme is Some {
            overlay.theme
        } else {
            base.theme
        },
        merged(base, overlay).max_turns == if overlay.max_turns is Some {
            overlay.max_turns
        } else {
            base.max_turns
        },
        overlay.compaction is None ==> merged(base, overlay).compaction == base.compaction,
        overlay.compaction is Some && base.compaction is None ==> merged(base, overlay).compaction
            == overlay.compaction,
        overlay.compaction is Some && base.compaction is Some ==> {
            let o = overlay.compaction->0;
            let b = base.compaction->0;
            let m = merged(base, overlay).compaction;
            &&& m is Some
            &&& m->0.enabled == if o.enabled is Some {
                o.enabled
            } else {
                b.enabled
            }
            &&& m->0.reserve_tokens == if o.reserve_tokens is Some {
                o.reserve_tokens
            } else {
                b.reserve_tokens
            }
        },
{
}

/// Loading: a field set in the project file wins over the user file's, a
/// field the project file leaves unset keeps the user file's value, and a
/// missing file counts as one that sets nothing.
pub proof fn project_settings_win(user: Settings, project: Settings)
    ensures
        project.default_provider is Some ==> merged(user, project).default_provider
            == project.default_provider,
        project.default_model is Some ==> merged(user, project).default_model == project.default_model,
        project.thinking_level is Some ==> merged(user, project).thinking_level
            == project.thinking_level,
        project.shell is Some ==> merged(user, project).shell == project.shell,
        project.theme is Some ==> merged(user, project).theme == project.theme,
        project.max_turns is Some ==> merged(user, project).max_turns == project.max_turns,
        merged(empty_settings(), project) == project,
        merged(user, empty_settings()) == user,
{
    merge_overlay_wins(user, project);
}

/// Where the two settings files are.
pub struct SettingsManager {
    user_settings_path: String,
    project_settings_path: String,
}

impl SettingsManager {
    /// A manager for the given user and project settings files.
    pub fn with_paths(user_settings_path: String, project_settings_path: String) -> (r: Self)
        ensures
            r.user_path() == user_settings_path@,
            r.project_path() == project_settings_path@,
    {
        SettingsManager { user_settings_path, project_settings_path }
    }

    /// The user settings file.
    pub closed spec fn user_path(&self) -> Seq<char> {
        self.user_settings_path@
    }

    /// The project settings file.
    pub closed spec fn project_path(&self) -> Seq<char> {
        self.project_settings_path@
    }

    /// The manager for a home directory (`/tmp` when there is none) and a
    /// project directory: `.pi/agent/settings.json` under the home,
    /// `.pi/settings.json` under the project.
    pub fn new(home: Option<&str>, cwd: &str) -> (r: Self)
        ensures
            r.user_path() == crate::paths::path_join(
                crate::paths::path_join(
                    crate::paths::path_join(
                        match home {
                            Some(h) => h@,
                            None => "/tmp"@,
                        },
                        ".pi"@,
                    ),
                    "agent"@,
                ),
                "settings.json"@,
            ),
            r.project_path() == crate::paths::path_join(
                crate::paths::path_join(cwd@, ".pi"@),
                "settings.json"@,
            ),
    {
        let h = match home {
            Some(h) => h.to_string(),
            None => {
                proof {
                    reveal_strlit("/tmp");
                }
                "/tmp".to_string()
            },
        };
        let a = crate::paths::join_path(h.as_str(), ".pi");
        let b = crate::paths::join_path(a.as_str(), "agent");
        let user = crate::paths::join_path(b.as_str(), "settings.json");
        let p = crate::paths::join_path(cwd, ".pi");
        let project = crate::paths::join_path(p.as_str(), "settings.json");
        SettingsManager::with_paths(user, project)
    }

    /// The user settings file's path.
    pub fn user_settings_path(&self) -> (r: &str)
        ensures
            r@ == self.user_path(),
    {
        self.user_settings_path.as_str()
    }

    /// The project settings file's path.
    pub fn project_settings_path(&self) -> (r: &str)
        ensures
            r@ == self.project_path(),
    {
        self.project_settings_path.as_str()
    }

    /// The effective settings from what the two files held: each is `None`
    /// when the file is missing or not valid settings, and counts as empty
    /// settings; the project's are laid over the user's.
    pub fn load(&self, user_file: Option<Settings>, project_file: Option<Settings>) -> (r: Settings)
        ensures
            r == merged(
                match user_file {
                    Some(u) => u,
                    None => empty_settings(),
                },
                match project_file {
                    Some(p) => p,
                    None => empty_settings(),
                },
            ),
    {
        let mut merged_settings = match user_file {
            Some(u) => u,
            None => Settings::default(),
        };
        let project = match project_file {
            Some(p) => p,
            None => Settings::default(),
        };
        deep_merge(&mut merged_settings, &project);
        merged_settings
    }
}

impl Default for Settings {
    fn default() -> (r: Self)
        ensures
            r == empty_settings(),
    {
        Settings {
            default_provider: None,
            default_model: None,
            thinking_level: None,
            compaction: None,
            shell: None,
            theme: None,
            max_turns: None,
        }
    }
}

impl Default for CompactionConfig {
    fn default() -> (r: Self)
        ensures
            r.enabled is None,
            r.reserve_tokens is None,
    {
        CompactionConfig { enabled: None, reserve_tokens: None }
    }
}

} // verus!
