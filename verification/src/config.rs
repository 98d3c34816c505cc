use crate::text::same_text;
use vstd::prelude::*;
use vstd::string::StringExecFns;

verus! {

/// The texts that a list of strings holds.
pub open spec fn texts(list: Seq<String>) -> Seq<Seq<char>> {
    Seq::new(list.len(), |i: int| list[i]@)
}

/// How the daemon and the snapshots are to behave.
#[derive(Debug, PartialEq, Eq)]
pub struct CoreConfig {
    pub auto_snapshot: bool,
    pub auto_snapshot_interval: u64,
    pub max_timeline_size: usize,
    pub daemon_enabled: bool,
}

/// Which variables are tracked: patterns of names to ignore, patterns of
/// names to track in any case, and the names that the shell itself keeps
/// changing.
#[derive(Debug, PartialEq, Eq)]
pub struct FiltersConfig {
    pub ignore_patterns: Vec<String>,
    pub force_track: Vec<String>,
    pub ignore_system: Vec<String>,
}

/// How output is shown.
#[derive(Debug, PartialEq, Eq)]
pub struct DisplayConfig {
    pub diff_context: usize,
    pub color: bool,
    pub timezone: String,
}

/// The configuration.
#[derive(Debug, PartialEq, Eq)]
pub struct Config {
    pub core: CoreConfig,
    pub filters: FiltersConfig,
    pub display: DisplayConfig,
}

/// What the filters say: which names are ignored, which are tracked in any
/// case, and which are the shell's own.
pub struct FiltersView {
    pub ignore_patterns: Seq<Seq<char>>,
    pub force_track: Seq<Seq<char>>,
    pub ignore_system: Seq<Seq<char>>,
}

/// What the display settings say.
pub struct DisplayView {
    pub diff_context: usize,
    pub color: bool,
    pub timezone: Seq<char>,
}

/// What the configuration says.
pub struct ConfigView {
    pub core: CoreConfig,
    pub filters: FiltersView,
    pub display: DisplayView,
}

impl View for FiltersConfig {
    type V = FiltersView;

    open spec fn view(&self) -> FiltersView {
        FiltersView {
            ignore_patterns: texts(self.ignore_patterns@),
            force_track: texts(self.force_track@),
            ignore_system: texts(self.ignore_system@),
        }
    }
}

impl View for DisplayConfig {
    type V = DisplayView;

    open spec fn view(&self) -> DisplayView {
        DisplayView { diff_context: self.diff_context, color: self.color, timezone: self.timezone@ }
    }
}

impl View for Config {
    type V = ConfigView;

    open spec fn view(&self) -> ConfigView {
        ConfigView { core: self.core, filters: self.filters@, display: self.display@ }
    }
}

/// A copy of a list of strings.
pub fn clone_texts(list: &Vec<String>) -> (copy: Vec<String>)
    ensures
        texts(copy@) == texts(list@),
{
    let mut copy: Vec<String> = Vec::new();
    let mut i: usize = 0;
    while i < list.len()
        invariant
            i <= list@.len(),
            copy@.len() == i,
            forall|j: int| 0 <= j < i ==> copy@[j]@ == list@[j]@,
        decreases list@.len() - i,
    {
        copy.push(list[i].clone());
        i = i + 1;
    }
    copy
}

impl Clone for CoreConfig {
    fn clone(&self) -> (copy: CoreConfig)
        ensures
            copy == *self,
    {
        CoreConfig {
            auto_snapshot: self.auto_snapshot,
            auto_snapshot_interval: self.auto_snapshot_interval,
            max_timeline_size: self.max_timeline_size,
            daemon_enabled: self.daemon_enabled,
        }
    }
}

impl Clone for FiltersConfig {
    fn clone(&self) -> (copy: FiltersConfig)
        ensures
            copy@ == self@,
    {
        FiltersConfig {
            ignore_patterns: clone_texts(&self.ignore_patterns),
            force_track: clone_texts(&self.force_track),
            ignore_system: clone_texts(&self.ignore_system),
        }
    }
}

impl Clone for DisplayConfig {
    fn clone(&self) -> (copy: DisplayConfig)
        ensures
            copy@ == self@,
    {
        DisplayConfig { diff_context: self.diff_context, color: self.color, timezone: self.timezone.clone() }
    }
}

impl Clone for Config {
    fn clone(&self) -> (copy: Config)
        ensures
            copy@ == self@,
    {
        Config { core: self.core.clone(), filters: self.filters.clone(), display: self.display.clone() }
    }
}

/// The patterns of names that are left untracked unless the configuration says otherwise.
pub open spec fn default_ignore_patterns_spec() -> Seq<Seq<char>> {
    seq![".*PASSWORD.*"@, ".*SECRET.*"@, ".*TOKEN.*"@, "AWS_.*"@, "SSH_.*"@]
}

/// The names that the shell itself keeps changing, left untracked unless the
/// configuration says otherwise.
pub open spec fn default_ignore_system_spec() -> Seq<Seq<char>> {
    seq![
        "PATH"@,
        "HOME"@,
        "USER"@,
        "SHELL"@,
        "PWD"@,
        "OLDPWD"@,
        "TERM"@,
        "SHLVL"@,
        "_"@,
        "LS_COLORS"@,
    ]
}

/// The setting of a switch that was not configured: on.
pub fn default_true() -> (b: bool)
    ensures
        b,
{
    true
}

/// The seconds between automatic snapshots, where none were configured.
pub fn default_3600() -> (n: u64)
    ensures
        n == 3600,
{
    3600
}

/// The most entries that a timeline is to hold, where no number was configured.
pub fn default_10000() -> (n: usize)
    ensures
        n == 10000,
{
    10000
}

/// The lines of context in a diff, where no number was configured.
pub fn default_3() -> (n: usize)
    ensures
        n == 3,
{
    3
}

/// The time zone, where none was configured.
pub fn default_local() -> (zone: String)
    ensures
        zone@ == "local"@,
{
    String::from_str("local")
}

/// The patterns of names that are left untracked, where none were configured.
pub fn default_ignore_patterns() -> (patterns: Vec<String>)
    ensures
        texts(patterns@) == default_ignore_patterns_spec(),
{
    let mut patterns: Vec<String> = Vec::new();
    patterns.push(String::from_str(".*PASSWORD.*"));
    patterns.push(String::from_str(".*SECRET.*"));
    patterns.push(String::from_str(".*TOKEN.*"));
    patterns.push(String::from_str("AWS_.*"));
    patterns.push(String::from_str("SSH_.*"));
    patterns
}

/// The names of the shell's own variables, where none were configured.
pub fn default_ignore_system() -> (names: Vec<String>)
    ensures
        texts(names@) == default_ignore_system_spec(),
{
    let mut names: Vec<String> = Vec::new();
    names.push(String::from_str("PATH"));
    names.push(String::from_str("HOME"));
    names.push(String::from_str("USER"));
    names.push(String::from_str("SHELL"));
    names.push(String::from_str("PWD"));
    names.push(String::from_str("OLDPWD"));
    names.push(String::from_str("TERM"));
    names.push(String::from_str("SHLVL"));
    names.push(String::from_str("_"));
    names.push(String::from_str("LS_COLORS"));
    names
}

impl Default for CoreConfig {
    fn default() -> (core: CoreConfig)
        ensures
            core == (CoreConfig {
                auto_snapshot: true,
                auto_snapshot_interval: 3600,
                max_timeline_size: 10000,
                daemon_enabled: true,
            }),
    {
        CoreConfig {
            auto_snapshot: default_true(),
            auto_snapshot_interval: default_3600(),
            max_timeline_size: default_10000(),
            daemon_enabled: default_true(),
        }
    }
}

impl Default for FiltersConfig {
    fn default() -> (filters: FiltersConfig)
        ensures
            filters@ == FiltersView::default_filters(),
    {
        let filters = FiltersConfig {
            ignore_patterns: default_ignore_patterns(),
            force_track: Vec::new(),
            ignore_system: default_ignore_system(),
        };
        assert(filters@.force_track =~= Seq::<Seq<char>>::empty());
        filters
    }
}

impl Default for DisplayConfig {
    fn default() -> (display: DisplayConfig)
        ensures
            display@ == (DisplayView { diff_context: 3, color: true, timezone: "local"@ }),
    {
        DisplayConfig { diff_context: default_3(), color: default_true(), timezone: default_local() }
    }
}

impl Default for Config {
    fn default() -> (config: Config)
        ensures
            config@ == ConfigView::default_config(),
    {
        Config {
            core: CoreConfig::default(),
            filters: FiltersConfig::default(),
            display: DisplayConfig::default(),
        }
    }
}

/// Whether `text` holds a match of the regular expression `pattern`, as the
/// `regex` crate decides it. A pattern that does not compile matches nothing.
pub uninterp spec fn regex_matches(pattern: Seq<char>, text: Seq<char>) -> bool;

/// `regex::Regex::new` on `pattern`, then `regex::Regex::is_match` on `text`:
/// whether the pattern compiles and matches somewhere in the text. The
/// result is named, not described.
#[verifier::external_body]
fn pattern_matches(pattern: &str, text: &str) -> (found: bool)
    ensures
        found == regex_matches(pattern@, text@),
{
    match regex::Regex::new(pattern) {
        Ok(re) => re.is_match(text),
        Err(_) => false,
    }
}

/// Whether one of `patterns` matches `key`.
pub open spec fn any_matches(patterns: Seq<Seq<char>>, key: Seq<char>) -> bool {
    exists|i: int| 0 <= i < patterns.len() && regex_matches(#[trigger] patterns[i], key)
}

/// The tracking rule: a name that is forced is tracked; of the others, one is
/// tracked unless it is a system name or an ignored pattern matches it.
pub open spec fn track_rule(forced: bool, system: bool, ignored: bool) -> bool {
    forced || (!system && !ignored)
}

/// The tracking rule on what the three lists say of a name.
pub fn track_verdict(forced: bool, system: bool, ignored: bool) -> (track: bool)
    ensures
        track == track_rule(forced, system, ignored),
{
    forced || (!system && !ignored)
}

/// Whether one of `patterns` matches `key`.
fn matches_any(patterns: &Vec<String>, key: &str) -> (found: bool)
    ensures
        found == any_matches(texts(patterns@), key@),
{
    let mut i: usize = 0;
    while i < patterns.len()
        invariant
            i <= patterns@.len(),
            forall|j: int| 0 <= j < i ==> !regex_matches(#[trigger] texts(patterns@)[j], key@),
        decreases patterns@.len() - i,
    {
        if pattern_matches(patterns[i].as_str(), key) {
            assert(regex_matches(texts(patterns@)[i as int], key@));
            return true;
        }
        i = i + 1;
    }
    false
}

/// Whether `key` is one of `names`.
fn holds_name(names: &Vec<String>, key: &str) -> (found: bool)
    ensures
        found == texts(names@).contains(key@),
{
    let mut i: usize = 0;
    while i < names.len()
        invariant
            i <= names@.len(),
            forall|j: int| 0 <= j < i ==> texts(names@)[j] != key@,
        decreases names@.len() - i,
    {
        if same_text(names[i].as_str(), key) {
            assert(texts(names@)[i as int] == key@);
            return true;
        }
        i = i + 1;
    }
    false
}

impl FiltersView {
    /// Whether these filters let the variable `key` be tracked.
    pub open spec fn tracks(self, key: Seq<char>) -> bool {
        track_rule(
            any_matches(self.force_track, key),
            self.ignore_system.contains(key),
            any_matches(self.ignore_patterns, key),
        )
    }

    /// The filters that hold where nothing was configured.
    pub open spec fn default_filters() -> FiltersView {
        FiltersView {
            ignore_patterns: default_ignore_patterns_spec(),
            force_track: Seq::empty(),
            ignore_system: default_ignore_system_spec(),
        }
    }
}

impl ConfigView {
    /// The configuration that holds where nothing was configured.
    pub open spec fn default_config() -> ConfigView {
        ConfigView {
            core: CoreConfig {
                auto_snapshot: true,
                auto_snapshot_interval: 3600,
                max_timeline_size: 10000,
                daemon_enabled: true,
            },
            filters: FiltersView::default_filters(),
            display: DisplayView { diff_context: 3, color: true, timezone: "local"@ },
        }
    }
}

impl Config {
    /// Where the sessions are kept, from the base directory.
    pub fn sessions_dir() -> (path: String)
        ensures
            path@ == "sessions"@,
    {
        String::from_str("sessions")
    }

    /// Where the snapshots of global scope are kept, from the base directory.
    pub fn global_snapshots_dir() -> (path: String)
        ensures
            path@ == "global"@ + "/"@ + "snapshots"@,
    {
        let mut path = String::from_str("global");
        path.append("/");
        path.append("snapshots");
        path
    }

    /// Where the daemon listens, from the base directory.
    pub fn daemon_socket_path() -> (path: String)
        ensures
            path@ == "daemon.sock"@,
    {
        String::from_str("daemon.sock")
    }

    /// Where the configuration is kept, from the base directory.
    pub fn config_path() -> (path: String)
        ensures
            path@ == "config.toml"@,
    {
        String::from_str("config.toml")
    }

    /// Whether the variable `key` is to be tracked.
    pub fn should_track(&self, key: &str) -> (track: bool)
        ensures
            track == self@.filters.tracks(key@),
    {
        if matches_any(&self.filters.force_track, key) {
            return true;
        }
        if holds_name(&self.filters.ignore_system, key) {
            return false;
        }
        let ignored = matches_any(&self.filters.ignore_patterns, key);
        track_verdict(false, false, ignored)
    }
}

} // verus!
