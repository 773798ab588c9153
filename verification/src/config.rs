//! The configuration: what it holds, when it is valid, where it lies.
use vstd::prelude::*;

use crate::paths;
use crate::ssh_config::{HostView, SshHost};
use crate::target::{
    ClipboardFormat, Group, GroupView, SyncMode, Target, TargetView, WatchConfig, WatchView,
};
use crate::text;

verus! {

#[derive(Debug, Clone)]
pub struct Config {
    pub default_target: Option<String>,
    pub default_mode: SyncMode,
    pub clipboard_format: ClipboardFormat,
    pub clipboard_template: String,
    pub theme: String,
    pub targets: Vec<Target>,
    pub groups: Vec<Group>,
    pub watches: Vec<WatchConfig>,
    pub source: ConfigSource,
    /// Shown to the user once, on the first launch after an upgrade; never
    /// written to the file.
    pub migration_notice: Option<String>,
}

/// Where a configuration was read from.
#[derive(Debug, Clone, PartialEq, Eq)]
pub enum ConfigSource {
    Default,
    Project(String),
    Global(String),
}

pub ghost enum SourceView {
    Default,
    Project(Seq<char>),
    Global(Seq<char>),
}

impl View for ConfigSource {
    type V = SourceView;

    open spec fn view(&self) -> SourceView {
        match self {
            ConfigSource::Default => SourceView::Default,
            ConfigSource::Project(p) => SourceView::Project(p@),
            ConfigSource::Global(p) => SourceView::Global(p@),
        }
    }
}

pub ghost struct ConfigView {
    pub default_target: Option<Seq<char>>,
    pub default_mode: SyncMode,
    pub clipboard_format: ClipboardFormat,
    pub clipboard_template: Seq<char>,
    pub theme: Seq<char>,
    pub targets: Seq<TargetView>,
    pub groups: Seq<GroupView>,
    pub watches: Seq<WatchView>,
    pub source: SourceView,
    pub migration_notice: Option<Seq<char>>,
}

impl View for Config {
    type V = ConfigView;

    open spec fn view(&self) -> ConfigView {
        ConfigView {
            default_target: text::opt(self.default_target),
            default_mode: self.default_mode,
            clipboard_format: self.clipboard_format,
            clipboard_template: self.clipboard_template@,
            theme: self.theme@,
            targets: text::views(self.targets@),
            groups: text::views(self.groups@),
            watches: text::views(self.watches@),
            source: self.source@,
            migration_notice: text::opt(self.migration_notice),
        }
    }
}

/// What a fresh installation starts with.
pub open spec fn built_in() -> ConfigView {
    ConfigView {
        default_target: None,
        default_mode: SyncMode::Auto,
        clipboard_format: ClipboardFormat::RemotePath,
        clipboard_template: "{user}@{host}:{path}"@,
        theme: "mocha"@,
        targets: seq![],
        groups: seq![],
        watches: seq![],
        source: SourceView::Default,
        migration_notice: None,
    }
}

impl Default for ConfigSource {
    fn default() -> (r: Self)
        ensures
            r == ConfigSource::Default,
    {
        ConfigSource::Default
    }
}

/// The template of a configuration that names none.
pub fn default_clipboard_template() -> (r: String)
    ensures
        r@ == "{user}@{host}:{path}"@,
{
    "{user}@{host}:{path}".to_owned()
}

impl Default for Config {
    fn default() -> (r: Self)
        ensures
            r@ == built_in(),
            problem(r@) is None,
    {
        let r = Config {
            default_target: None,
            default_mode: SyncMode::Auto,
            clipboard_format: ClipboardFormat::RemotePath,
            clipboard_template: default_clipboard_template(),
            theme: "mocha".to_owned(),
            targets: Vec::new(),
            groups: Vec::new(),
            watches: Vec::new(),
            source: ConfigSource::Default,
            migration_notice: None,
        };
        assert(r@.targets =~= seq![]);
        assert(r@.groups =~= seq![]);
        assert(r@.watches =~= seq![]);
        r
    }
}

// ---------------------------------------------------------------------------
// Lookup
// ---------------------------------------------------------------------------
/// Where the first target of that name stands; past the end where there is none.
pub open spec fn target_index(ts: Seq<TargetView>, name: Seq<char>) -> int
    decreases ts.len(),
{
    if ts.len() == 0 || ts[0].name == name {
        0
    } else {
        1 + target_index(ts.drop_first(), name)
    }
}

/// The first target of that name.
pub open spec fn find_target(ts: Seq<TargetView>, name: Seq<char>) -> Option<TargetView> {
    let i = target_index(ts, name);
    if i < ts.len() {
        Some(ts[i])
    } else {
        None
    }
}

pub open spec fn group_index(gs: Seq<GroupView>, name: Seq<char>) -> int
    decreases gs.len(),
{
    if gs.len() == 0 || gs[0].name == name {
        0
    } else {
        1 + group_index(gs.drop_first(), name)
    }
}

/// The first group of that name.
pub open spec fn find_group(gs: Seq<GroupView>, name: Seq<char>) -> Option<GroupView> {
    let i = group_index(gs, name);
    if i < gs.len() {
        Some(gs[i])
    } else {
        None
    }
}

pub proof fn lemma_target_index(ts: Seq<TargetView>, name: Seq<char>)
    ensures
        0 <= target_index(ts, name) <= ts.len(),
        target_index(ts, name) < ts.len() ==> ts[target_index(ts, name)].name == name,
        forall|i: int| 0 <= i < target_index(ts, name) ==> (#[trigger] ts[i]).name != name,
    decreases ts.len(),
{
    if ts.len() > 0 && ts[0].name != name {
        lemma_target_index(ts.drop_first(), name);
        assert forall|i: int| 0 <= i < target_index(ts, name) implies (#[trigger] ts[i]).name
            != name by {
            if i > 0 {
                assert(ts.drop_first()[i - 1] == ts[i]);
            }
        }
    }
}

pub proof fn lemma_group_index(gs: Seq<GroupView>, name: Seq<char>)
    ensures
        0 <= group_index(gs, name) <= gs.len(),
        group_index(gs, name) < gs.len() ==> gs[group_index(gs, name)].name == name,
        forall|i: int| 0 <= i < group_index(gs, name) ==> (#[trigger] gs[i]).name != name,
    decreases gs.len(),
{
    if gs.len() > 0 && gs[0].name != name {
        lemma_group_index(gs.drop_first(), name);
        assert forall|i: int| 0 <= i < group_index(gs, name) implies (#[trigger] gs[i]).name
            != name by {
            if i > 0 {
                assert(gs.drop_first()[i - 1] == gs[i]);
            }
        }
    }
}

impl ConfigView {
    /// The named default where there is a target of that name, else the first
    /// target.
    pub open spec fn chosen_target(self) -> Option<TargetView> {
        let first = if self.targets.len() > 0 {
            Some(self.targets[0])
        } else {
            None
        };
        match self.default_target {
            Some(n) => match find_target(self.targets, n) {
                Some(t) => Some(t),
                None => first,
            },
            None => first,
        }
    }
}

impl Config {
    pub fn target_by_name(&self, name: &str) -> (r: Option<&Target>)
        ensures
            match r {
                Some(t) => find_target(self@.targets, name@) == Some(t@),
                None => find_target(self@.targets, name@) is None,
            },
    {
        let mut i: usize = 0;
        let ghost ts = self@.targets;
        proof {
            lemma_target_index(ts, name@);
        }
        while i < self.targets.len()
            invariant
                ts == text::views(self.targets@),
                i <= target_index(ts, name@) <= ts.len(),
                target_index(ts, name@) < ts.len() ==> ts[target_index(ts, name@)].name == name@,
                forall|k: int| 0 <= k < target_index(ts, name@) ==> (#[trigger] ts[k]).name != name@,
            decreases self.targets@.len() - i,
        {
            assert(ts[i as int].name == self.targets@[i as int].name@);
            if text::same(self.targets[i].name.as_str(), name) {
                return Some(&self.targets[i]);
            }
            i = i + 1;
        }
        None
    }

    pub fn group_by_name(&self, name: &str) -> (r: Option<&Group>)
        ensures
            match r {
                Some(g) => find_group(self@.groups, name@) == Some(g@),
                None => find_group(self@.groups, name@) is None,
            },
    {
        let mut i: usize = 0;
        let ghost gs = self@.groups;
        proof {
            lemma_group_index(gs, name@);
        }
        while i < self.groups.len()
            invariant
                gs == text::views(self.groups@),
                i <= group_index(gs, name@) <= gs.len(),
                group_index(gs, name@) < gs.len() ==> gs[group_index(gs, name@)].name == name@,
                forall|k: int| 0 <= k < group_index(gs, name@) ==> (#[trigger] gs[k]).name != name@,
            decreases self.groups@.len() - i,
        {
            assert(gs[i as int].name == self.groups@[i as int].name@);
            if text::same(self.groups[i].name.as_str(), name) {
                return Some(&self.groups[i]);
            }
            i = i + 1;
        }
        None
    }

    pub fn default_target(&self) -> (r: Option<&Target>)
        ensures
            match r {
                Some(t) => self@.chosen_target() == Some(t@),
                None => self@.chosen_target() is None,
            },
    {
        if let Some(n) = &self.default_target {
            if let Some(t) = self.target_by_name(n.as_str()) {
                return Some(t);
            }
        }
        if self.targets.len() > 0 {
            Some(&self.targets[0])
        } else {
            None
        }
    }
}

// ---------------------------------------------------------------------------
// Validity
// ---------------------------------------------------------------------------
/// What is wrong with a configuration.
#[derive(Debug, Clone, PartialEq, Eq)]
pub enum ConfigError {
    TargetNameEmpty,
    TargetMissingHost(String),
    TargetMissingRemoteDir(String),
    DuplicateTarget(String),
    GroupNameEmpty,
    GroupUnknownTarget { group: String, target: String },
    GroupPrimaryNotListed { group: String, primary: String },
    DefaultTargetNotFound(String),
    WatchNameEmpty,
    WatchMissingPath(String),
    WatchWithoutTarget(String),
    DuplicateWatch(String),
    WatchUnknownTarget { watch: String, target: String },
}

pub ghost enum Problem {
    TargetNameEmpty,
    TargetMissingHost(Seq<char>),
    TargetMissingRemoteDir(Seq<char>),
    DuplicateTarget(Seq<char>),
    GroupNameEmpty,
    GroupUnknownTarget { group: Seq<char>, target: Seq<char> },
    GroupPrimaryNotListed { group: Seq<char>, primary: Seq<char> },
    DefaultTargetNotFound(Seq<char>),
    WatchNameEmpty,
    WatchMissingPath(Seq<char>),
    WatchWithoutTarget(Seq<char>),
    DuplicateWatch(Seq<char>),
    WatchUnknownTarget { watch: Seq<char>, target: Seq<char> },
}

impl View for ConfigError {
    type V = Problem;

    open spec fn view(&self) -> Problem {
        match self {
            ConfigError::TargetNameEmpty => Problem::TargetNameEmpty,
            ConfigError::TargetMissingHost(n) => Problem::TargetMissingHost(n@),
            ConfigError::TargetMissingRemoteDir(n) => Problem::TargetMissingRemoteDir(n@),
            ConfigError::DuplicateTarget(n) => Problem::DuplicateTarget(n@),
            ConfigError::GroupNameEmpty => Problem::GroupNameEmpty,
            ConfigError::GroupUnknownTarget { group, target } => Problem::GroupUnknownTarget {
                group: group@,
                target: target@,
            },
            ConfigError::GroupPrimaryNotListed { group, primary } => Problem::GroupPrimaryNotListed {
                group: group@,
                primary: primary@,
            },
            ConfigError::DefaultTargetNotFound(n) => Problem::DefaultTargetNotFound(n@),
            ConfigError::WatchNameEmpty => Problem::WatchNameEmpty,
            ConfigError::WatchMissingPath(n) => Problem::WatchMissingPath(n@),
            ConfigError::WatchWithoutTarget(n) => Problem::WatchWithoutTarget(n@),
            ConfigError::DuplicateWatch(n) => Problem::DuplicateWatch(n@),
            ConfigError::WatchUnknownTarget { watch, target } => Problem::WatchUnknownTarget {
                watch: watch@,
                target: target@,
            },
        }
    }
}

/// The words for a problem.
pub open spec fn problem_text(p: Problem) -> Seq<char> {
    match p {
        Problem::TargetNameEmpty => "target name must not be empty"@,
        Problem::TargetMissingHost(n) => "target '"@ + n + "' missing host"@,
        Problem::TargetMissingRemoteDir(n) => "target '"@ + n + "' missing remote_dir"@,
        Problem::DuplicateTarget(n) => "duplicate target name: "@ + n,
        Problem::GroupNameEmpty => "group name must not be empty"@,
        Problem::GroupUnknownTarget { group, target } => "group '"@ + group
            + "' references unknown target '"@ + target + "'"@,
        Problem::GroupPrimaryNotListed { group, primary } => "group '"@ + group + "' primary '"@
            + primary + "' not in targets list"@,
        Problem::DefaultTargetNotFound(n) => "default_target '"@ + n + "' not found"@,
        Problem::WatchNameEmpty => "watch name must not be empty"@,
        Problem::WatchMissingPath(n) => "watch '"@ + n + "' missing path"@,
        Problem::WatchWithoutTarget(n) => "watch '"@ + n + "' must reference at least one target"@,
        Problem::DuplicateWatch(n) => "duplicate watch name: "@ + n,
        Problem::WatchUnknownTarget { watch, target } => "watch '"@ + watch
            + "' references unknown target '"@ + target + "'"@,
    }
}

fn about(before: &str, name: &str, after: &str) -> (r: String)
    ensures
        r@ == before@ + name@ + after@,
{
    let mut r = before.to_owned();
    r.append(name);
    r.append(after);
    r
}

impl ConfigError {
    pub fn message(&self) -> (r: String)
        ensures
            r@ == problem_text(self@),
    {
        match self {
            ConfigError::TargetNameEmpty => "target name must not be empty".to_owned(),
            ConfigError::TargetMissingHost(n) => about("target '", n.as_str(), "' missing host"),
            ConfigError::TargetMissingRemoteDir(n) => about(
                "target '",
                n.as_str(),
                "' missing remote_dir",
            ),
            ConfigError::DuplicateTarget(n) => {
                let mut r = "duplicate target name: ".to_owned();
                r.append(n.as_str());
                r
            },
            ConfigError::GroupNameEmpty => "group name must not be empty".to_owned(),
            ConfigError::GroupUnknownTarget { group, target } => {
                let mut r = about("group '", group.as_str(), "' references unknown target '");
                r.append(target.as_str());
                r.append("'");
                r
            },
            ConfigError::GroupPrimaryNotListed { group, primary } => {
                let mut r = about("group '", group.as_str(), "' primary '");
                r.append(primary.as_str());
                r.append("' not in targets list");
                r
            },
            ConfigError::DefaultTargetNotFound(n) => about(
                "default_target '",
                n.as_str(),
                "' not found",
            ),
            ConfigError::WatchNameEmpty => "watch name must not be empty".to_owned(),
            ConfigError::WatchMissingPath(n) => about("watch '", n.as_str(), "' missing path"),
            ConfigError::WatchWithoutTarget(n) => about(
                "watch '",
                n.as_str(),
                "' must reference at least one target",
            ),
            ConfigError::DuplicateWatch(n) => {
                let mut r = "duplicate watch name: ".to_owned();
                r.append(n.as_str());
                r
            },
            ConfigError::WatchUnknownTarget { watch, target } => {
                let mut r = about("watch '", watch.as_str(), "' references unknown target '");
                r.append(target.as_str());
                r.append("'");
                r
            },
        }
    }
}

/// The first of `n` checks that fails.
pub open spec fn first_problem(n: nat, check: spec_fn(nat) -> Option<Problem>) -> Option<Problem>
    decreases n,
{
    if n == 0 {
        None
    } else {
        match first_problem((n - 1) as nat, check) {
            Some(p) => Some(p),
            None => check((n - 1) as nat),
        }
    }
}

proof fn lemma_first_problem(i: nat, n: nat, check: spec_fn(nat) -> Option<Problem>)
    requires
        i < n,
        first_problem(i, check) is None,
        check(i) is Some,
    ensures
        first_problem(n, check) == check(i),
    decreases n,
{
    if i < n - 1 {
        lemma_first_problem(i, (n - 1) as nat, check);
    }
}

pub open spec fn names_target(ts: Seq<TargetView>, name: Seq<char>) -> bool {
    exists|i: int| 0 <= i < ts.len() && (#[trigger] ts[i]).name == name
}

pub open spec fn names_group(gs: Seq<GroupView>, name: Seq<char>) -> bool {
    exists|i: int| 0 <= i < gs.len() && (#[trigger] gs[i]).name == name
}

/// A target has a name, a host and a directory, and no earlier one has its name.
pub open spec fn target_check(ts: Seq<TargetView>) -> spec_fn(nat) -> Option<Problem> {
    |i: nat|
        {
            let t = ts[i as int];
            if t.name.len() == 0 {
                Some(Problem::TargetNameEmpty)
            } else if t.host.len() == 0 {
                Some(Problem::TargetMissingHost(t.name))
            } else if t.remote_dir.len() == 0 {
                Some(Problem::TargetMissingRemoteDir(t.name))
            } else if names_target(ts.take(i as int), t.name) {
                Some(Problem::DuplicateTarget(t.name))
            } else {
                None
            }
        }
}

/// A member of a group is a target.
pub open spec fn member_check(ts: Seq<TargetView>, g: GroupView) -> spec_fn(nat) -> Option<Problem> {
    |i: nat|
        {
            let n = g.targets[i as int];
            if names_target(ts, n) {
                None
            } else {
                Some(Problem::GroupUnknownTarget { group: g.name, target: n })
            }
        }
}

/// A group has a name, its members are targets, and its primary is a member.
pub open spec fn group_check(ts: Seq<TargetView>, gs: Seq<GroupView>) -> spec_fn(nat) -> Option<Problem> {
    |i: nat|
        {
            let g = gs[i as int];
            if g.name.len() == 0 {
                Some(Problem::GroupNameEmpty)
            } else {
                match first_problem(g.targets.len(), member_check(ts, g)) {
                    Some(p) => Some(p),
                    None => match g.primary {
                        Some(m) => if g.targets.contains(m) {
                            None
                        } else {
                            Some(Problem::GroupPrimaryNotListed { group: g.name, primary: m })
                        },
                        None => None,
                    },
                }
            }
        }
}

/// What a watch sends to is a target or a group.
pub open spec fn destination_check(
    ts: Seq<TargetView>,
    gs: Seq<GroupView>,
    w: WatchView,
) -> spec_fn(nat) -> Option<Problem> {
    |i: nat|
        {
            let n = w.targets[i as int];
            if names_target(ts, n) || names_group(gs, n) {
                None
            } else {
                Some(Problem::WatchUnknownTarget { watch: w.name, target: n })
            }
        }
}

pub open spec fn names_watch(ws: Seq<WatchView>, name: Seq<char>) -> bool {
    exists|i: int| 0 <= i < ws.len() && (#[trigger] ws[i]).name == name
}

/// A watch has a name that no earlier one has, a path, and a destination, and
/// all its destinations are targets or groups.
pub open spec fn watch_check(
    ts: Seq<TargetView>,
    gs: Seq<GroupView>,
    ws: Seq<WatchView>,
) -> spec_fn(nat) -> Option<Problem> {
    |i: nat|
        {
            let w = ws[i as int];
            if w.name.len() == 0 {
                Some(Problem::WatchNameEmpty)
            } else if w.path.len() == 0 {
                Some(Problem::WatchMissingPath(w.name))
            } else if w.targets.len() == 0 {
                Some(Problem::WatchWithoutTarget(w.name))
            } else if names_watch(ws.take(i as int), w.name) {
                Some(Problem::DuplicateWatch(w.name))
            } else {
                first_problem(w.targets.len(), destination_check(ts, gs, w))
            }
        }
}

/// The default target is a target or a group.
pub open spec fn default_problem(cfg: ConfigView) -> Option<Problem> {
    match cfg.default_target {
        Some(n) => if names_target(cfg.targets, n) || names_group(cfg.groups, n) {
            None
        } else {
            Some(Problem::DefaultTargetNotFound(n))
        },
        None => None,
    }
}

/// The first thing that is wrong with a configuration: targets are looked at
/// first, then groups, the default target and watches.
pub open spec fn problem(cfg: ConfigView) -> Option<Problem> {
    match first_problem(cfg.targets.len(), target_check(cfg.targets)) {
        Some(p) => Some(p),
        None => match first_problem(cfg.groups.len(), group_check(cfg.targets, cfg.groups)) {
            Some(p) => Some(p),
            None => match default_problem(cfg) {
                Some(p) => Some(p),
                None => first_problem(
                    cfg.watches.len(),
                    watch_check(cfg.targets, cfg.groups, cfg.watches),
                ),
            },
        },
    }
}

/// Whether one of the first `n` targets has the name.
fn target_named(ts: &Vec<Target>, n: usize, name: &str) -> (r: bool)
    requires
        n <= ts@.len(),
    ensures
        r == names_target(text::views(ts@).take(n as int), name@),
{
    let ghost first = text::views(ts@).take(n as int);
    let mut i: usize = 0;
    while i < n
        invariant
            i <= n <= ts@.len(),
            first == text::views(ts@).take(n as int),
            forall|k: int| 0 <= k < i ==> (#[trigger] first[k]).name != name@,
        decreases n - i,
    {
        assert(first[i as int].name == ts@[i as int].name@);
        if text::same(ts[i].name.as_str(), name) {
            return true;
        }
        i = i + 1;
    }
    false
}

fn any_target_named(ts: &Vec<Target>, name: &str) -> (r: bool)
    ensures
        r == names_target(text::views(ts@), name@),
{
    assert(text::views(ts@).take(ts@.len() as int) =~= text::views(ts@));
    target_named(ts, ts.len(), name)
}

fn group_named(gs: &Vec<Group>, name: &str) -> (r: bool)
    ensures
        r == names_group(text::views(gs@), name@),
{
    let ghost all = text::views(gs@);
    let mut i: usize = 0;
    while i < gs.len()
        invariant
            i <= gs@.len(),
            all == text::views(gs@),
            forall|k: int| 0 <= k < i ==> (#[trigger] all[k]).name != name@,
        decreases gs@.len() - i,
    {
        assert(all[i as int].name == gs@[i as int].name@);
        if text::same(gs[i].name.as_str(), name) {
            return true;
        }
        i = i + 1;
    }
    false
}

fn watch_named(ws: &Vec<WatchConfig>, n: usize, name: &str) -> (r: bool)
    requires
        n <= ws@.len(),
    ensures
        r == names_watch(text::views(ws@).take(n as int), name@),
{
    let ghost first = text::views(ws@).take(n as int);
    let mut i: usize = 0;
    while i < n
        invariant
            i <= n <= ws@.len(),
            first == text::views(ws@).take(n as int),
            forall|k: int| 0 <= k < i ==> (#[trigger] first[k]).name != name@,
        decreases n - i,
    {
        assert(first[i as int].name == ws@[i as int].name@);
        if text::same(ws[i].name.as_str(), name) {
            return true;
        }
        i = i + 1;
    }
    false
}

fn validate_targets(ts: &Vec<Target>) -> (r: Result<(), ConfigError>)
    ensures
        match r {
            Ok(_) => first_problem(ts@.len(), target_check(text::views(ts@))) is None,
            Err(e) => first_problem(ts@.len(), target_check(text::views(ts@))) == Some(e@),
        },
{
    let ghost check = target_check(text::views(ts@));
    let mut i: usize = 0;
    while i < ts.len()
        invariant
            i <= ts@.len(),
            check == target_check(text::views(ts@)),
            first_problem(i as nat, check) is None,
        decreases ts@.len() - i,
    {
        let t = &ts[i];
        assert(text::views(ts@)[i as int] == t@);
        let found = if t.name.as_str().is_empty() {
            Some(ConfigError::TargetNameEmpty)
        } else if t.host.as_str().is_empty() {
            Some(ConfigError::TargetMissingHost(t.name.clone()))
        } else if t.remote_dir.as_str().is_empty() {
            Some(ConfigError::TargetMissingRemoteDir(t.name.clone()))
        } else if target_named(ts, i, t.name.as_str()) {
            Some(ConfigError::DuplicateTarget(t.name.clone()))
        } else {
            None
        };
        if let Some(e) = found {
            proof {
                lemma_first_problem(i as nat, ts@.len(), check);
            }
            return Err(e);
        }
        i = i + 1;
    }
    Ok(())
}

fn validate_group(ts: &Vec<Target>, gs: &Vec<Group>, i: usize) -> (r: Result<(), ConfigError>)
    requires
        i < gs@.len(),
    ensures
        match r {
            Ok(_) => group_check(text::views(ts@), text::views(gs@))(i as nat) is None,
            Err(e) => group_check(text::views(ts@), text::views(gs@))(i as nat) == Some(e@),
        },
{
    let g = &gs[i];
    assert(text::views(gs@)[i as int] == g@);
    if g.name.as_str().is_empty() {
        return Err(ConfigError::GroupNameEmpty);
    }
    let ghost check = member_check(text::views(ts@), g@);
    let mut k: usize = 0;
    while k < g.targets.len()
        invariant
            k <= g.targets@.len(),
            i < gs@.len(),
            text::views(gs@)[i as int] == g@,
            g.name@.len() > 0,
            check == member_check(text::views(ts@), g@),
            first_problem(k as nat, check) is None,
        decreases g.targets@.len() - k,
    {
        let tn = g.targets[k].as_str();
        if !any_target_named(ts, tn) {
            proof {
                lemma_first_problem(k as nat, g.targets@.len(), check);
            }
            return Err(
                ConfigError::GroupUnknownTarget { group: g.name.clone(), target: tn.to_owned() },
            );
        }
        k = k + 1;
    }
    if let Some(primary) = &g.primary {
        if !text::list_has(&g.targets, primary.as_str()) {
            return Err(
                ConfigError::GroupPrimaryNotListed {
                    group: g.name.clone(),
                    primary: primary.clone(),
                },
            );
        }
    }
    Ok(())
}

fn validate_watch(cfg: &Config, i: usize) -> (r: Result<(), ConfigError>)
    requires
        i < cfg.watches@.len(),
    ensures
        match r {
            Ok(_) => watch_check(cfg@.targets, cfg@.groups, cfg@.watches)(i as nat) is None,
            Err(e) => watch_check(cfg@.targets, cfg@.groups, cfg@.watches)(i as nat) == Some(e@),
        },
{
    let w = &cfg.watches[i];
    assert(cfg@.watches[i as int] == w@);
    if w.name.as_str().is_empty() {
        return Err(ConfigError::WatchNameEmpty);
    }
    if w.path.as_str().is_empty() {
        return Err(ConfigError::WatchMissingPath(w.name.clone()));
    }
    if w.targets.len() == 0 {
        return Err(ConfigError::WatchWithoutTarget(w.name.clone()));
    }
    if watch_named(&cfg.watches, i, w.name.as_str()) {
        return Err(ConfigError::DuplicateWatch(w.name.clone()));
    }
    let ghost check = destination_check(cfg@.targets, cfg@.groups, w@);
    let mut k: usize = 0;
    while k < w.targets.len()
        invariant
            k <= w.targets@.len(),
            i < cfg.watches@.len(),
            w@ == cfg@.watches[i as int],
            w.name@.len() > 0,
            w.path@.len() > 0,
            w.targets@.len() > 0,
            !names_watch(cfg@.watches.take(i as int), w.name@),
            check == destination_check(cfg@.targets, cfg@.groups, w@),
            first_problem(k as nat, check) is None,
        decreases w.targets@.len() - k,
    {
        let tn = w.targets[k].as_str();
        if !any_target_named(&cfg.targets, tn) && !group_named(&cfg.groups, tn) {
            proof {
                lemma_first_problem(k as nat, w.targets@.len(), check);
            }
            return Err(
                ConfigError::WatchUnknownTarget { watch: w.name.clone(), target: tn.to_owned() },
            );
        }
        k = k + 1;
    }
    Ok(())
}

/// Accepts a configuration in which nothing is wrong, else says what is wrong
/// first.
pub fn validate(cfg: &Config) -> (r: Result<(), ConfigError>)
    ensures
        match r {
            Ok(_) => problem(cfg@) is None,
            Err(e) => problem(cfg@) == Some(e@),
        },
{
    match validate_targets(&cfg.targets) {
        Ok(_) => {},
        Err(e) => return Err(e),
    }
    let ghost gcheck = group_check(cfg@.targets, cfg@.groups);
    let mut i: usize = 0;
    while i < cfg.groups.len()
        invariant
            i <= cfg.groups@.len(),
            gcheck == group_check(cfg@.targets, cfg@.groups),
            first_problem(cfg@.targets.len(), target_check(cfg@.targets)) is None,
            first_problem(i as nat, gcheck) is None,
        decreases cfg.groups@.len() - i,
    {
        match validate_group(&cfg.targets, &cfg.groups, i) {
            Ok(_) => {},
            Err(e) => {
                proof {
                    lemma_first_problem(i as nat, cfg@.groups.len(), gcheck);
                }
                return Err(e);
            },
        }
        i = i + 1;
    }
    if let Some(dt) = &cfg.default_target {
        if !any_target_named(&cfg.targets, dt.as_str()) && !group_named(
            &cfg.groups,
            dt.as_str(),
        ) {
            return Err(ConfigError::DefaultTargetNotFound(dt.clone()));
        }
    }
    let ghost wcheck = watch_check(cfg@.targets, cfg@.groups, cfg@.watches);
    let mut k: usize = 0;
    while k < cfg.watches.len()
        invariant
            k <= cfg.watches@.len(),
            wcheck == watch_check(cfg@.targets, cfg@.groups, cfg@.watches),
            first_problem(cfg@.targets.len(), target_check(cfg@.targets)) is None,
            first_problem(cfg@.groups.len(), group_check(cfg@.targets, cfg@.groups)) is None,
            default_problem(cfg@) is None,
            first_problem(k as nat, wcheck) is None,
        decreases cfg.watches@.len() - k,
    {
        match validate_watch(cfg, k) {
            Ok(_) => {},
            Err(e) => {
                proof {
                    lemma_first_problem(k as nat, cfg@.watches.len(), wcheck);
                }
                return Err(e);
            },
        }
        k = k + 1;
    }
    Ok(())
}

// ---------------------------------------------------------------------------
// Loading
// ---------------------------------------------------------------------------
/// A configuration as read from the file at `path`: it remembers where it comes
/// from, and is refused where something is wrong with it.
pub fn accept(cfg: Config, path: &str, is_project: bool) -> (r: Result<Config, ConfigError>)
    ensures
        match r {
            Ok(c) => problem(cfg@) is None && c@ == (ConfigView {
                source: if is_project {
                    SourceView::Project(path@)
                } else {
                    SourceView::Global(path@)
                },
                ..cfg@
            }),
            Err(e) => problem(cfg@) == Some(e@),
        },
{
    match validate(&cfg) {
        Ok(_) => {},
        Err(e) => return Err(e),
    }
    let mut c = cfg;
    c.source =
    if is_project {
        ConfigSource::Project(path.to_owned())
    } else {
        ConfigSource::Global(path.to_owned())
    };
    Ok(c)
}

/// `cfg` as the program starts with it: the first target is the default where
/// none is set, and the notice is kept for the user.
pub open spec fn started(cfg: ConfigView, notice: Option<Seq<char>>) -> ConfigView {
    ConfigView {
        default_target: match cfg.default_target {
            Some(n) => Some(n),
            None => if cfg.targets.len() > 0 {
                Some(cfg.targets[0].name)
            } else {
                None
            },
        },
        migration_notice: notice,
        ..cfg
    }
}

/// What was read from the file to go by: the project's where there is one, else
/// the global one, else the built-in configuration.
pub open spec fn chosen(
    project: Option<Result<Config, String>>,
    global: Option<Result<Config, String>>,
) -> Result<ConfigView, Seq<char>> {
    match (project, global) {
        (Some(Ok(c)), _) => Ok(c@),
        (Some(Err(e)), _) => Err(e@),
        (None, Some(Ok(c))) => Ok(c@),
        (None, Some(Err(e))) => Err(e@),
        (None, None) => Ok(built_in()),
    }
}

/// The configuration to start with, given what came of reading each file that
/// exists. A bad file is an error: one of the project never falls back to the
/// global one.
pub fn load(
    project: Option<Result<Config, String>>,
    global: Option<Result<Config, String>>,
    notice: Option<String>,
) -> (r: Result<Config, String>)
    ensures
        match r {
            Ok(c) => chosen(project, global) is Ok && c@ == started(
                chosen(project, global)->Ok_0,
                text::opt(notice),
            ),
            Err(e) => chosen(project, global) == Err::<ConfigView, Seq<char>>(e@),
        },
{
    let read = match project {
        Some(p) => p,
        None => match global {
            Some(g) => g,
            None => Ok(Config::default()),
        },
    };
    match read {
        Ok(cfg) => {
            let mut c = cfg;
            if c.default_target.is_none() && c.targets.len() > 0 {
                c.default_target = Some(c.targets[0].name.clone());
            }
            c.migration_notice = notice;
            Ok(c)
        },
        Err(e) => Err(e),
    }
}

pub open spec fn inbox_target(h: HostView) -> TargetView {
    TargetView {
        name: h.name,
        host: match h.hostname {
            Some(n) => n,
            None => h.name,
        },
        user: h.user,
        remote_dir: "~/lzsync-inbox"@,
        ssh_port: h.port,
        ssh_key: h.identity_file,
        clipboard_format: None,
    }
}

/// Build a Target from an SSH-config host, using a default remote inbox dir.
pub fn target_from_ssh_host(h: SshHost) -> (r: Target)
    ensures
        r@ == inbox_target(h@),
{
    let name = h.name.clone();
    Target {
        name,
        host: match h.hostname {
            Some(n) => n,
            None => h.name,
        },
        user: h.user,
        remote_dir: "~/lzsync-inbox".to_owned(),
        ssh_port: h.port,
        ssh_key: h.identity_file,
        clipboard_format: None,
    }
}

// ---------------------------------------------------------------------------
// Places
// ---------------------------------------------------------------------------
/// `tail` below a directory that may not be known.
pub open spec fn below(dir: Option<&str>, tail: Seq<char>) -> Option<Seq<char>> {
    match dir {
        Some(d) => Some(paths::joined(d@, tail)),
        None => None,
    }
}

pub fn place(dir: Option<&str>, tail: &str) -> (r: Option<String>)
    ensures
        text::opt(r) == below(dir, tail@),
{
    match dir {
        Some(d) => Some(paths::join(d, tail)),
        None => None,
    }
}

/// The project's file, seen from the working directory.
pub fn project_config_path(cwd: Option<&str>) -> (r: Option<String>)
    ensures
        text::opt(r) == below(cwd, ".lzsync/config.toml"@),
{
    place(cwd, ".lzsync/config.toml")
}

/// The global file, seen from the user's configuration directory.
pub fn global_config_path(config_dir: Option<&str>) -> (r: Option<String>)
    ensures
        text::opt(r) == below(config_dir, "lzsync/config.toml"@),
{
    place(config_dir, "lzsync/config.toml")
}

/// Where the tool kept its files under its former name.
pub fn legacy_global_dir(config_dir: Option<&str>) -> (r: Option<String>)
    ensures
        text::opt(r) == below(config_dir, "lzscp"@),
{
    place(config_dir, "lzscp")
}

pub fn current_global_dir(config_dir: Option<&str>) -> (r: Option<String>)
    ensures
        text::opt(r) == below(config_dir, "lzsync"@),
{
    place(config_dir, "lzsync")
}

/// The directory to copy, and where to, for a user who comes from the former
/// name: only where the old directory exists and the new one does not.
pub fn migrate_legacy_config(
    config_dir: Option<&str>,
    new_exists: bool,
    old_exists: bool,
) -> (r: Option<(String, String)>)
    ensures
        match r {
            Some((from, to)) => config_dir is Some && !new_exists && old_exists && Some(from@)
                == below(config_dir, "lzscp"@) && Some(to@) == below(config_dir, "lzsync"@),
            None => config_dir is None || new_exists || !old_exists,
        },
{
    if new_exists || !old_exists {
        return None;
    }
    match (legacy_global_dir(config_dir), current_global_dir(config_dir)) {
        (Some(from), Some(to)) => Some((from, to)),
        _ => None,
    }
}

/// What the user is told after the copy.
pub fn migration_message(old_dir: &str) -> (r: String)
    ensures
        r@ == "migrated config from "@ + old_dir@ + " (backup kept)"@,
{
    about("migrated config from ", old_dir, " (backup kept)")
}

// ---------------------------------------------------------------------------
// Laws
// ---------------------------------------------------------------------------
proof fn lemma_no_problem(i: nat, n: nat, check: spec_fn(nat) -> Option<Problem>)
    requires
        i < n,
        first_problem(n, check) is None,
    ensures
        check(i) is None,
    decreases n,
{
    if i < n - 1 {
        lemma_no_problem(i, (n - 1) as nat, check);
    }
}

/// In a valid configuration every target has a name, a host and a directory.
pub proof fn law_valid_targets(cfg: ConfigView, i: int)
    requires
        problem(cfg) is None,
        0 <= i < cfg.targets.len(),
    ensures
        cfg.targets[i].name.len() > 0,
        cfg.targets[i].host.len() > 0,
        cfg.targets[i].remote_dir.len() > 0,
{
    lemma_no_problem(i as nat, cfg.targets.len(), target_check(cfg.targets));
}

/// In a valid configuration no two targets have the same name.
pub proof fn law_target_names_differ(cfg: ConfigView, i: int, j: int)
    requires
        problem(cfg) is None,
        0 <= i < j < cfg.targets.len(),
    ensures
        cfg.targets[i].name != cfg.targets[j].name,
{
    lemma_no_problem(j as nat, cfg.targets.len(), target_check(cfg.targets));
    assert(cfg.targets.take(j)[i] == cfg.targets[i]);
}

/// In a valid configuration every target can be found by its name.
pub proof fn law_targets_found_by_name(cfg: ConfigView, i: int)
    requires
        problem(cfg) is None,
        0 <= i < cfg.targets.len(),
    ensures
        find_target(cfg.targets, cfg.targets[i].name) == Some(cfg.targets[i]),
{
    let name = cfg.targets[i].name;
    lemma_target_index(cfg.targets, name);
    let k = target_index(cfg.targets, name);
    if k < i {
        law_target_names_differ(cfg, k, i);
    }
}

/// In a valid configuration every member of a group is a target, and a group's
/// primary is a member.
pub proof fn law_valid_groups(cfg: ConfigView, i: int, k: int)
    requires
        problem(cfg) is None,
        0 <= i < cfg.groups.len(),
        0 <= k < cfg.groups[i].targets.len(),
    ensures
        names_target(cfg.targets, cfg.groups[i].targets[k]),
        cfg.groups[i].primary is Some ==> cfg.groups[i].targets.contains(
            cfg.groups[i].primary->0,
        ),
{
    lemma_no_problem(i as nat, cfg.groups.len(), group_check(cfg.targets, cfg.groups));
    let g = cfg.groups[i];
    lemma_no_problem(k as nat, g.targets.len(), member_check(cfg.targets, g));
}

/// In a valid configuration the default target is a target or a group.
pub proof fn law_valid_default(cfg: ConfigView)
    requires
        problem(cfg) is None,
        cfg.default_target is Some,
    ensures
        names_target(cfg.targets, cfg.default_target->0) || names_group(
            cfg.groups,
            cfg.default_target->0,
        ),
{
}

/// In a valid configuration whatever a watch sends to is a target or a group.
pub proof fn law_valid_destinations(cfg: ConfigView, i: int, k: int)
    requires
        problem(cfg) is None,
        0 <= i < cfg.watches.len(),
        0 <= k < cfg.watches[i].targets.len(),
    ensures
        names_target(cfg.targets, cfg.watches[i].targets[k]) || names_group(
            cfg.groups,
            cfg.watches[i].targets[k],
        ),
{
    lemma_no_problem(
        i as nat,
        cfg.watches.len(),
        watch_check(cfg.targets, cfg.groups, cfg.watches),
    );
    let w = cfg.watches[i];
    lemma_no_problem(
        k as nat,
        w.targets.len(),
        destination_check(cfg.targets, cfg.groups, w),
    );
}

/// In a valid configuration every watch has a name that no other watch has, a folder, and
/// something to send to.
pub proof fn law_valid_watches(cfg: ConfigView, i: int, j: int)
    requires
        problem(cfg) is None,
        0 <= i < cfg.watches.len(),
    ensures
        cfg.watches[i].name.len() > 0,
        cfg.watches[i].path.len() > 0,
        cfg.watches[i].targets.len() > 0,
        0 <= j < i ==> cfg.watches[i].name != cfg.watches[j].name,
{
    lemma_no_problem(
        i as nat,
        cfg.watches.len(),
        watch_check(cfg.targets, cfg.groups, cfg.watches),
    );
    if 0 <= j < i {
        assert(cfg.watches.take(i)[j] == cfg.watches[j]);
    }
}

/// A name that stands for a target or a group.
pub open spec fn known(cfg: ConfigView, name: Seq<char>) -> bool {
    names_target(cfg.targets, name) || names_group(cfg.groups, name)
}

/// Nothing is missing and nothing is named twice, and every name that is referred to is
/// that of a target or, but within groups, of a group.
pub open spec fn complete(cfg: ConfigView) -> bool {
    &&& forall|i: int|
        0 <= i < cfg.targets.len() ==> (#[trigger] cfg.targets[i]).name.len() > 0
            && cfg.targets[i].host.len() > 0 && cfg.targets[i].remote_dir.len() > 0
    &&& forall|i: int, j: int|
        0 <= i < j < cfg.targets.len() ==> (#[trigger] cfg.targets[i]).name != (
        #[trigger] cfg.targets[j]).name
    &&& forall|i: int|
        0 <= i < cfg.groups.len() ==> (#[trigger] cfg.groups[i]).name.len() > 0 && (
        cfg.groups[i].primary is Some ==> cfg.groups[i].targets.contains(
            cfg.groups[i].primary->Some_0,
        ))
    &&& forall|i: int, k: int|
        0 <= i < cfg.groups.len() && 0 <= k < cfg.groups[i].targets.len() ==> names_target(
            cfg.targets,
            #[trigger] cfg.groups[i].targets[k],
        )
    &&& cfg.default_target is Some ==> known(cfg, cfg.default_target->Some_0)
    &&& forall|i: int|
        0 <= i < cfg.watches.len() ==> (#[trigger] cfg.watches[i]).name.len() > 0
            && cfg.watches[i].path.len() > 0 && cfg.watches[i].targets.len() > 0
    &&& forall|i: int, j: int|
        0 <= i < j < cfg.watches.len() ==> (#[trigger] cfg.watches[i]).name != (
        #[trigger] cfg.watches[j]).name
    &&& forall|i: int, k: int|
        0 <= i < cfg.watches.len() && 0 <= k < cfg.watches[i].targets.len() ==> known(
            cfg,
            #[trigger] cfg.watches[i].targets[k],
        )
}

proof fn lemma_all_pass(n: nat, check: spec_fn(nat) -> Option<Problem>)
    requires
        forall|i: nat| i < n ==> (#[trigger] check(i)) is None,
    ensures
        first_problem(n, check) is None,
    decreases n,
{
    if n > 0 {
        lemma_all_pass((n - 1) as nat, check);
        assert(check((n - 1) as nat) is None);
    }
}

/// A configuration in which nothing is missing and every name is known is accepted.
pub proof fn law_complete_configurations_are_accepted(cfg: ConfigView)
    requires
        complete(cfg),
    ensures
        problem(cfg) is None,
{
    let ts = cfg.targets;
    let gs = cfg.groups;
    let ws = cfg.watches;
    let tc = target_check(ts);
    assert forall|i: nat| i < ts.len() implies (#[trigger] tc(i)) is None by {
        let t = ts[i as int];
        if names_target(ts.take(i as int), t.name) {
            let j = choose|j: int|
                0 <= j < ts.take(i as int).len() && (#[trigger] ts.take(i as int)[j]).name
                    == t.name;
            assert(ts[j].name == t.name);
        }
    }
    lemma_all_pass(ts.len(), tc);
    let gc = group_check(ts, gs);
    assert forall|i: nat| i < gs.len() implies (#[trigger] gc(i)) is None by {
        let g = gs[i as int];
        let mc = member_check(ts, g);
        assert forall|k: nat| k < g.targets.len() implies (#[trigger] mc(k)) is None by {
            assert(names_target(ts, gs[i as int].targets[k as int]));
        }
        lemma_all_pass(g.targets.len(), mc);
    }
    lemma_all_pass(gs.len(), gc);
    let wc = watch_check(ts, gs, ws);
    assert forall|i: nat| i < ws.len() implies (#[trigger] wc(i)) is None by {
        let w = ws[i as int];
        if names_watch(ws.take(i as int), w.name) {
            let j = choose|j: int|
                0 <= j < ws.take(i as int).len() && (#[trigger] ws.take(i as int)[j]).name
                    == w.name;
            assert(ws[j].name == w.name);
        }
        let dc = destination_check(ts, gs, w);
        assert forall|k: nat| k < w.targets.len() implies (#[trigger] dc(k)) is None by {
            assert(known(cfg, ws[i as int].targets[k as int]));
        }
        lemma_all_pass(w.targets.len(), dc);
    }
    lemma_all_pass(ws.len(), wc);
}

/// The words for a problem name what it is about.
pub proof fn law_problems_are_named(n: Seq<char>, m: Seq<char>)
    ensures
        text::contains(problem_text(Problem::TargetMissingHost(n)), n),
        text::contains(problem_text(Problem::TargetMissingRemoteDir(n)), n),
        text::contains(problem_text(Problem::DuplicateTarget(n)), n),
        text::contains(problem_text(Problem::GroupUnknownTarget { group: m, target: n }), n),
        text::contains(problem_text(Problem::GroupUnknownTarget { group: m, target: n }), m),
        text::contains(problem_text(Problem::GroupPrimaryNotListed { group: m, primary: n }), n),
        text::contains(problem_text(Problem::DefaultTargetNotFound(n)), n),
        text::contains(problem_text(Problem::WatchMissingPath(n)), n),
        text::contains(problem_text(Problem::WatchWithoutTarget(n)), n),
        text::contains(problem_text(Problem::DuplicateWatch(n)), n),
        text::contains(problem_text(Problem::WatchUnknownTarget { watch: m, target: n }), n),
        text::contains(problem_text(Problem::WatchUnknownTarget { watch: m, target: n }), m),
{
    let none = Seq::<char>::empty();
    text::lemma_contains_within("target '"@, n, "' missing host"@);
    text::lemma_contains_within("target '"@, n, "' missing remote_dir"@);
    text::lemma_contains_within("duplicate target name: "@, n, none);
    assert("duplicate target name: "@ + n + none =~= "duplicate target name: "@ + n);
    let g = "group '"@ + m + "' references unknown target '"@;
    text::lemma_contains_within(g, n, "'"@);
    let tail = "' references unknown target '"@ + n + "'"@;
    text::lemma_contains_within("group '"@, m, tail);
    assert("group '"@ + m + tail =~= g + n + "'"@);
    text::lemma_contains_within("group '"@ + m + "' primary '"@, n, "' not in targets list"@);
    text::lemma_contains_within("default_target '"@, n, "' not found"@);
    text::lemma_contains_within("watch '"@, n, "' missing path"@);
    text::lemma_contains_within("watch '"@, n, "' must reference at least one target"@);
    text::lemma_contains_within("duplicate watch name: "@, n, none);
    assert("duplicate watch name: "@ + n + none =~= "duplicate watch name: "@ + n);
    let w = "watch '"@ + m + "' references unknown target '"@;
    text::lemma_contains_within(w, n, "'"@);
    text::lemma_contains_within("watch '"@, m, tail);
    assert("watch '"@ + m + tail =~= w + n + "'"@);
}

/// The default target is the one of that name where there is one, and the first target
/// where there is not, or where no default is named.
pub proof fn law_the_default_target_is_found(cfg: ConfigView, i: int)
    requires
        problem(cfg) is None,
        0 <= i < cfg.targets.len(),
    ensures
        cfg.default_target == Some(cfg.targets[i].name) ==> cfg.chosen_target() == Some(
            cfg.targets[i],
        ),
        cfg.default_target is None || !names_target(cfg.targets, cfg.default_target->Some_0)
            ==> cfg.chosen_target() == Some(cfg.targets[0]),
{
    law_targets_found_by_name(cfg, i);
    if let Some(n) = cfg.default_target {
        lemma_target_index(cfg.targets, n);
        let k = target_index(cfg.targets, n);
        if k < cfg.targets.len() {
            assert(cfg.targets[k].name == n);
        }
    }
}

/// A project's configuration goes before the global one, whatever that is; a broken one
/// is an error and not passed over. Without either there are no targets.
pub proof fn law_the_project_goes_first(
    project: Result<Config, String>,
    global: Option<Result<Config, String>>,
)
    ensures
        chosen(Some(project), global) is Ok <==> project is Ok,
        project is Ok ==> chosen(Some(project), global) == Ok::<ConfigView, Seq<char>>(
            project->Ok_0@,
        ),
        project is Err ==> chosen(Some(project), global) == Err::<ConfigView, Seq<char>>(
            project->Err_0@,
        ),
        chosen(None, Some(project)) == chosen(Some(project), global),
        chosen(None, None) is Ok,
        chosen(None, None)->Ok_0.targets.len() == 0,
        problem(chosen(None, None)->Ok_0) is None,
{
}

/// To start with, the default target is the one that is configured, or the first where
/// none is; all the rest is as it was read.
pub proof fn law_the_first_target_is_the_default(cfg: ConfigView, notice: Option<Seq<char>>)
    ensures
        ({
            let c = started(cfg, notice);
            &&& c == ConfigView {
                default_target: c.default_target,
                migration_notice: notice,
                ..cfg
            }
            &&& cfg.default_target is Some ==> c.default_target == cfg.default_target
            &&& cfg.default_target is None && cfg.targets.len() > 0 ==> c.default_target == Some(
                cfg.targets[0].name,
            )
            &&& problem(cfg) is None ==> problem(c) is None
        }),
{
    let c = started(cfg, notice);
    if problem(cfg) is None && cfg.default_target is None && cfg.targets.len() > 0 {
        assert(cfg.targets[0].name == c.default_target->Some_0);
        assert(names_target(c.targets, c.default_target->Some_0));
    }
}

} // verus!
