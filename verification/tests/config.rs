use lzsync::config::{
    accept, current_global_dir, global_config_path, legacy_global_dir, load,
    migrate_legacy_config, migration_message, project_config_path, target_from_ssh_host, validate,
    Config, ConfigSource,
};
use lzsync::ssh_config::SshHost;
use lzsync::target::{
    default_debounce_ms, default_watch_patterns, CatchupMode, ClipboardFormat, ConflictAction,
    Group, Target, WatchConfig,
};

fn text_of(t: &toml::Table, key: &str) -> Option<String> {
    t.get(key).and_then(|v| v.as_str()).map(|s| s.to_string())
}

fn list_of(t: &toml::Table, key: &str) -> Vec<String> {
    match t.get(key).and_then(|v| v.as_array()) {
        Some(a) => a.iter().filter_map(|v| v.as_str()).map(|s| s.to_string()).collect(),
        None => Vec::new(),
    }
}

fn format_of(t: &toml::Table) -> Option<ClipboardFormat> {
    text_of(t, "clipboard_format").map(|f| match f.as_str() {
        "remote_path" => ClipboardFormat::RemotePath,
        "scp_style" => ClipboardFormat::ScpStyle,
        "ssh_path" => ClipboardFormat::SshPath,
        _ => ClipboardFormat::Custom,
    })
}

fn tables(t: &toml::Table, key: &str) -> Vec<toml::Table> {
    match t.get(key).and_then(|v| v.as_array()) {
        Some(a) => a.iter().filter_map(|v| v.as_table()).cloned().collect(),
        None => Vec::new(),
    }
}

fn parse_from(text: &str, is_project: bool) -> Result<Config, String> {
    let t: toml::Table = text.parse().map_err(|_| "no toml".to_string())?;
    let mut cfg = Config::default();
    cfg.default_target = text_of(&t, "default_target");
    if let Some(f) = format_of(&t) {
        cfg.clipboard_format = f;
    }
    for x in tables(&t, "target") {
        cfg.targets.push(Target {
            name: text_of(&x, "name").unwrap(),
            host: text_of(&x, "host").unwrap(),
            user: text_of(&x, "user"),
            remote_dir: text_of(&x, "remote_dir").unwrap(),
            ssh_port: None,
            ssh_key: None,
            clipboard_format: format_of(&x),
        });
    }
    for x in tables(&t, "group") {
        cfg.groups.push(Group {
            name: text_of(&x, "name").unwrap(),
            targets: list_of(&x, "targets"),
            primary: text_of(&x, "primary"),
        });
    }
    accept(cfg, "config.toml", is_project).map_err(|e| e.message())
}

#[test]
fn parse_minimal() {
    let cfg = parse_from(
        r#"
default_target = "dev"

[[target]]
name = "dev"
host = "dev.example.com"
user = "ubuntu"
remote_dir = "/home/ubuntu/uploads"
"#,
        true,
    )
    .unwrap();
    assert_eq!(cfg.default_target.as_deref(), Some("dev"));
    assert_eq!(cfg.targets.len(), 1);
    assert_eq!(cfg.targets[0].name, "dev");
    assert_eq!(cfg.targets[0].user.as_deref(), Some("ubuntu"));
    assert_eq!(cfg.source, ConfigSource::Project("config.toml".to_string()));
}

#[test]
fn parse_group_with_primary() {
    let cfg = parse_from(
        r#"
[[target]]
name = "a"
host = "a.example.com"
remote_dir = "/tmp"

[[target]]
name = "b"
host = "b.example.com"
remote_dir = "/tmp"

[[group]]
name = "both"
targets = ["a", "b"]
primary = "a"
"#,
        false,
    )
    .unwrap();
    assert_eq!(cfg.groups.len(), 1);
    assert_eq!(cfg.groups[0].primary.as_deref(), Some("a"));
    assert_eq!(cfg.source, ConfigSource::Global("config.toml".to_string()));
}

#[test]
fn reject_duplicate_target_name() {
    let r = parse_from(
        r#"
[[target]]
name = "dev"
host = "a"
remote_dir = "/tmp"

[[target]]
name = "dev"
host = "b"
remote_dir = "/tmp"
"#,
        true,
    );
    assert!(r.is_err());
}

#[test]
fn reject_unknown_group_target() {
    let r = parse_from(
        r#"
[[target]]
name = "a"
host = "a.example.com"
remote_dir = "/tmp"

[[group]]
name = "g"
targets = ["b"]
"#,
        true,
    );
    assert!(r.is_err());
}

#[test]
fn reject_bad_default_target() {
    let r = parse_from(
        r#"
default_target = "missing"

[[target]]
name = "a"
host = "a.example.com"
remote_dir = "/tmp"
"#,
        true,
    );
    assert!(r.is_err());
}

#[test]
fn clipboard_format_per_target_override() {
    let cfg = parse_from(
        r#"
clipboard_format = "remote_path"

[[target]]
name = "dev"
host = "dev.example.com"
user = "ubuntu"
remote_dir = "/tmp"
clipboard_format = "scp_style"
"#,
        true,
    )
    .unwrap();
    assert_eq!(cfg.clipboard_format, ClipboardFormat::RemotePath);
    assert_eq!(cfg.targets[0].clipboard_format, Some(ClipboardFormat::ScpStyle));
}

fn target(name: &str) -> Target {
    Target {
        name: name.to_string(),
        host: format!("{name}.example.com"),
        user: None,
        remote_dir: "/tmp".to_string(),
        ssh_port: None,
        ssh_key: None,
        clipboard_format: None,
    }
}

fn group(name: &str, targets: &[&str]) -> Group {
    Group {
        name: name.to_string(),
        targets: targets.iter().map(|s| s.to_string()).collect(),
        primary: None,
    }
}

fn watch(name: &str, targets: &[&str]) -> WatchConfig {
    WatchConfig {
        name: name.to_string(),
        path: "~/Desktop".to_string(),
        targets: targets.iter().map(|s| s.to_string()).collect(),
        patterns: Vec::new(),
        catchup: CatchupMode::Prompt,
        enabled: true,
        debounce_ms: 500,
        recursive: false,
        on_conflict: ConflictAction::Rename,
    }
}

fn complaint(cfg: &Config) -> String {
    match validate(cfg) {
        Ok(()) => "fine".to_string(),
        Err(e) => e.message(),
    }
}

#[test]
fn a_fresh_configuration_is_valid() {
    assert_eq!(complaint(&Config::default()), "fine");
}

#[test]
fn each_thing_wrong_with_a_target_is_named() {
    let mut cfg = Config::default();
    cfg.targets.push(target(""));
    assert_eq!(complaint(&cfg), "target name must not be empty");
    let mut t = target("a");
    t.host = String::new();
    cfg.targets = vec![t];
    assert_eq!(complaint(&cfg), "target 'a' missing host");
    let mut t = target("a");
    t.remote_dir = String::new();
    cfg.targets = vec![t];
    assert_eq!(complaint(&cfg), "target 'a' missing remote_dir");
    cfg.targets = vec![target("a"), target("b"), target("a")];
    assert_eq!(complaint(&cfg), "duplicate target name: a");
}

#[test]
fn each_thing_wrong_with_a_group_is_named() {
    let mut cfg = Config::default();
    cfg.targets = vec![target("a"), target("b")];
    cfg.groups = vec![group("", &["a"])];
    assert_eq!(complaint(&cfg), "group name must not be empty");
    cfg.groups = vec![group("g", &["a", "c"])];
    assert_eq!(complaint(&cfg), "group 'g' references unknown target 'c'");
    let mut g = group("g", &["a"]);
    g.primary = Some("b".to_string());
    cfg.groups = vec![g];
    assert_eq!(complaint(&cfg), "group 'g' primary 'b' not in targets list");
}

#[test]
fn each_thing_wrong_with_a_watch_is_named() {
    let mut cfg = Config::default();
    cfg.targets.push(target("a"));
    cfg.groups.push(group("g", &["a"]));
    cfg.watches = vec![watch("w", &["a", "g"])];
    assert_eq!(complaint(&cfg), "fine");
    cfg.watches = vec![watch("", &["a"])];
    assert_eq!(complaint(&cfg), "watch name must not be empty");
    let mut w = watch("w", &["a"]);
    w.path = String::new();
    cfg.watches = vec![w];
    assert_eq!(complaint(&cfg), "watch 'w' missing path");
    cfg.watches = vec![watch("w", &[])];
    assert_eq!(complaint(&cfg), "watch 'w' must reference at least one target");
    cfg.watches = vec![watch("w", &["a"]), watch("w", &["a"])];
    assert_eq!(complaint(&cfg), "duplicate watch name: w");
    cfg.watches = vec![watch("w", &["nowhere"])];
    assert_eq!(complaint(&cfg), "watch 'w' references unknown target 'nowhere'");
}

#[test]
fn an_unknown_default_is_named() {
    let mut cfg = Config::default();
    cfg.default_target = Some("x".to_string());
    assert_eq!(complaint(&cfg), "default_target 'x' not found");
}

#[test]
fn the_default_may_be_a_group() {
    let mut cfg = Config::default();
    cfg.targets.push(target("a"));
    cfg.groups.push(group("g", &["a"]));
    cfg.default_target = Some("g".to_string());
    assert_eq!(complaint(&cfg), "fine");
}

#[test]
fn targets_and_groups_are_found_by_name() {
    let mut cfg = Config::default();
    cfg.targets.push(target("a"));
    cfg.targets.push(target("b"));
    cfg.groups.push(group("g", &["a", "b"]));
    assert_eq!(cfg.target_by_name("b").unwrap().host, "b.example.com");
    assert!(cfg.target_by_name("g").is_none());
    assert_eq!(cfg.group_by_name("g").unwrap().targets.len(), 2);
    assert!(cfg.group_by_name("a").is_none());
}

#[test]
fn the_default_target_is_the_named_one_or_the_first() {
    let mut cfg = Config::default();
    assert!(cfg.default_target().is_none());
    cfg.targets.push(target("a"));
    cfg.targets.push(target("b"));
    assert_eq!(cfg.default_target().unwrap().name, "a");
    cfg.default_target = Some("b".to_string());
    assert_eq!(cfg.default_target().unwrap().name, "b");
}

#[test]
fn the_projects_configuration_comes_before_the_global_one() {
    let mut project = Config::default();
    project.targets.push(target("p"));
    let mut global = Config::default();
    global.targets.push(target("g"));
    let c = load(Some(Ok(project)), Some(Ok(global)), Some("moved".to_string())).unwrap();
    assert_eq!(c.default_target.as_deref(), Some("p"));
    assert_eq!(c.migration_notice.as_deref(), Some("moved"));
    let mut global = Config::default();
    global.targets.push(target("g"));
    let c = load(None, Some(Ok(global)), None).unwrap();
    assert_eq!(c.default_target.as_deref(), Some("g"));
    let c = load(None, None, None).unwrap();
    assert_eq!(c.default_target, None);
    assert_eq!(c.theme, "mocha");
    assert_eq!(c.clipboard_template, "{user}@{host}:{path}");
}

#[test]
fn hosts_become_targets_with_an_inbox() {
    let h = SshHost {
        name: "dev".to_string(),
        hostname: Some("1.2.3.4".to_string()),
        user: Some("ubuntu".to_string()),
        port: Some(2222),
        identity_file: Some("~/.ssh/k".to_string()),
    };
    let t = target_from_ssh_host(h);
    assert_eq!(t.name, "dev");
    assert_eq!(t.host, "1.2.3.4");
    assert_eq!(t.user.as_deref(), Some("ubuntu"));
    assert_eq!(t.remote_dir, "~/lzsync-inbox");
    assert_eq!(t.ssh_port, Some(2222));
    assert_eq!(t.ssh_key.as_deref(), Some("~/.ssh/k"));
}

#[test]
fn files_lie_below_the_given_directories() {
    assert_eq!(project_config_path(Some("/w")).as_deref(), Some("/w/.lzsync/config.toml"));
    assert_eq!(project_config_path(None), None);
    assert_eq!(global_config_path(Some("/c")).as_deref(), Some("/c/lzsync/config.toml"));
    assert_eq!(legacy_global_dir(Some("/c")).as_deref(), Some("/c/lzscp"));
    assert_eq!(current_global_dir(Some("/c")).as_deref(), Some("/c/lzsync"));
}

#[test]
fn an_old_directory_is_copied_only_where_there_is_no_new_one() {
    assert_eq!(
        migration_message("/c/lzscp"),
        "migrated config from /c/lzscp (backup kept)"
    );
    assert_eq!(
        migrate_legacy_config(Some("/c"), false, true),
        Some(("/c/lzscp".to_string(), "/c/lzsync".to_string()))
    );
    assert_eq!(migrate_legacy_config(Some("/c"), true, true), None);
    assert_eq!(migrate_legacy_config(Some("/c"), false, false), None);
    assert_eq!(migrate_legacy_config(None, false, true), None);
}

#[test]
fn a_watch_takes_pictures_after_half_a_second() {
    assert_eq!(
        default_watch_patterns(),
        vec!["*.png", "*.jpg", "*.jpeg", "*.heic", "*.webp", "*.gif"]
    );
    assert_eq!(default_debounce_ms(), 500);
}

#[test]
fn a_bad_file_of_the_project_never_falls_back_to_the_global_one() {
    let bad = || Some(Err("no target".to_string()));
    let good = || Some(Ok(Config::default()));
    assert_eq!(load(bad(), good(), None).unwrap_err(), "no target");
    assert_eq!(load(None, bad(), None).unwrap_err(), "no target");
    assert!(load(good(), bad(), None).is_ok());
}
