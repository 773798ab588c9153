use lzsync::ssh_config::{expand_include, include_path, parse, ConfigFile};

#[test]
fn parses_named_host() {
    let cfg = r#"
Host devsg
    HostName 1.2.3.4
    User ubuntu
    Port 22
    IdentityFile ~/.ssh/dev_sg.pem
"#;
    let hosts = parse(cfg, None);
    assert_eq!(hosts.len(), 1);
    assert_eq!(hosts[0].name, "devsg");
    assert_eq!(hosts[0].hostname.as_deref(), Some("1.2.3.4"));
    assert_eq!(hosts[0].user.as_deref(), Some("ubuntu"));
    assert_eq!(hosts[0].port, Some(22));
}

#[test]
fn wildcards_only_used_as_defaults() {
    let cfg = r#"
Host *
    User ubuntu

Host devsg
    HostName 1.2.3.4
"#;
    let hosts = parse(cfg, None);
    assert_eq!(hosts.len(), 1);
    assert_eq!(hosts[0].user.as_deref(), Some("ubuntu"));
}

#[test]
fn explicit_overrides_wildcard() {
    let cfg = r#"
Host *
    User ubuntu

Host bastion
    HostName bastion.example.com
    User admin
"#;
    let hosts = parse(cfg, None);
    assert_eq!(hosts[0].user.as_deref(), Some("admin"));
}

#[test]
fn multiple_host_patterns_expand() {
    let cfg = r#"
Host a b c
    HostName shared.example.com
"#;
    let hosts = parse(cfg, None);
    let names: Vec<_> = hosts.iter().map(|h| h.name.as_str()).collect();
    assert_eq!(names, vec!["a", "b", "c"]);
    for h in &hosts {
        assert_eq!(h.hostname.as_deref(), Some("shared.example.com"));
    }
}

#[test]
fn comments_and_blank_lines_ignored() {
    let cfg = r#"
# this is a comment

Host dev
    # another comment
    HostName dev.example.com
"#;
    let hosts = parse(cfg, None);
    assert_eq!(hosts.len(), 1);
    assert_eq!(hosts[0].name, "dev");
}

#[test]
fn key_equals_value_form() {
    let cfg = r#"
Host dev
    HostName=dev.example.com
    User=ubuntu
"#;
    let hosts = parse(cfg, None);
    assert_eq!(hosts[0].hostname.as_deref(), Some("dev.example.com"));
    assert_eq!(hosts[0].user.as_deref(), Some("ubuntu"));
}

#[test]
fn falls_back_hostname_to_name() {
    let cfg = r#"
Host onlyname
    User root
"#;
    let hosts = parse(cfg, None);
    assert_eq!(hosts[0].hostname.as_deref(), Some("onlyname"));
}

#[test]
fn patterns_fill_in_what_a_host_leaves_open() {
    let cfg = "Host dev-*\n  User first\n  Port 2200\nHost dev-?\n  User second\nHost dev-1 web\n  HostName h\n";
    let hosts = parse(cfg, None);
    assert_eq!(hosts.len(), 2);
    assert_eq!(hosts[0].user.as_deref(), Some("first"));
    assert_eq!(hosts[0].port, Some(2200));
    assert_eq!(hosts[1].user, None);
    assert_eq!(hosts[1].port, None);
}

#[test]
fn a_port_out_of_range_is_ignored() {
    let hosts = parse("Host a\n  Port 70000\n", None);
    assert_eq!(hosts[0].port, None);
}

#[test]
fn files_that_are_pulled_in_come_before_the_block_that_names_them() {
    let inner = ConfigFile { text: "Host inner\n  User i\n".to_string(), nested: Vec::new() };
    let hosts = parse("Host a\nInclude other\nHost b\n", Some(&vec![Some(inner)]));
    let names: Vec<_> = hosts.iter().map(|h| h.name.as_str()).collect();
    assert_eq!(names, vec!["inner", "a", "b"]);
    let hosts = parse("Host a\nInclude other\nHost b\n", Some(&vec![None]));
    assert_eq!(hosts.len(), 2);
}

#[test]
fn relative_files_lie_beside_the_configuration() {
    assert_eq!(include_path("other", Some("/home/u/.ssh/config")), "/home/u/.ssh/other");
    assert_eq!(include_path("/etc/x", Some("/home/u/.ssh/config")), "/etc/x");
    assert_eq!(include_path("other", None), "other");
}

#[test]
fn the_files_to_pull_in_are_listed_in_order() {
    let raw = "Host a\nInclude one /etc/two\n  User u\ninclude ~/three\n";
    let files = expand_include(raw, Some("/home/u/.ssh/config"), Some("/home/v"));
    assert_eq!(files, vec!["/home/u/.ssh/one", "/etc/two", "/home/v/three"]);
    let files = expand_include(raw, Some("/home/u/.ssh/config"), None);
    assert_eq!(files[2], "/home/u/.ssh/~/three");
}
