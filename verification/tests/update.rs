use lzsync::update::{
    check_for_updates, detect_platform, download_and_install, download_status, is_newer,
    parse_semver, release, VERSION,
};

#[test]
fn newer_patch() {
    assert!(is_newer("0.1.1", "0.1.0"));
}

#[test]
fn newer_minor() {
    assert!(is_newer("0.2.0", "0.1.9"));
}

#[test]
fn same_not_newer() {
    assert!(!is_newer("0.1.0", "0.1.0"));
}

#[test]
fn older_not_newer() {
    assert!(!is_newer("0.0.9", "0.1.0"));
}

#[test]
fn handles_v_prefix() {
    assert!(is_newer("v0.2.0", "0.1.0"));
}

#[test]
fn detect_platform_is_one_of_known() {
    for (os, arch) in [
        ("linux", "x86_64"),
        ("linux", "aarch64"),
        ("macos", "x86_64"),
        ("macos", "aarch64"),
    ] {
        let p = detect_platform(os, arch).expect("supported test platform");
        assert!(
            matches!(
                p.as_str(),
                "linux-x86_64" | "linux-aarch64" | "macos-x86_64" | "macos-aarch64"
            ),
            "got {p}"
        );
        assert_eq!(p, format!("{os}-{arch}"));
    }
    assert_eq!(
        detect_platform("plan9", "mips"),
        Err("unsupported platform: plan9/mips".to_string())
    );
}

#[test]
fn versions_are_compared_number_by_number() {
    assert_eq!(parse_semver("v1.2.3"), (1, 2, 3));
    assert_eq!(parse_semver("1.2"), (1, 2, 0));
    assert!(is_newer("1.10.0", "1.9.9"));
    assert!(is_newer("2.0.0", "1.99.99"));
}

#[test]
fn only_a_newer_version_is_reported() {
    assert_eq!(check_for_updates("v9.9.9\n", VERSION).as_deref(), Some("v9.9.9"));
    assert_eq!(check_for_updates(VERSION, VERSION), None);
    assert_eq!(check_for_updates("0.0.1", VERSION), None);
}

#[test]
fn releases_are_fetched_by_version_and_platform() {
    let r = release("v0.5.0", "linux-x86_64");
    assert_eq!(r.artifact, "lzsync-linux-x86_64");
    assert_eq!(
        r.url,
        "https://github.com/FanFusion/lzsync/releases/download/v0.5.0/lzsync-linux-x86_64.tar.gz"
    );
    assert_eq!(download_status(200, "u"), Ok(()));
    assert_eq!(download_status(404, "u"), Err("HTTP 404 from u".to_string()));
}

#[test]
fn both_programs_go_to_both_directories() {
    let p = download_and_install("/t/x", "lzsync-linux-x86_64", "/home/u", true);
    assert_eq!(p.unpacked, "/t/x/lzsync-linux-x86_64");
    assert_eq!(p.dirs, vec!["/home/u/.cargo/bin", "/home/u/.local/bin"]);
    assert_eq!(p.steps.len(), 4);
    assert_eq!(p.steps[1].source, "/t/x/lzsync-linux-x86_64/lzsync-rsync");
    assert_eq!(p.steps[1].staging, "/home/u/.cargo/bin/lzsync-rsync.new");
    assert_eq!(p.steps[1].dest, "/home/u/.cargo/bin/lzsync-rsync");
    assert_eq!(
        p.installed,
        vec!["/home/u/.cargo/bin/lzsync", "/home/u/.local/bin/lzsync"]
    );
    assert_eq!(download_and_install("/t/x", "a", "/h", false).steps.len(), 2);
}
