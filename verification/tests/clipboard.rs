use lzsync::clipboard::{local_basename, remote_path, render};
use lzsync::target::{ClipboardFormat, Target};

fn target(user: Option<&str>, fmt: Option<ClipboardFormat>) -> Target {
    Target {
        name: "dev".to_string(),
        host: "dev.example.com".to_string(),
        user: user.map(|s| s.to_string()),
        remote_dir: "~/uploads".to_string(),
        ssh_port: None,
        ssh_key: None,
        clipboard_format: fmt,
    }
}

#[test]
fn remote_path_format() {
    let t = target(Some("ubuntu"), None);
    let out = render(
        &t,
        "/local/shot.png",
        "/home/ubuntu/uploads",
        ClipboardFormat::RemotePath,
        "{user}@{host}:{path}",
    );
    assert_eq!(out, "/home/ubuntu/uploads/shot.png");
}

#[test]
fn scp_style_with_user() {
    let t = target(Some("ubuntu"), Some(ClipboardFormat::ScpStyle));
    let out = render(
        &t,
        "/local/shot.png",
        "/home/ubuntu/uploads",
        ClipboardFormat::RemotePath,
        "{user}@{host}:{path}",
    );
    assert_eq!(out, "ubuntu@dev.example.com:/home/ubuntu/uploads/shot.png");
}

#[test]
fn scp_style_without_user() {
    let t = target(None, Some(ClipboardFormat::ScpStyle));
    let out = render(
        &t,
        "/local/shot.png",
        "/home/ubuntu/uploads",
        ClipboardFormat::RemotePath,
        "{user}@{host}:{path}",
    );
    assert_eq!(out, "dev.example.com:/home/ubuntu/uploads/shot.png");
}

#[test]
fn ssh_path_format() {
    let t = target(Some("ubuntu"), Some(ClipboardFormat::SshPath));
    let out = render(
        &t,
        "/local/shot.png",
        "/home/ubuntu/uploads",
        ClipboardFormat::RemotePath,
        "{user}@{host}:{path}",
    );
    assert_eq!(out, "ssh://ubuntu@dev.example.com/home/ubuntu/uploads/shot.png");
}

#[test]
fn custom_template_all_placeholders() {
    let t = target(Some("ubuntu"), Some(ClipboardFormat::Custom));
    let out = render(
        &t,
        "/local/shot.png",
        "/home/ubuntu/uploads",
        ClipboardFormat::RemotePath,
        "{user}@{host}:{port}:{path} basename={basename}",
    );
    assert_eq!(
        out,
        "ubuntu@dev.example.com:22:/home/ubuntu/uploads/shot.png basename=shot.png"
    );
}

#[test]
fn chinese_filename_scp_style() {
    let t = target(Some("ubuntu"), Some(ClipboardFormat::ScpStyle));
    let out = render(
        &t,
        "/local/截图.png",
        "/home/ubuntu/uploads",
        ClipboardFormat::RemotePath,
        "{user}@{host}:{path}",
    );
    assert_eq!(out, "ubuntu@dev.example.com:/home/ubuntu/uploads/截图.png");
}

#[test]
fn strips_trailing_slash_from_remote_dir() {
    let t = target(Some("ubuntu"), None);
    let out = render(
        &t,
        "/local/a.png",
        "/home/ubuntu/uploads/",
        ClipboardFormat::RemotePath,
        "{user}@{host}:{path}",
    );
    assert_eq!(out, "/home/ubuntu/uploads/a.png");
}

#[test]
fn a_targets_format_wins_over_the_default() {
    let t = target(Some("u"), Some(ClipboardFormat::RemotePath));
    assert_eq!(render(&t, "/l/a", "/r", ClipboardFormat::ScpStyle, ""), "/r/a");
    let t = target(Some("u"), None);
    assert_eq!(
        render(&t, "/l/a", "/r", ClipboardFormat::ScpStyle, ""),
        "u@dev.example.com:/r/a"
    );
}

#[test]
fn a_path_without_a_name_gives_an_empty_one() {
    assert_eq!(local_basename("/"), "");
    assert_eq!(local_basename("a/.."), "");
    assert_eq!(local_basename("/a/b.txt"), "b.txt");
    assert_eq!(remote_path("/r//", "x"), "/r/x");
}

#[test]
fn placeholders_are_filled_in_one_after_the_other() {
    let mut t = target(None, Some(ClipboardFormat::Custom));
    t.ssh_port = Some(2222);
    assert_eq!(
        render(&t, "/l/a b", "/r", ClipboardFormat::RemotePath, "[{user}] {port} {path}{path}"),
        "[] 2222 /r/a b/r/a b"
    );
    // A value that spells a later placeholder is filled in as well.
    t.user = Some("{host}".to_string());
    assert_eq!(
        render(&t, "/l/a", "/r", ClipboardFormat::RemotePath, "{user}"),
        "dev.example.com"
    );
}
