//! What is put on the clipboard after a transfer.
use vstd::prelude::*;

use crate::paths;
use crate::remote;
use crate::target::{ClipboardFormat, Target, TargetView};
use crate::text;
use crate::text::CharClass;

verus! {

/// The name of the local file, empty where its path names none.
pub open spec fn basename(local: Seq<char>) -> Seq<char> {
    match paths::base_name(local) {
        Some(n) => n,
        None => seq![],
    }
}

/// The file `name` in the remote directory `dir`.
pub open spec fn remote_file(dir: Seq<char>, name: Seq<char>) -> Seq<char> {
    text::trim_end(dir, CharClass::Just('/')) + "/"@ + name
}

/// The template with its placeholders filled in, one after the other: `{user}`,
/// `{host}`, `{port}`, `{path}`, `{basename}`.
pub open spec fn filled(
    template: Seq<char>,
    t: TargetView,
    path: Seq<char>,
    basename: Seq<char>,
) -> Seq<char> {
    let a = text::replace(template, "{user}"@, t.user_text());
    let b = text::replace(a, "{host}"@, t.host);
    let c = text::replace(b, "{port}"@, text::decimal(t.port() as nat));
    let d = text::replace(c, "{path}"@, path);
    text::replace(d, "{basename}"@, basename)
}

pub open spec fn format_of(t: TargetView, default_format: ClipboardFormat) -> ClipboardFormat {
    match t.clipboard_format {
        Some(f) => f,
        None => default_format,
    }
}

pub open spec fn rendered(
    t: TargetView,
    local: Seq<char>,
    dir: Seq<char>,
    default_format: ClipboardFormat,
    template: Seq<char>,
) -> Seq<char> {
    let name = basename(local);
    let path = remote_file(dir, name);
    match format_of(t, default_format) {
        ClipboardFormat::RemotePath => path,
        ClipboardFormat::ScpStyle => t.address() + ":"@ + path,
        ClipboardFormat::SshPath => "ssh://"@ + t.address() + path,
        ClipboardFormat::Custom => filled(template, t, path, name),
    }
}

pub fn local_basename(local: &str) -> (r: String)
    ensures
        r@ == basename(local@),
{
    match paths::file_name(local) {
        Some(n) => n,
        None => {
            let r = String::new();
            assert(r@ =~= seq![]);
            r
        },
    }
}

pub fn remote_path(dir: &str, name: &str) -> (r: String)
    ensures
        r@ == remote_file(dir@, name@),
{
    let mut r = text::trimmed_end(dir, CharClass::Just('/'));
    r.append("/");
    r.append(name);
    r
}

/// Render the clipboard string for a successful transfer to `target`.
///
/// `local_source`   — the local file that was sent (to derive `{basename}`).
/// `remote_abs_dir` — the resolved absolute directory on the remote (with `~`
///                   already expanded). Clipboard returns `{remote_abs_dir}/{basename}`
///                   as the remote path.
pub fn render(
    target: &Target,
    local_source: &str,
    remote_abs_dir: &str,
    default_format: ClipboardFormat,
    custom_template: &str,
) -> (r: String)
    ensures
        r@ == rendered(
            target@,
            local_source@,
            remote_abs_dir@,
            default_format,
            custom_template@,
        ),
{
    let name = local_basename(local_source);
    let path = remote_path(remote_abs_dir, name.as_str());
    let fmt = match target.clipboard_format {
        Some(f) => f,
        None => default_format,
    };
    match fmt {
        ClipboardFormat::RemotePath => path,
        ClipboardFormat::ScpStyle => {
            let mut r = target.address();
            r.append(":");
            r.append(path.as_str());
            r
        },
        ClipboardFormat::SshPath => {
            let mut r = "ssh://".to_owned();
            let e = target.address();
            r.append(e.as_str());
            r.append(path.as_str());
            r
        },
        ClipboardFormat::Custom => render_template(
            custom_template,
            target,
            path.as_str(),
            name.as_str(),
        ),
    }
}

fn render_template(template: &str, t: &Target, path: &str, basename: &str) -> (r: String)
    ensures
        r@ == filled(template@, t@, path@, basename@),
{
    proof {
        reveal_strlit("{user}");
        reveal_strlit("{host}");
        reveal_strlit("{port}");
        reveal_strlit("{path}");
        reveal_strlit("{basename}");
    }
    let a = text::replaced(template, "{user}", t.user_str());
    let b = text::replaced(a.as_str(), "{host}", t.host.as_str());
    let port = text::to_decimal(t.ssh_port() as u64);
    let c = text::replaced(b.as_str(), "{port}", port.as_str());
    let d = text::replaced(c.as_str(), "{path}", path);
    text::replaced(d.as_str(), "{basename}", basename)
}

/// A target's own format wins over the default.
pub proof fn law_target_format_wins(
    t: TargetView,
    local: Seq<char>,
    dir: Seq<char>,
    default_format: ClipboardFormat,
    template: Seq<char>,
)
    requires
        t.clipboard_format is Some,
    ensures
        rendered(t, local, dir, default_format, template) == rendered(
            t,
            local,
            dir,
            t.clipboard_format->0,
            template,
        ),
{
}

/// Slashes at the end of the remote directory make no difference.
pub proof fn law_trailing_slash_ignored(
    t: TargetView,
    local: Seq<char>,
    dir: Seq<char>,
    default_format: ClipboardFormat,
    template: Seq<char>,
)
    ensures
        rendered(t, local, dir.push('/'), default_format, template) == rendered(
            t,
            local,
            dir,
            default_format,
            template,
        ),
{
    assert(dir.push('/').drop_last() =~= dir);
}


/// The plain format is the path of the file on the remote host: its own name, in the
/// directory that it was sent to.
pub proof fn law_plain_paths(
    t: TargetView,
    local: Seq<char>,
    name: Seq<char>,
    dir: Seq<char>,
    template: Seq<char>,
)
    requires
        t.clipboard_format is None,
        paths::base_name(local) == Some(name),
        dir.len() > 0,
        dir.last() != '/',
    ensures
        rendered(t, local, dir, ClipboardFormat::RemotePath, template) == dir + seq!['/'] + name,
{
    reveal_strlit("/");
    assert("/"@ =~= seq!['/']);
}

/// What stands between the scheme and the path of an address like `ssh://host/path`.
pub open spec fn authority(url: Seq<char>) -> Seq<char> {
    text::split(url.skip(6), CharClass::Just('/'))[0]
}

/// The other two formats name the same file together with the target: `scp` reads its
/// user, its host and the path from the one, and the other is an address of `ssh`.
pub proof fn law_remote_paths_name_the_target(
    t: TargetView,
    local: Seq<char>,
    name: Seq<char>,
    dir: Seq<char>,
    template: Seq<char>,
)
    requires
        t.clipboard_format is None,
        paths::base_name(local) == Some(name),
        dir.len() > 0,
        dir[0] == '/',
        dir.last() != '/',
        remote::reachable(t),
        !t.address().contains(':'),
        !t.address().contains('/'),
    ensures
        ({
            let scp = rendered(t, local, dir, ClipboardFormat::ScpStyle, template);
            let ssh = rendered(t, local, dir, ClipboardFormat::SshPath, template);
            let path = dir + seq!['/'] + name;
            &&& remote::rsync_path(scp) == path
            &&& remote::user_of(remote::rsync_host(scp)) == t.user
            &&& remote::host_of(remote::rsync_host(scp)) == t.host
            &&& ssh.take(6) == "ssh://"@
            &&& remote::user_of(authority(ssh)) == t.user
            &&& remote::host_of(authority(ssh)) == t.host
            &&& ssh.skip(6 + authority(ssh).len() as int) == path
        }),
{
    reveal_strlit("/");
    reveal_strlit(":");
    reveal_strlit("ssh://");
    assert("/"@ =~= seq!['/']);
    let a = t.address();
    let path = dir + seq!['/'] + name;
    let scp = rendered(t, local, dir, ClipboardFormat::ScpStyle, template);
    let ssh = rendered(t, local, dir, ClipboardFormat::SshPath, template);
    assert(scp =~= a + seq![':'] + path);
    remote::lemma_rsync_dest(a, path);
    remote::lemma_address(t);
    assert(ssh =~= "ssh://"@ + a + path);
    assert(ssh.take(6) =~= "ssh://"@);
    assert(path =~= seq!['/'] + path.skip(1));
    assert(ssh.skip(6) =~= a + seq!['/'] + path.skip(1));
    text::lemma_one_line(a, '/');
    text::lemma_split_joined(a, path.skip(1), '/');
    assert(authority(ssh) == a);
    assert(ssh.skip(6 + a.len() as int) =~= path);
}

/// Without an opening brace.
pub open spec fn no_brace(s: Seq<char>) -> bool {
    forall|i: int| 0 <= i < s.len() ==> #[trigger] s[i] != '{'
}

/// A name in braces.
pub open spec fn is_placeholder(p: Seq<char>) -> bool {
    p.len() > 3 && p[0] == '{' && forall|i: int| 0 < i < p.len() ==> #[trigger] p[i] != '{'
}

proof fn lemma_kept(s: Seq<char>, p: Seq<char>, w: Seq<char>)
    requires
        no_brace(s),
        is_placeholder(p),
    ensures
        text::replace(s, p, w) == s,
{
    assert forall|i: int| 0 <= i < s.len() implies !p.is_prefix_of(#[trigger] s.skip(i)) by {
        if p.is_prefix_of(s.skip(i)) {
            assert(s.skip(i).subrange(0, p.len() as int)[0] == s[i]);
        }
    }
    text::law_replace_nothing(s, p, w);
}

/// `q` differs from `p` in its second or third character.
proof fn lemma_other(pre: Seq<char>, p: Seq<char>, post: Seq<char>, q: Seq<char>, w: Seq<char>)
    requires
        no_brace(pre),
        no_brace(post),
        is_placeholder(p),
        is_placeholder(q),
        p[1] != q[1] || p[2] != q[2],
    ensures
        text::replace(pre + p + post, q, w) == pre + p + post,
{
    let s = pre + p + post;
    assert forall|i: int| 0 <= i < s.len() implies !q.is_prefix_of(#[trigger] s.skip(i)) by {
        if q.is_prefix_of(s.skip(i)) {
            let h = s.skip(i).subrange(0, q.len() as int);
            assert(h[0] == s[i] && h[1] == s[i + 1] && h[2] == s[i + 2]);
            if i < pre.len() {
                assert(s[i] == pre[i]);
            } else if i == pre.len() {
                assert(s[i + 1] == p[1]);
                assert(s[i + 2] == p[2]);
            } else if i < pre.len() + p.len() {
                assert(s[i] == p[i - pre.len()]);
            } else {
                assert(s[i] == post[i - pre.len() - p.len()]);
            }
        }
    }
    text::law_replace_nothing(s, q, w);
}

proof fn lemma_filled(pre: Seq<char>, p: Seq<char>, post: Seq<char>, w: Seq<char>)
    requires
        no_brace(pre),
        no_brace(post),
        is_placeholder(p),
    ensures
        text::replace(pre + p + post, p, w) == pre + w + post,
{
    let s = pre + p + post;
    assert forall|i: int| 0 <= i < pre.len() implies !p.is_prefix_of(#[trigger] s.skip(i)) by {
        if p.is_prefix_of(s.skip(i)) {
            assert(s.skip(i).subrange(0, p.len() as int)[0] == s[i]);
            assert(s[i] == pre[i]);
        }
    }
    text::law_replace(pre, p, post, w);
    lemma_kept(post, p, w);
}

/// In a template of the user's own, a placeholder gives way to what it names: the
/// target's user, host or port, the remote path, or the file's name. What stands around
/// it stays.
pub proof fn law_placeholders_give_way(
    pre: Seq<char>,
    post: Seq<char>,
    t: TargetView,
    path: Seq<char>,
    name: Seq<char>,
)
    requires
        no_brace(pre),
        no_brace(post),
        no_brace(t.user_text()),
        no_brace(t.host),
        no_brace(path),
        no_brace(name),
    ensures
        filled(pre, t, path, name) == pre,
        filled(pre + "{user}"@ + post, t, path, name) == pre + t.user_text() + post,
        filled(pre + "{host}"@ + post, t, path, name) == pre + t.host + post,
        filled(pre + "{port}"@ + post, t, path, name) == pre + text::decimal(t.port() as nat)
            + post,
        filled(pre + "{path}"@ + post, t, path, name) == pre + path + post,
        filled(pre + "{basename}"@ + post, t, path, name) == pre + name + post,
{
    reveal_strlit("{user}");
    reveal_strlit("{host}");
    reveal_strlit("{port}");
    reveal_strlit("{path}");
    reveal_strlit("{basename}");
    let (u, h, p, q, b) = ("{user}"@, "{host}"@, "{port}"@, "{path}"@, "{basename}"@);
    let port = text::decimal(t.port() as nat);
    text::lemma_decimal_read_back(t.port() as nat);
    assert(no_brace(port)) by {
        assert forall|i: int| 0 <= i < port.len() implies #[trigger] port[i] != '{' by {
            assert(text::is_digit(port[i]));
        }
    }
    let user = t.user_text();
    lemma_all_kept(pre, t, path, name);
    lemma_other(pre, h, post, u, user);
    lemma_other(pre, p, post, u, user);
    lemma_other(pre, q, post, u, user);
    lemma_other(pre, b, post, u, user);
    lemma_other(pre, p, post, h, t.host);
    lemma_other(pre, q, post, h, t.host);
    lemma_other(pre, b, post, h, t.host);
    lemma_other(pre, q, post, p, port);
    lemma_other(pre, b, post, p, port);
    lemma_other(pre, b, post, q, path);
    lemma_filled(pre, u, post, user);
    lemma_filled(pre, h, post, t.host);
    lemma_filled(pre, p, post, port);
    lemma_filled(pre, q, post, path);
    lemma_filled(pre, b, post, name);
    lemma_all_kept(pre + user + post, t, path, name);
    lemma_all_kept(pre + t.host + post, t, path, name);
    lemma_all_kept(pre + port + post, t, path, name);
    lemma_all_kept(pre + path + post, t, path, name);
}

proof fn lemma_all_kept(s: Seq<char>, t: TargetView, path: Seq<char>, name: Seq<char>)
    requires
        no_brace(s),
    ensures
        filled(s, t, path, name) == s,
        text::replace(s, "{host}"@, t.host) == s,
        text::replace(s, "{port}"@, text::decimal(t.port() as nat)) == s,
        text::replace(s, "{path}"@, path) == s,
        text::replace(s, "{basename}"@, name) == s,
{
    reveal_strlit("{user}");
    reveal_strlit("{host}");
    reveal_strlit("{port}");
    reveal_strlit("{path}");
    reveal_strlit("{basename}");
    lemma_kept(s, "{user}"@, t.user_text());
    lemma_kept(s, "{host}"@, t.host);
    lemma_kept(s, "{port}"@, text::decimal(t.port() as nat));
    lemma_kept(s, "{path}"@, path);
    lemma_kept(s, "{basename}"@, name);
}

} // verus!
