//! Finding out about newer releases, and what installing one consists of.
use vstd::prelude::*;

use crate::paths;
use crate::text;
use crate::text::CharClass;

verus! {

/// The version of this program.
pub const VERSION: &'static str = "0.4.0";

/// Where the number of the latest release can be read.
pub const VERSION_URL: &'static str =
    "https://raw.githubusercontent.com/FanFusion/lzsync/main/VERSION";

// ---------------------------------------------------------------------------
// Versions
// ---------------------------------------------------------------------------
/// The number that the `i`-th part spells, zero where there is none or it is no
/// number of 32 bits.
pub open spec fn part_number(parts: Seq<Seq<char>>, i: int) -> u32 {
    if i < parts.len() {
        match text::unsigned(parts[i], u32::MAX as nat) {
            Some(n) => n as u32,
            None => 0,
        }
    } else {
        0
    }
}

/// A version without blanks around it and without leading `v`s.
pub open spec fn bare_version(s: Seq<char>) -> Seq<char> {
    text::trim_start(text::trim(s), CharClass::Just('v'))
}

/// Major, minor and patch number of a version.
pub open spec fn semver(s: Seq<char>) -> (u32, u32, u32) {
    let parts = text::split(bare_version(s), CharClass::Just('.'));
    (part_number(parts, 0), part_number(parts, 1), part_number(parts, 2))
}

/// Whether `a` comes after `b`: the first number in which they differ decides.
pub open spec fn later(a: (u32, u32, u32), b: (u32, u32, u32)) -> bool {
    a.0 > b.0 || (a.0 == b.0 && (a.1 > b.1 || (a.1 == b.1 && a.2 > b.2)))
}

fn number_at(parts: &Vec<String>, i: usize) -> (r: u32)
    ensures
        r == part_number(text::strs(parts@), i as int),
{
    if i < parts.len() {
        match text::parse_unsigned(parts[i].as_str(), 0xffff_ffff) {
            Some(n) => n as u32,
            None => 0,
        }
    } else {
        0
    }
}

fn bare(s: &str) -> (r: String)
    ensures
        r@ == bare_version(s@),
{
    let t = text::trimmed(s);
    text::trimmed_start(t.as_str(), CharClass::Just('v'))
}

pub fn parse_semver(s: &str) -> (r: (u32, u32, u32))
    ensures
        r == semver(s@),
{
    let b = bare(s);
    let parts = text::split_by(b.as_str(), CharClass::Just('.'));
    (number_at(&parts, 0), number_at(&parts, 1), number_at(&parts, 2))
}

pub fn is_newer(remote: &str, current: &str) -> (r: bool)
    ensures
        r == later(semver(remote@), semver(current@)),
{
    let a = parse_semver(remote);
    let b = parse_semver(current);
    a.0 > b.0 || (a.0 == b.0 && (a.1 > b.1 || (a.1 == b.1 && a.2 > b.2)))
}

/// The version to offer, given what the release server says is the latest:
/// nothing where that is the current one or older.
pub fn check_for_updates(body: &str, current: &str) -> (r: Option<String>)
    ensures
        text::opt(r) == (if later(semver(text::trim(body@)), semver(current@)) {
            Some(text::trim(body@))
        } else {
            None
        }),
{
    let latest = text::trimmed(body);
    if is_newer(latest.as_str(), current) {
        Some(latest)
    } else {
        None
    }
}

// ---------------------------------------------------------------------------
// Installing
// ---------------------------------------------------------------------------
pub open spec fn platform(os: Seq<char>, arch: Seq<char>) -> Option<Seq<char>> {
    if os == "linux"@ && arch == "x86_64"@ {
        Some("linux-x86_64"@)
    } else if os == "linux"@ && arch == "aarch64"@ {
        Some("linux-aarch64"@)
    } else if os == "macos"@ && arch == "x86_64"@ {
        Some("macos-x86_64"@)
    } else if os == "macos"@ && arch == "aarch64"@ {
        Some("macos-aarch64"@)
    } else {
        None
    }
}

/// The name of a platform in release artifacts.
pub fn detect_platform(os: &str, arch: &str) -> (r: Result<String, String>)
    ensures
        match r {
            Ok(p) => platform(os@, arch@) == Some(p@),
            Err(e) => platform(os@, arch@) is None && e@ == "unsupported platform: "@ + os@ + "/"@
                + arch@,
        },
{
    if text::same(os, "linux") && text::same(arch, "x86_64") {
        Ok("linux-x86_64".to_owned())
    } else if text::same(os, "linux") && text::same(arch, "aarch64") {
        Ok("linux-aarch64".to_owned())
    } else if text::same(os, "macos") && text::same(arch, "x86_64") {
        Ok("macos-x86_64".to_owned())
    } else if text::same(os, "macos") && text::same(arch, "aarch64") {
        Ok("macos-aarch64".to_owned())
    } else {
        let mut e = "unsupported platform: ".to_owned();
        e.append(os);
        e.append("/");
        e.append(arch);
        Err(e)
    }
}

/// What to fetch for a release: the name of the artifact and its address.
#[derive(Debug, Clone)]
pub struct Release {
    pub artifact: String,
    pub url: String,
}

pub open spec fn artifact_name(platform: Seq<char>) -> Seq<char> {
    "lzsync-"@ + platform
}

pub open spec fn artifact_url(version: Seq<char>, platform: Seq<char>) -> Seq<char> {
    "https://github.com/FanFusion/lzsync/releases/download/v"@ + bare_version(version) + "/"@
        + artifact_name(platform) + ".tar.gz"@
}

pub fn release(version: &str, platform: &str) -> (r: Release)
    ensures
        r.artifact@ == artifact_name(platform@),
        r.url@ == artifact_url(version@, platform@),
{
    let mut artifact = "lzsync-".to_owned();
    artifact.append(platform);
    let mut url = "https://github.com/FanFusion/lzsync/releases/download/v".to_owned();
    let v = bare(version);
    url.append(v.as_str());
    url.append("/");
    url.append(artifact.as_str());
    url.append(".tar.gz");
    Release { artifact, url }
}

/// Refuses a download that did not come back with status 200.
pub fn download_status(status: u16, url: &str) -> (r: Result<(), String>)
    ensures
        match r {
            Ok(_) => status == 200,
            Err(e) => status != 200 && e@ == "HTTP "@ + text::decimal(status as nat) + " from "@
                + url@,
        },
{
    if status == 200 {
        Ok(())
    } else {
        let mut e = "HTTP ".to_owned();
        let n = text::to_decimal(status as u64);
        e.append(n.as_str());
        e.append(" from ");
        e.append(url);
        Err(e)
    }
}

/// One file to install: it is copied from `source` to `staging`, and moved from
/// there to `dest`, so that a running program keeps its own file.
#[derive(Debug, Clone)]
pub struct InstallStep {
    pub source: String,
    pub staging: String,
    pub dest: String,
}

pub ghost struct InstallView {
    pub source: Seq<char>,
    pub staging: Seq<char>,
    pub dest: Seq<char>,
}

impl View for InstallStep {
    type V = InstallView;

    open spec fn view(&self) -> InstallView {
        InstallView { source: self.source@, staging: self.staging@, dest: self.dest@ }
    }
}

/// The program `name`, unpacked below `from`, goes to the directory `dir`.
pub open spec fn install_of(from: Seq<char>, dir: Seq<char>, name: Seq<char>) -> InstallView {
    InstallView {
        source: paths::joined(from, name),
        staging: paths::joined(dir, name) + ".new"@,
        dest: paths::joined(dir, name),
    }
}

/// What goes to one directory: the program, and its rsync where the release has
/// one.
pub open spec fn installs_into(from: Seq<char>, dir: Seq<char>, has_rsync: bool) -> Seq<
    InstallView,
> {
    if has_rsync {
        seq![install_of(from, dir, "lzsync"@), install_of(from, dir, "lzsync-rsync"@)]
    } else {
        seq![install_of(from, dir, "lzsync"@)]
    }
}

fn install_step(from: &str, dir: &str, name: &str) -> (r: InstallStep)
    ensures
        r@ == install_of(from@, dir@, name@),
{
    let source = paths::join(from, name);
    let dest = paths::join(dir, name);
    let mut staging = dest.clone();
    staging.append(".new");
    InstallStep { source, staging, dest }
}

/// What installing a release consists of: where it was unpacked to, the
/// directories to make, the files to put there, and which of them to tell the
/// user about.
#[derive(Debug, Clone)]
pub struct InstallPlan {
    pub unpacked: String,
    pub dirs: Vec<String>,
    pub steps: Vec<InstallStep>,
    pub installed: Vec<String>,
}

pub open spec fn install_dirs(home: Seq<char>) -> Seq<Seq<char>> {
    seq![paths::joined(home, ".cargo/bin"@), paths::joined(home, ".local/bin"@)]
}

/// Download the release tarball and install both `lzsync` and the bundled
/// `lzsync-rsync` to `~/.cargo/bin/` and `~/.local/bin/`: here is what goes
/// where, once the tarball is unpacked in `extract_dir`. `installed` lists the
/// `lzsync` binary paths (rsync paths omitted for readability in the UI toast).
pub fn download_and_install(extract_dir: &str, artifact: &str, home: &str, has_rsync: bool) -> (r:
    InstallPlan)
    ensures
        ({
            let from = paths::joined(extract_dir@, artifact@);
            let dirs = install_dirs(home@);
            &&& r.unpacked@ == from
            &&& text::strs(r.dirs@) == dirs
            &&& text::views(r.steps@) == installs_into(from, dirs[0], has_rsync) + installs_into(
                from,
                dirs[1],
                has_rsync,
            )
            &&& text::strs(r.installed@) == seq![
                paths::joined(dirs[0], "lzsync"@),
                paths::joined(dirs[1], "lzsync"@),
            ]
        }),
{
    let unpacked = paths::join(extract_dir, artifact);
    let mut dirs = text::no_strs();
    let d0 = paths::join(home, ".cargo/bin");
    let d1 = paths::join(home, ".local/bin");
    text::push_str(&mut dirs, d0.as_str());
    text::push_str(&mut dirs, d1.as_str());
    let mut steps: Vec<InstallStep> = Vec::new();
    let mut installed = text::no_strs();
    let a = install_step(unpacked.as_str(), d0.as_str(), "lzsync");
    let b = install_step(unpacked.as_str(), d1.as_str(), "lzsync");
    text::push_str(&mut installed, a.dest.as_str());
    text::push_str(&mut installed, b.dest.as_str());
    if has_rsync {
        let ra = install_step(unpacked.as_str(), d0.as_str(), "lzsync-rsync");
        let rb = install_step(unpacked.as_str(), d1.as_str(), "lzsync-rsync");
        steps.push(a);
        steps.push(ra);
        steps.push(b);
        steps.push(rb);
    } else {
        steps.push(a);
        steps.push(b);
    }
    proof {
        let from = paths::joined(extract_dir@, artifact@);
        let ds = install_dirs(home@);
        assert(ds[0] == d0@ && ds[1] == d1@);
        assert(text::views(steps@) =~= installs_into(from, ds[0], has_rsync) + installs_into(
            from,
            ds[1],
            has_rsync,
        ));
    }
    InstallPlan { unpacked, dirs, steps, installed }
}

// ---------------------------------------------------------------------------
// Laws
// ---------------------------------------------------------------------------
/// No version is newer than itself, and of two versions at most one is newer.
pub proof fn law_newer_is_strict(a: (u32, u32, u32), b: (u32, u32, u32))
    ensures
        !later(a, a),
        !(later(a, b) && later(b, a)),
        a != b ==> later(a, b) || later(b, a),
{
}

/// A version newer than a newer one is newer.
pub proof fn law_newer_is_transitive(a: (u32, u32, u32), b: (u32, u32, u32), c: (u32, u32, u32))
    requires
        later(a, b),
        later(b, c),
    ensures
        later(a, c),
{
}

/// A leading `v` makes no difference to a version without blanks.
pub proof fn law_leading_v_ignored(s: Seq<char>)
    requires
        s.len() > 0,
        text::trim(s) == s,
    ensures
        semver(seq!['v'] + s) == semver(s),
{
    let t = seq!['v'] + s;
    assert(t[0] == 'v');
    assert(!text::is_white('v'));
    assert(text::trim_start(t, CharClass::White) == t);
    lemma_trimmed_ends(s);
    assert(t.last() == s.last());
    assert(text::trim(t) == t);
    assert(t.drop_first() =~= s);
}

proof fn lemma_trimmed_ends(s: Seq<char>)
    requires
        s.len() > 0,
        text::trim(s) == s,
    ensures
        !text::is_white(s[0]),
        !text::is_white(s.last()),
{
    lemma_trim_start_len(s, CharClass::White);
    let a = text::trim_start(s, CharClass::White);
    lemma_trim_end_len(a, CharClass::White);
    assert(a.len() == s.len());
    if text::is_white(s[0]) {
        lemma_trim_start_len(s.drop_first(), CharClass::White);
    }
    assert(a == s);
    if text::is_white(s.last()) {
        lemma_trim_end_len(s.drop_last(), CharClass::White);
    }
}

proof fn lemma_trim_start_len(s: Seq<char>, k: CharClass)
    ensures
        text::trim_start(s, k).len() <= s.len(),
        text::trim_start(s, k).len() == s.len() ==> text::trim_start(s, k) == s,
    decreases s.len(),
{
    if s.len() > 0 && k.has(s[0]) {
        lemma_trim_start_len(s.drop_first(), k);
    }
}

proof fn lemma_trim_end_len(s: Seq<char>, k: CharClass)
    ensures
        text::trim_end(s, k).len() <= s.len(),
        text::trim_end(s, k).len() == s.len() ==> text::trim_end(s, k) == s,
    decreases s.len(),
{
    if s.len() > 0 && k.has(s.last()) {
        lemma_trim_end_len(s.drop_last(), k);
    }
}

/// `major.minor.patch`, with a `v` in front or not, is read as those numbers.
pub proof fn law_versions_are_read(a: u32, b: u32, c: u32)
    ensures
        ({
            let s = text::decimal(a as nat) + seq!['.'] + text::decimal(b as nat) + seq!['.']
                + text::decimal(c as nat);
            semver(s) == (a, b, c) && semver(seq!['v'] + s) == (a, b, c) && semver(
                seq![' '] + s + seq!['\n'],
            ) == (a, b, c)
        }),
{
    let (da, db, dc) = (
        text::decimal(a as nat),
        text::decimal(b as nat),
        text::decimal(c as nat),
    );
    let s = da + seq!['.'] + db + seq!['.'] + dc;
    text::lemma_decimal_read_back(a as nat);
    text::lemma_decimal_read_back(c as nat);
    assert(text::is_digit(da[0]));
    assert(text::is_digit(dc[dc.len() - 1]));
    assert(s[0] == da[0]);
    assert(s.last() == dc.last());
    assert(text::trim(s) == s);
    text::lemma_decimal_lacks(a as nat, '.');
    text::lemma_decimal_lacks(b as nat, '.');
    text::lemma_decimal_lacks(c as nat, '.');
    text::lemma_one_line(da, '.');
    text::lemma_one_line(db, '.');
    text::lemma_one_line(dc, '.');
    text::lemma_split_joined(da, db, '.');
    text::lemma_split_joined(da + seq!['.'] + db, dc, '.');
    let parts = seq![da] + seq![db] + seq![dc];
    assert(parts[0] == da && parts[1] == db && parts[2] == dc);
    text::lemma_unsigned_read_back(a as nat, u32::MAX as nat);
    text::lemma_unsigned_read_back(b as nat, u32::MAX as nat);
    text::lemma_unsigned_read_back(c as nat, u32::MAX as nat);
    assert(bare_version(s) == s);
    law_leading_v_ignored(s);
    text::law_trim(seq![' '], s, seq!['\n']);
}

/// Of two versions, the first number in which they differ decides which is newer.
pub proof fn law_the_first_difference_decides(a: (u32, u32, u32), b: (u32, u32, u32))
    ensures
        a.0 > b.0 ==> later(a, b),
        a.0 == b.0 && a.1 > b.1 ==> later(a, b),
        a.0 == b.0 && a.1 == b.1 && a.2 > b.2 ==> later(a, b),
        a.0 == b.0 && a.1 == b.1 && a.2 == b.2 ==> !later(a, b),
{
}

/// Releases are made for Linux and macOS, on both architectures, and are named after
/// them.
pub proof fn law_platforms_are_named(os: Seq<char>, arch: Seq<char>)
    ensures
        platform(os, arch) is Some <==> (os == "linux"@ || os == "macos"@) && (arch == "x86_64"@
            || arch == "aarch64"@),
        platform(os, arch) is Some ==> platform(os, arch) == Some(os + seq!['-'] + arch),
{
    reveal_strlit("linux");
    reveal_strlit("macos");
    reveal_strlit("x86_64");
    reveal_strlit("aarch64");
    reveal_strlit("linux-x86_64");
    reveal_strlit("linux-aarch64");
    reveal_strlit("macos-x86_64");
    reveal_strlit("macos-aarch64");
    assert("linux-x86_64"@ =~= "linux"@ + seq!['-'] + "x86_64"@);
    assert("linux-aarch64"@ =~= "linux"@ + seq!['-'] + "aarch64"@);
    assert("macos-x86_64"@ =~= "macos"@ + seq!['-'] + "x86_64"@);
    assert("macos-aarch64"@ =~= "macos"@ + seq!['-'] + "aarch64"@);
}

/// A release is fetched from the address of its version and its platform, whether the
/// version is written with a `v` or not.
pub proof fn law_addresses_name_the_release(version: Seq<char>, platform: Seq<char>)
    requires
        version.len() > 0,
        version[0] != 'v',
        text::trim(version) == version,
    ensures
        text::contains(artifact_url(version, platform), seq!['/', 'v'] + version + seq!['/']),
        text::contains(artifact_url(version, platform), artifact_name(platform)),
        text::contains(artifact_name(platform), platform),
        artifact_url(seq!['v'] + version, platform) == artifact_url(version, platform),
{
    reveal_strlit("https://github.com/FanFusion/lzsync/releases/download/v");
    reveal_strlit("/");
    let base = "https://github.com/FanFusion/lzsync/releases/download/v"@;
    let n = base.len() as int;
    let url = artifact_url(version, platform);
    assert(bare_version(version) == version);
    let mid = seq!['/', 'v'] + version + seq!['/'];
    let post = artifact_name(platform) + ".tar.gz"@;
    assert(base =~= base.take(n - 2) + seq!['/', 'v']);
    assert(url =~= base.take(n - 2) + mid + post);
    text::lemma_contains_within(base.take(n - 2), mid, post);
    text::lemma_contains_within(
        base + version + "/"@,
        artifact_name(platform),
        ".tar.gz"@,
    );
    let none = Seq::<char>::empty();
    text::lemma_contains_within("lzsync-"@, platform, none);
    assert("lzsync-"@ + platform + none =~= artifact_name(platform));
    let t = seq!['v'] + version;
    assert(!text::is_white('v'));
    lemma_trimmed_ends(version);
    assert(t.last() == version.last());
    assert(text::trim_start(t, CharClass::White) == t);
    assert(text::trim(t) == t);
    assert(t.drop_first() =~= version);
    assert(bare_version(t) == version);
}

/// Each file of a release is taken from where it was unpacked, and goes under its own
/// name to its directory, by way of a file beside it.
pub proof fn law_files_are_installed_under_their_names(
    from: Seq<char>,
    dir: Seq<char>,
    name: Seq<char>,
)
    requires
        name.len() > 2,
        !name.contains('/'),
    ensures
        ({
            let i = install_of(from, dir, name);
            &&& paths::base_name(i.source) == Some(name)
            &&& paths::base_name(i.dest) == Some(name)
            &&& i.source == paths::joined(from, name)
            &&& i.dest == paths::joined(dir, name)
            &&& i.staging != i.dest
            &&& i.dest.is_prefix_of(i.staging)
        }),
{
    reveal_strlit(".new");
    paths::lemma_joined_name(from, name);
    paths::lemma_joined_name(dir, name);
    let i = install_of(from, dir, name);
    assert(i.staging.len() == i.dest.len() + 4);
    assert(i.dest =~= i.staging.subrange(0, i.dest.len() as int));
}

/// A release is installed below the home directory, where both Cargo and users put
/// programs; its rsync goes with it where it has one.
pub proof fn law_both_places_are_installed_to(from: Seq<char>, home: Seq<char>, has_rsync: bool)
    ensures
        install_dirs(home).len() == 2,
        install_dirs(home)[0] == paths::joined(home, ".cargo/bin"@),
        install_dirs(home)[1] == paths::joined(home, ".local/bin"@),
        forall|d: Seq<char>|
            installs_into(from, d, has_rsync).contains(#[trigger] install_of(from, d, "lzsync"@)),
        forall|d: Seq<char>|
            has_rsync ==> installs_into(from, d, has_rsync).contains(
                #[trigger] install_of(from, d, "lzsync-rsync"@),
            ),
        forall|d: Seq<char>| !has_rsync ==> (#[trigger] installs_into(from, d, has_rsync)).len() == 1,
{
    assert forall|d: Seq<char>| installs_into(from, d, has_rsync).contains(
        #[trigger] install_of(from, d, "lzsync"@),
    ) by {
        assert(installs_into(from, d, has_rsync)[0] == install_of(from, d, "lzsync"@));
    }
    assert forall|d: Seq<char>| has_rsync implies installs_into(from, d, has_rsync).contains(
        #[trigger] install_of(from, d, "lzsync-rsync"@),
    ) by {
        assert(installs_into(from, d, has_rsync)[1] == install_of(from, d, "lzsync-rsync"@));
    }
}

} // verus!
