//! Hosts named in an OpenSSH client configuration.
use vstd::prelude::*;

use crate::glob;
use crate::outside;
use crate::paths;
use crate::remote;
use crate::text;
use crate::text::CharClass;

verus! {

/// A resolved SSH config host entry for use as a transfer target.
///
/// Only hosts with a concrete name (no `*` / `?` wildcards) are surfaced, but
/// `Host *` and other matching `Host <pattern>` blocks still fill in fields
/// that a host leaves open (e.g. a `Host *` setting `User ubuntu`).
#[derive(Debug, Clone, PartialEq, Eq)]
pub struct SshHost {
    pub name: String,
    pub hostname: Option<String>,
    pub user: Option<String>,
    pub port: Option<u16>,
    pub identity_file: Option<String>,
}

pub ghost struct HostView {
    pub name: Seq<char>,
    pub hostname: Option<Seq<char>>,
    pub user: Option<Seq<char>>,
    pub port: Option<u16>,
    pub identity_file: Option<Seq<char>>,
}

impl View for SshHost {
    type V = HostView;

    open spec fn view(&self) -> HostView {
        HostView {
            name: self.name@,
            hostname: text::opt(self.hostname),
            user: text::opt(self.user),
            port: self.port,
            identity_file: text::opt(self.identity_file),
        }
    }
}

/// A configuration file together with the files that its `Include` lines
/// name: one entry for each path, in the order of the lines and of the paths on
/// a line, empty where a file could not be read.
pub struct ConfigFile {
    pub text: String,
    pub nested: Vec<Option<ConfigFile>>,
}

/// A `Host` block.
#[derive(Debug)]
pub struct HostBlock {
    pub patterns: Vec<String>,
    pub hostname: Option<String>,
    pub user: Option<String>,
    pub port: Option<u16>,
    pub identity_file: Option<String>,
}

pub ghost struct BlockView {
    pub patterns: Seq<Seq<char>>,
    pub hostname: Option<Seq<char>>,
    pub user: Option<Seq<char>>,
    pub port: Option<u16>,
    pub identity_file: Option<Seq<char>>,
}

impl View for HostBlock {
    type V = BlockView;

    open spec fn view(&self) -> BlockView {
        BlockView {
            patterns: text::strs(self.patterns@),
            hostname: text::opt(self.hostname),
            user: text::opt(self.user),
            port: self.port,
            identity_file: text::opt(self.identity_file),
        }
    }
}

pub open spec fn block_views(bs: Seq<HostBlock>) -> Seq<BlockView> {
    Seq::new(bs.len(), |i: int| bs[i]@)
}

pub open spec fn host_views(hs: Seq<SshHost>) -> Seq<HostView> {
    Seq::new(hs.len(), |i: int| hs[i]@)
}

// ---------------------------------------------------------------------------
// Lines
// ---------------------------------------------------------------------------
/// A key and its value, written `Key Value` or `Key = Value`.
pub open spec fn key_value(line: Seq<char>) -> Option<(Seq<char>, Seq<char>)> {
    let n = text::until(line, CharClass::WhiteOrEquals);
    if n >= line.len() {
        None
    } else {
        Some(
            (
                line.take(n as int),
                text::trim(text::trim_start(line.skip(n as int + 1), CharClass::WhiteOrEquals)),
            ),
        )
    }
}

fn split_kv(line: &str) -> (r: Option<(String, String)>)
    ensures
        match r {
            Some((k, v)) => key_value(line@) == Some((k@, v@)),
            None => key_value(line@) is None,
        },
{
    let cs = text::chars_of(line);
    let n = text::find_class(&cs, CharClass::WhiteOrEquals);
    if n >= cs.len() {
        return None;
    }
    let k = text::string_of(&cs, 0, n);
    let rest = text::string_of(&cs, n + 1, cs.len());
    assert(k@ =~= line@.take(n as int));
    assert(rest@ =~= line@.skip(n + 1));
    let v = text::trimmed_start(rest.as_str(), CharClass::WhiteOrEquals);
    Some((k, text::trimmed(v.as_str())))
}

/// What one line of a configuration says.
pub enum Directive {
    Nothing,
    Host(Vec<String>),
    Match,
    Nested(Vec<String>),
    HostName(String),
    User(String),
    Port(Option<u16>),
    IdentityFile(String),
}

pub ghost enum DirectiveView {
    Nothing,
    Host(Seq<Seq<char>>),
    Match,
    Nested(Seq<Seq<char>>),
    HostName(Seq<char>),
    User(Seq<char>),
    Port(Option<u16>),
    IdentityFile(Seq<char>),
}

impl View for Directive {
    type V = DirectiveView;

    open spec fn view(&self) -> DirectiveView {
        match self {
            Directive::Nothing => DirectiveView::Nothing,
            Directive::Host(p) => DirectiveView::Host(text::strs(p@)),
            Directive::Match => DirectiveView::Match,
            Directive::Nested(p) => DirectiveView::Nested(text::strs(p@)),
            Directive::HostName(v) => DirectiveView::HostName(v@),
            Directive::User(v) => DirectiveView::User(v@),
            Directive::Port(v) => DirectiveView::Port(*v),
            Directive::IdentityFile(v) => DirectiveView::IdentityFile(v@),
        }
    }
}

pub open spec fn port_of(v: Seq<char>) -> Option<u16> {
    match text::unsigned(v, 65535) {
        Some(n) => Some(n as u16),
        None => None,
    }
}

/// Reads a line: blank lines, comments and unknown keys say nothing, and keys
/// are read without regard to case.
pub open spec fn directive(line: Seq<char>) -> DirectiveView {
    let t = text::trim(line);
    if t.len() == 0 || t[0] == '#' {
        DirectiveView::Nothing
    } else {
        match key_value(t) {
            None => DirectiveView::Nothing,
            Some((k, v)) => {
                let key = text::ascii_lowercase(k);
                if key == "host"@ {
                    DirectiveView::Host(text::words(v))
                } else if key == "match"@ {
                    DirectiveView::Match
                } else if key == "include"@ {
                    DirectiveView::Nested(text::words(v))
                } else if key == "hostname"@ {
                    DirectiveView::HostName(v)
                } else if key == "user"@ {
                    DirectiveView::User(v)
                } else if key == "port"@ {
                    DirectiveView::Port(port_of(v))
                } else if key == "identityfile"@ {
                    DirectiveView::IdentityFile(v)
                } else {
                    DirectiveView::Nothing
                }
            },
        }
    }
}

pub fn read_line(line: &str) -> (r: Directive)
    ensures
        r@ == directive(line@),
{
    let t = text::trimmed(line);
    let cs = text::chars_of(t.as_str());
    if cs.len() == 0 || cs[0] == '#' {
        return Directive::Nothing;
    }
    let (k, v) = match split_kv(t.as_str()) {
        Some(kv) => kv,
        None => return Directive::Nothing,
    };
    let key = text::to_ascii_lowercase(k.as_str());
    let key = key.as_str();
    if text::same(key, "host") {
        Directive::Host(text::split_words(v.as_str()))
    } else if text::same(key, "match") {
        Directive::Match
    } else if text::same(key, "include") {
        Directive::Nested(text::split_words(v.as_str()))
    } else if text::same(key, "hostname") {
        Directive::HostName(v)
    } else if text::same(key, "user") {
        Directive::User(v)
    } else if text::same(key, "port") {
        match text::parse_unsigned(v.as_str(), 65535) {
            Some(n) => Directive::Port(Some(n as u16)),
            None => Directive::Port(None),
        }
    } else if text::same(key, "identityfile") {
        Directive::IdentityFile(v)
    } else {
        Directive::Nothing
    }
}

// ---------------------------------------------------------------------------
// Blocks
// ---------------------------------------------------------------------------
/// How deep `Include` lines are followed, the outermost file counted.
pub const MAX_LEVELS: u8 = 5;

pub open spec fn new_block(patterns: Seq<Seq<char>>) -> BlockView {
    BlockView { patterns, hostname: None, user: None, port: None, identity_file: None }
}

/// Where reading stands: the blocks that are complete, the one that is open,
/// and how many entries of the nested files have been used.
pub ghost struct Reading {
    pub done: Seq<BlockView>,
    pub current: Option<BlockView>,
    pub used: nat,
}

/// The open block joins the others, unless it names no pattern.
pub open spec fn closed_blocks(done: Seq<BlockView>, current: Option<BlockView>) -> Seq<BlockView> {
    match current {
        Some(b) => if b.patterns.len() > 0 {
            done.push(b)
        } else {
            done
        },
        None => done,
    }
}

/// What a line within a block sets there. A later line wins over an earlier one.
pub open spec fn set_field(b: BlockView, d: DirectiveView) -> BlockView {
    match d {
        DirectiveView::HostName(v) => BlockView { hostname: Some(v), ..b },
        DirectiveView::User(v) => BlockView { user: Some(v), ..b },
        DirectiveView::Port(Some(n)) => BlockView { port: Some(n), ..b },
        DirectiveView::IdentityFile(v) => BlockView { identity_file: Some(v), ..b },
        _ => b,
    }
}

pub open spec fn nested_file(nested: Seq<Option<ConfigFile>>, i: nat) -> Option<ConfigFile> {
    if i < nested.len() {
        nested[i as int]
    } else {
        None
    }
}

/// The blocks of `n` nested files from entry `from` on.
pub open spec fn nested_blocks(
    nested: Seq<Option<ConfigFile>>,
    from: nat,
    n: nat,
    levels: nat,
) -> Seq<BlockView>
    decreases levels, 0nat, n,
{
    if n == 0 || levels == 0 {
        seq![]
    } else {
        nested_blocks(nested, from, (n - 1) as nat, levels) + match nested_file(
            nested,
            (from + n - 1) as nat,
        ) {
            Some(f) => blocks_in(f.text@, f.nested@, (levels - 1) as nat),
            None => seq![],
        }
    }
}

/// Reads the given lines.
pub open spec fn read_lines(
    lines: Seq<Seq<char>>,
    nested: Seq<Option<ConfigFile>>,
    levels: nat,
) -> Reading
    decreases levels, 1nat, lines.len(),
{
    if lines.len() == 0 {
        Reading { done: seq![], current: None, used: 0 }
    } else {
        let st = read_lines(lines.drop_last(), nested, levels);
        match directive(lines.last()) {
            DirectiveView::Host(ps) => Reading {
                done: closed_blocks(st.done, st.current),
                current: Some(new_block(ps)),
                used: st.used,
            },
            DirectiveView::Match => Reading {
                done: closed_blocks(st.done, st.current),
                current: None,
                used: st.used,
            },
            DirectiveView::Nested(ps) => Reading {
                done: st.done + nested_blocks(nested, st.used, ps.len(), levels),
                current: st.current,
                used: st.used + ps.len(),
            },
            d => Reading {
                current: match st.current {
                    Some(b) => Some(set_field(b, d)),
                    None => None,
                },
                ..st
            },
        }
    }
}

/// The `Host` blocks of a configuration, nested files in their place. Lines of a
/// `Match` block, and lines before the first block, set nothing.
pub open spec fn blocks_in(
    text: Seq<char>,
    nested: Seq<Option<ConfigFile>>,
    levels: nat,
) -> Seq<BlockView>
    decreases levels, 2nat, 0nat,
{
    if levels == 0 {
        seq![]
    } else {
        let st = read_lines(text::lines(text), nested, levels);
        closed_blocks(st.done, st.current)
    }
}

fn close_block(done: &mut Vec<HostBlock>, current: Option<HostBlock>)
    ensures
        block_views(final(done)@) == closed_blocks(
            block_views(old(done)@),
            match current {
                Some(b) => Some(b@),
                None => None,
            },
        ),
{
    if let Some(b) = current {
        if b.patterns.len() > 0 {
            let ghost before = done@;
            done.push(b);
            assert(block_views(done@) =~= block_views(before).push(b@));
        }
    }
}

fn with_field(b: HostBlock, d: Directive) -> (r: HostBlock)
    ensures
        r@ == set_field(b@, d@),
{
    let mut r = b;
    match d {
        Directive::HostName(v) => {
            r.hostname = Some(v);
        },
        Directive::User(v) => {
            r.user = Some(v);
        },
        Directive::Port(Some(n)) => {
            r.port = Some(n);
        },
        Directive::IdentityFile(v) => {
            r.identity_file = Some(v);
        },
        _ => {},
    }
    r
}

fn append_blocks(done: &mut Vec<HostBlock>, more: Vec<HostBlock>)
    ensures
        block_views(final(done)@) == block_views(old(done)@) + block_views(more@),
{
    let mut more = more;
    let ghost a = done@;
    let ghost b = more@;
    done.append(&mut more);
    assert(block_views(done@) =~= block_views(a) + block_views(b));
}

fn parse_blocks(raw: &str, nested: &Vec<Option<ConfigFile>>, levels: u8) -> (r: Vec<HostBlock>)
    ensures
        block_views(r@) == blocks_in(raw@, nested@, levels as nat),
    decreases levels,
{
    let mut done: Vec<HostBlock> = Vec::new();
    assert(block_views(done@) =~= seq![]);
    if levels == 0 {
        return done;
    }
    let mut current: Option<HostBlock> = None;
    let mut pos: usize = 0;
    let ghost mut used: nat = 0;
    let lines = text::split_lines(raw);
    let ghost ls = text::strs(lines@);
    let mut i: usize = 0;
    while i < lines.len()
        invariant
            i <= lines@.len(),
            levels > 0,
            ls == text::strs(lines@),
            pos <= nested@.len(),
            pos == (if used < nested@.len() {
                used as int
            } else {
                nested@.len() as int
            }),
            read_lines(ls.take(i as int), nested@, levels as nat) == (Reading {
                done: block_views(done@),
                current: match current {
                    Some(b) => Some(b@),
                    None => None,
                },
                used,
            }),
        decreases lines@.len() - i,
    {
        let ghost t = ls.take(i + 1);
        assert(t.drop_last() =~= ls.take(i as int));
        assert(t.last() == lines@[i as int]@);
        let d = read_line(lines[i].as_str());
        match d {
            Directive::Host(patterns) => {
                close_block(&mut done, current);
                current = Some(
                    HostBlock {
                        patterns,
                        hostname: None,
                        user: None,
                        port: None,
                        identity_file: None,
                    },
                );
            },
            Directive::Match => {
                close_block(&mut done, current);
                current = None;
            },
            Directive::Nested(paths) => {
                let mut k: usize = 0;
                let ghost before = block_views(done@);
                let ghost used0 = used;
                assert(before + nested_blocks(nested@, used0, 0, levels as nat) =~= before);
                while k < paths.len()
                    invariant
                        k <= paths@.len(),
                        levels > 0,
                        pos <= nested@.len(),
                        used == used0 + k,
                        pos == (if used < nested@.len() {
                            used as int
                        } else {
                            nested@.len() as int
                        }),
                        block_views(done@) == before + nested_blocks(
                            nested@,
                            used0,
                            k as nat,
                            levels as nat,
                        ),
                    decreases paths@.len() - k,
                {
                    let ghost so_far = block_views(done@);
                    if pos < nested.len() {
                        match &nested[pos] {
                            Some(f) => {
                                let more = parse_blocks(f.text.as_str(), &f.nested, levels - 1);
                                append_blocks(&mut done, more);
                            },
                            None => {},
                        }
                        pos = pos + 1;
                    }
                    proof {
                        used = used + 1;
                        assert(block_views(done@) =~= before + nested_blocks(
                            nested@,
                            used0,
                            (k + 1) as nat,
                            levels as nat,
                        ));
                    }
                    k = k + 1;
                }
            },
            d => {
                current = match current {
                    Some(b) => Some(with_field(b, d)),
                    None => None,
                };
            },
        }
        i = i + 1;
    }
    assert(ls.take(i as int) =~= ls);
    close_block(&mut done, current);
    done
}

// ---------------------------------------------------------------------------
// Hosts
// ---------------------------------------------------------------------------
/// Whether a name stands for more than one host, or excludes some.
pub open spec fn is_pattern(p: Seq<char>) -> bool {
    p.contains('*') || p.contains('?') || p.contains('!')
}

fn names_pattern(p: &str) -> (r: bool)
    ensures
        r == is_pattern(p@),
{
    is_wildcard(p) || text::has_char(p, '!')
}

fn is_wildcard(pat: &str) -> (r: bool)
    ensures
        r == (pat@.contains('*') || pat@.contains('?')),
{
    text::has_char(pat, '*') || text::has_char(pat, '?')
}

/// Whether the pattern describes the name, byte for byte.
pub open spec fn describes(pattern: Seq<char>, name: Seq<char>) -> bool {
    glob::matches(
        vstd::utf8::encode_utf8(pattern),
        vstd::utf8::encode_utf8(name),
        0x2au8,
        0x3fu8,
    )
}

/// Support for `*` and `?` only.
fn pattern_matches(pattern: &str, target: &str) -> (r: bool)
    ensures
        r == describes(pattern@, target@),
{
    let p = pattern.as_bytes();
    let t = target.as_bytes();
    assert(p@.skip(0) =~= p@);
    assert(t@.skip(0) =~= t@);
    glob::match_bytes(p, 0, t, 0)
}

/// Whether some pattern of the list describes the name.
pub open spec fn any_describes(patterns: Seq<Seq<char>>, name: Seq<char>) -> bool {
    exists|i: int| 0 <= i < patterns.len() && describes(#[trigger] patterns[i], name)
}

/// Whether a block names a pattern, and so gives defaults to other hosts.
pub open spec fn gives_defaults(b: BlockView) -> bool {
    exists|i: int| 0 <= i < b.patterns.len() && is_pattern(#[trigger] b.patterns[i])
}

pub open spec fn or_else<T>(a: Option<T>, b: Option<T>) -> Option<T> {
    if a is Some {
        a
    } else {
        b
    }
}

/// `h` with its open fields taken from a block.
pub open spec fn fill(h: HostView, b: BlockView) -> HostView {
    HostView {
        name: h.name,
        hostname: or_else(h.hostname, b.hostname),
        user: or_else(h.user, b.user),
        port: or_else(h.port, b.port),
        identity_file: or_else(h.identity_file, b.identity_file),
    }
}

/// `h` with its open fields taken from those blocks that give defaults and
/// describe its name: the first one that sets a field wins.
pub open spec fn with_defaults(h: HostView, blocks: Seq<BlockView>) -> HostView
    decreases blocks.len(),
{
    if blocks.len() == 0 {
        h
    } else {
        let g = with_defaults(h, blocks.drop_last());
        let b = blocks.last();
        if gives_defaults(b) && any_describes(b.patterns, h.name) {
            fill(g, b)
        } else {
            g
        }
    }
}

/// The host `name` of block `b`: what the block sets, then the defaults, and the
/// name itself where no host name is set.
pub open spec fn resolved(b: BlockView, name: Seq<char>, blocks: Seq<BlockView>) -> HostView {
    let h = with_defaults(
        HostView {
            name,
            hostname: b.hostname,
            user: b.user,
            port: b.port,
            identity_file: b.identity_file,
        },
        blocks,
    );
    HostView { hostname: or_else(h.hostname, Some(name)), ..h }
}

pub open spec fn has_name(hs: Seq<HostView>, name: Seq<char>) -> bool {
    exists|i: int| 0 <= i < hs.len() && (#[trigger] hs[i]).name == name
}

/// `hs` and the hosts that the first `n` names of block `b` add: concrete names
/// that no host has yet.
pub open spec fn add_names(
    hs: Seq<HostView>,
    b: BlockView,
    n: nat,
    blocks: Seq<BlockView>,
) -> Seq<HostView>
    decreases n,
{
    if n == 0 {
        hs
    } else {
        let g = add_names(hs, b, (n - 1) as nat, blocks);
        let name = b.patterns[n - 1];
        if is_pattern(name) || has_name(g, name) {
            g
        } else {
            g.push(resolved(b, name, blocks))
        }
    }
}

/// The hosts that the first `n` blocks name.
pub open spec fn hosts_in(blocks: Seq<BlockView>, n: nat) -> Seq<HostView>
    decreases n,
{
    if n == 0 {
        seq![]
    } else {
        let b = blocks[n - 1];
        add_names(hosts_in(blocks, (n - 1) as nat), b, b.patterns.len(), blocks)
    }
}

/// The hosts of a configuration.
pub open spec fn hosts(text: Seq<char>, nested: Seq<Option<ConfigFile>>) -> Seq<HostView> {
    let bs = blocks_in(text, nested, MAX_LEVELS as nat);
    hosts_in(bs, bs.len())
}

fn block_gives_defaults(b: &HostBlock) -> (r: bool)
    ensures
        r == gives_defaults(b@),
{
    let mut i: usize = 0;
    while i < b.patterns.len()
        invariant
            i <= b.patterns@.len(),
            forall|k: int| 0 <= k < i ==> !is_pattern(b@.patterns[k]),
        decreases b.patterns@.len() - i,
    {
        if names_pattern(b.patterns[i].as_str()) {
            assert(is_pattern(b@.patterns[i as int]));
            return true;
        }
        i = i + 1;
    }
    false
}

fn block_describes(b: &HostBlock, name: &str) -> (r: bool)
    ensures
        r == any_describes(b@.patterns, name@),
{
    let mut i: usize = 0;
    while i < b.patterns.len()
        invariant
            i <= b.patterns@.len(),
            forall|k: int| 0 <= k < i ==> !describes(b@.patterns[k], name@),
        decreases b.patterns@.len() - i,
    {
        if pattern_matches(b.patterns[i].as_str(), name) {
            assert(describes(b@.patterns[i as int], name@));
            return true;
        }
        i = i + 1;
    }
    false
}

fn fill_string(a: Option<String>, b: &Option<String>) -> (r: Option<String>)
    ensures
        text::opt(r) == or_else(text::opt(a), text::opt(*b)),
{
    match a {
        Some(s) => Some(s),
        None => match b {
            Some(s) => Some(s.clone()),
            None => None,
        },
    }
}

fn resolve(block: &HostBlock, name: &str, blocks: &Vec<HostBlock>) -> (r: SshHost)
    ensures
        r@ == resolved(block@, name@, block_views(blocks@)),
{
    let ghost bs = block_views(blocks@);
    let mut h = SshHost {
        name: name.to_owned(),
        hostname: text::clone_opt(&block.hostname),
        user: text::clone_opt(&block.user),
        port: block.port,
        identity_file: text::clone_opt(&block.identity_file),
    };
    let ghost h0 = h@;
    let mut i: usize = 0;
    while i < blocks.len()
        invariant
            i <= blocks@.len(),
            bs == block_views(blocks@),
            h.name@ == name@,
            h0.name == name@,
            h@ == with_defaults(h0, bs.take(i as int)),
        decreases blocks@.len() - i,
    {
        let d = &blocks[i];
        assert(bs.take(i + 1).drop_last() =~= bs.take(i as int));
        assert(bs.take(i + 1).last() == d@);
        if block_gives_defaults(d) && block_describes(d, name) {
            let port = match h.port {
                Some(n) => Some(n),
                None => d.port,
            };
            h =
            SshHost {
                name: h.name,
                hostname: fill_string(h.hostname, &d.hostname),
                user: fill_string(h.user, &d.user),
                port,
                identity_file: fill_string(h.identity_file, &d.identity_file),
            };
        }
        i = i + 1;
    }
    assert(bs.take(i as int) =~= bs);
    if h.hostname.is_none() {
        h.hostname = Some(name.to_owned());
    }
    h
}

fn known_name(hosts: &Vec<SshHost>, name: &str) -> (r: bool)
    ensures
        r == has_name(host_views(hosts@), name@),
{
    let mut i: usize = 0;
    while i < hosts.len()
        invariant
            i <= hosts@.len(),
            forall|k: int| 0 <= k < i ==> host_views(hosts@)[k].name != name@,
        decreases hosts@.len() - i,
    {
        if text::same(hosts[i].name.as_str(), name) {
            assert(host_views(hosts@)[i as int].name == name@);
            return true;
        }
        i = i + 1;
    }
    false
}

/// The hosts of the configuration `raw`, whose `Include` lines name the files
/// `nested`. Without `nested` those lines are passed over.
pub fn parse(raw: &str, nested: Option<&Vec<Option<ConfigFile>>>) -> (r: Vec<SshHost>)
    ensures
        host_views(r@) == hosts(
            raw@,
            match nested {
                Some(n) => n@,
                None => seq![],
            },
        ),
{
    let none: Vec<Option<ConfigFile>> = Vec::new();
    let blocks = match nested {
        Some(n) => parse_blocks(raw, n, MAX_LEVELS),
        None => {
            assert(none@ =~= seq![]);
            parse_blocks(raw, &none, MAX_LEVELS)
        },
    };
    let ghost bs = block_views(blocks@);
    let mut found: Vec<SshHost> = Vec::new();
    let mut i: usize = 0;
    assert(host_views(found@) =~= hosts_in(bs, 0));
    while i < blocks.len()
        invariant
            i <= blocks@.len(),
            bs == block_views(blocks@),
            host_views(found@) == hosts_in(bs, i as nat),
        decreases blocks@.len() - i,
    {
        let block = &blocks[i];
        let mut k: usize = 0;
        let ghost before = host_views(found@);
        while k < block.patterns.len()
            invariant
                k <= block.patterns@.len(),
                bs == block_views(blocks@),
                host_views(found@) == add_names(before, block@, k as nat, bs),
            decreases block.patterns@.len() - k,
        {
            let name = block.patterns[k].as_str();
            if !names_pattern(name) && !known_name(&found, name) {
                let h = resolve(block, name, &blocks);
                let ghost old_found = found@;
                found.push(h);
                assert(host_views(found@) =~= host_views(old_found).push(h@));
            }
            k = k + 1;
        }
        i = i + 1;
    }
    found
}

// ---------------------------------------------------------------------------
// Nested files
// ---------------------------------------------------------------------------
/// The file that an `Include` line means by `path`: relative paths are seen
/// from the directory of the file `base` that holds the line.
pub open spec fn nested_path(path: Seq<char>, base: Option<Seq<char>>) -> Seq<char> {
    if paths::absolute(path) {
        path
    } else {
        match base {
            Some(b) => match paths::parent_of(b) {
                Some(d) => paths::joined(d, path),
                None => path,
            },
            None => path,
        }
    }
}

pub fn include_path(path: &str, base: Option<&str>) -> (r: String)
    ensures
        r@ == nested_path(
            path@,
            match base {
                Some(b) => Some(b@),
                None => None,
            },
        ),
{
    if paths::is_absolute(path) {
        return path.to_owned();
    }
    match base {
        Some(b) => match paths::parent(b) {
            Some(d) => paths::join(d.as_str(), path),
            None => path.to_owned(),
        },
        None => path.to_owned(),
    }
}

/// The files meant by words of `Include` lines, their tildes expanded.
pub open spec fn meant_by(
    ws: Seq<Seq<char>>,
    base: Option<Seq<char>>,
    home: Option<Seq<char>>,
) -> Seq<Seq<char>> {
    Seq::new(ws.len(), |i: int| nested_path(outside::tilde_form(ws[i], home), base))
}

/// The words of all `Include` lines among `lines`, in order.
pub open spec fn nested_words(lines: Seq<Seq<char>>) -> Seq<Seq<char>>
    decreases lines.len(),
{
    if lines.len() == 0 {
        seq![]
    } else {
        nested_words(lines.drop_last()) + match directive(lines.last()) {
            DirectiveView::Nested(ps) => ps,
            _ => seq![],
        }
    }
}

/// The files that the `Include` lines of a configuration name, one for each word
/// and in their order: what `nested` of a `ConfigFile` has entries for.
pub fn expand_include(raw: &str, base: Option<&str>, home: Option<&str>) -> (r: Vec<String>)
    ensures
        text::strs(r@) == meant_by(
            nested_words(text::lines(raw@)),
            text::opt_str(base),
            text::opt_str(home),
        ),
{
    let lines = text::split_lines(raw);
    let ghost ls = text::strs(lines@);
    let ghost gbase = text::opt_str(base);
    let ghost ghome = text::opt_str(home);
    let mut r: Vec<String> = Vec::new();
    let mut i: usize = 0;
    assert(text::strs(r@) =~= meant_by(nested_words(ls.take(0)), gbase, ghome));
    while i < lines.len()
        invariant
            i <= lines@.len(),
            ls == text::strs(lines@),
            gbase == text::opt_str(base),
            ghome == text::opt_str(home),
            text::strs(r@) == meant_by(nested_words(ls.take(i as int)), gbase, ghome),
        decreases lines@.len() - i,
    {
        assert(ls.take(i + 1).drop_last() =~= ls.take(i as int));
        assert(ls.take(i + 1).last() == lines@[i as int]@);
        let ghost so_far = nested_words(ls.take(i as int));
        match read_line(lines[i].as_str()) {
            Directive::Nested(words) => {
                let ghost ws = text::strs(words@);
                let mut k: usize = 0;
                assert(so_far + ws.take(0) =~= so_far);
                while k < words.len()
                    invariant
                        k <= words@.len(),
                        ws == text::strs(words@),
                        gbase == text::opt_str(base),
                        ghome == text::opt_str(home),
                        text::strs(r@) == meant_by(so_far + ws.take(k as int), gbase, ghome),
                    decreases words@.len() - k,
                {
                    let e = outside::expand_tilde(words[k].as_str(), home);
                    let p = include_path(e.as_str(), base);
                    let ghost next = so_far + ws.take(k + 1);
                    assert(next =~= (so_far + ws.take(k as int)).push(ws[k as int]));
                    proof {
                        text::lemma_strs_push(r@, p);
                    }
                    r.push(p);
                    assert(text::strs(r@) =~= meant_by(next, gbase, ghome));
                    k = k + 1;
                }
                assert(ws.take(k as int) =~= ws);
            },
            _ => {
                assert(nested_words(ls.take(i + 1)) =~= so_far);
            },
        }
        i = i + 1;
    }
    assert(ls.take(i as int) =~= ls);
    r
}

// ---------------------------------------------------------------------------
// Laws
// ---------------------------------------------------------------------------
pub open spec fn concrete(h: HostView) -> bool {
    !is_pattern(h.name) && h.hostname is Some
}

pub open spec fn distinct_names(hs: Seq<HostView>) -> bool {
    forall|i: int, j: int|
        0 <= i < j < hs.len() ==> (#[trigger] hs[i]).name != (#[trigger] hs[j]).name
}

proof fn lemma_default_name(h: HostView, blocks: Seq<BlockView>)
    ensures
        with_defaults(h, blocks).name == h.name,
        h.hostname is Some ==> with_defaults(h, blocks).hostname == h.hostname,
        h.user is Some ==> with_defaults(h, blocks).user == h.user,
        h.port is Some ==> with_defaults(h, blocks).port == h.port,
        h.identity_file is Some ==> with_defaults(h, blocks).identity_file == h.identity_file,
    decreases blocks.len(),
{
    if blocks.len() > 0 {
        lemma_default_name(h, blocks.drop_last());
    }
}

proof fn lemma_add_names(hs: Seq<HostView>, b: BlockView, n: nat, blocks: Seq<BlockView>)
    requires
        n <= b.patterns.len(),
        distinct_names(hs),
        forall|i: int| 0 <= i < hs.len() ==> concrete(#[trigger] hs[i]),
    ensures
        distinct_names(add_names(hs, b, n, blocks)),
        forall|i: int|
            0 <= i < add_names(hs, b, n, blocks).len() ==> concrete(
                #[trigger] add_names(hs, b, n, blocks)[i],
            ),
    decreases n,
{
    if n > 0 {
        lemma_add_names(hs, b, (n - 1) as nat, blocks);
        let name = b.patterns[n - 1];
        lemma_default_name(
            HostView {
                name,
                hostname: b.hostname,
                user: b.user,
                port: b.port,
                identity_file: b.identity_file,
            },
            blocks,
        );
    }
}

proof fn lemma_hosts_in(blocks: Seq<BlockView>, n: nat)
    requires
        n <= blocks.len(),
    ensures
        distinct_names(hosts_in(blocks, n)),
        forall|i: int|
            0 <= i < hosts_in(blocks, n).len() ==> concrete(#[trigger] hosts_in(blocks, n)[i]),
    decreases n,
{
    if n > 0 {
        lemma_hosts_in(blocks, (n - 1) as nat);
        let b = blocks[n - 1];
        lemma_add_names(hosts_in(blocks, (n - 1) as nat), b, b.patterns.len(), blocks);
    }
}

/// Every host that a configuration yields has a concrete name and a host name,
/// and no two have the same name.
pub proof fn law_hosts_are_concrete(text: Seq<char>, nested: Seq<Option<ConfigFile>>)
    ensures
        distinct_names(hosts(text, nested)),
        forall|i: int|
            0 <= i < hosts(text, nested).len() ==> concrete(#[trigger] hosts(text, nested)[i]),
{
    let bs = blocks_in(text, nested, MAX_LEVELS as nat);
    lemma_hosts_in(bs, bs.len());
}

/// What a host's own block sets wins over every default.
pub proof fn law_own_setting_wins(b: BlockView, name: Seq<char>, blocks: Seq<BlockView>)
    ensures
        b.hostname is Some ==> resolved(b, name, blocks).hostname == b.hostname,
        b.user is Some ==> resolved(b, name, blocks).user == b.user,
        b.port is Some ==> resolved(b, name, blocks).port == b.port,
        b.identity_file is Some ==> resolved(b, name, blocks).identity_file == b.identity_file,
{
    lemma_default_name(
        HostView {
            name,
            hostname: b.hostname,
            user: b.user,
            port: b.port,
            identity_file: b.identity_file,
        },
        blocks,
    );
}

/// What the first block that gives defaults, describes `name` and sets the
/// field sets it to.
pub open spec fn first_default<T>(
    blocks: Seq<BlockView>,
    name: Seq<char>,
    field: spec_fn(BlockView) -> Option<T>,
) -> Option<T>
    decreases blocks.len(),
{
    if blocks.len() == 0 {
        None
    } else {
        let b = blocks.last();
        or_else(
            first_default(blocks.drop_last(), name, field),
            if gives_defaults(b) && any_describes(b.patterns, name) {
                field(b)
            } else {
                None
            },
        )
    }
}

proof fn lemma_first_default(h: HostView, blocks: Seq<BlockView>)
    ensures
        ({
            let g = with_defaults(h, blocks);
            &&& g.name == h.name
            &&& g.hostname == or_else(
                h.hostname,
                first_default(blocks, h.name, |b: BlockView| b.hostname),
            )
            &&& g.user == or_else(h.user, first_default(blocks, h.name, |b: BlockView| b.user))
            &&& g.port == or_else(h.port, first_default(blocks, h.name, |b: BlockView| b.port))
            &&& g.identity_file == or_else(
                h.identity_file,
                first_default(blocks, h.name, |b: BlockView| b.identity_file),
            )
        }),
    decreases blocks.len(),
{
    if blocks.len() > 0 {
        lemma_first_default(h, blocks.drop_last());
    }
}

/// What a host leaves open is taken from the first block that gives defaults,
/// describes the host and sets it; a host name that nothing sets is the name.
pub proof fn law_first_default_wins(b: BlockView, name: Seq<char>, blocks: Seq<BlockView>)
    ensures
        ({
            let h = resolved(b, name, blocks);
            &&& h.name == name
            &&& h.hostname == or_else(
                or_else(b.hostname, first_default(blocks, name, |b: BlockView| b.hostname)),
                Some(name),
            )
            &&& h.user == or_else(b.user, first_default(blocks, name, |b: BlockView| b.user))
            &&& h.port == or_else(b.port, first_default(blocks, name, |b: BlockView| b.port))
            &&& h.identity_file == or_else(
                b.identity_file,
                first_default(blocks, name, |b: BlockView| b.identity_file),
            )
        }),
{
    lemma_first_default(
        HostView {
            name,
            hostname: b.hostname,
            user: b.user,
            port: b.port,
            identity_file: b.identity_file,
        },
        blocks,
    );
}

// ---------------------------------------------------------------------------
// Laws on reading
// ---------------------------------------------------------------------------
pub open spec fn all_of(s: Seq<char>, k: CharClass) -> bool {
    forall|i: int| 0 <= i < s.len() ==> k.has(#[trigger] s[i])
}

pub open spec fn none_of(s: Seq<char>, k: CharClass) -> bool {
    forall|i: int| 0 <= i < s.len() ==> !k.has(#[trigger] s[i])
}

/// `Key Value` or `Key = Value`, indented or not: the parts of such a line.
pub open spec fn well_written(
    indent: Seq<char>,
    key: Seq<char>,
    sep: Seq<char>,
    v: Seq<char>,
) -> bool {
    &&& all_of(indent, CharClass::White)
    &&& key.len() > 0
    &&& key[0] != '#'
    &&& none_of(key, CharClass::WhiteOrEquals)
    &&& sep.len() > 0
    &&& all_of(sep, CharClass::WhiteOrEquals)
    &&& v.len() > 0
    &&& !CharClass::WhiteOrEquals.has(v[0])
    &&& !text::is_white(v.last())
}

proof fn lemma_trim_run(run: Seq<char>, s: Seq<char>, k: CharClass)
    requires
        all_of(run, k),
        s.len() > 0,
        !k.has(s[0]),
    ensures
        text::trim_start(run + s, k) == s,
    decreases run.len(),
{
    if run.len() == 0 {
        assert(run + s =~= s);
    } else {
        assert(k.has(run[0]));
        assert((run + s)[0] == run[0]);
        assert((run + s).drop_first() =~= run.drop_first() + s);
        assert forall|i: int| 0 <= i < run.drop_first().len() implies k.has(
            #[trigger] run.drop_first()[i],
        ) by {
            assert(run.drop_first()[i] == run[i + 1]);
        }
        lemma_trim_run(run.drop_first(), s, k);
    }
}

proof fn lemma_until_sep(key: Seq<char>, rest: Seq<char>, k: CharClass)
    requires
        none_of(key, k),
        rest.len() > 0,
        k.has(rest[0]),
    ensures
        text::until(key + rest, k) == key.len(),
    decreases key.len(),
{
    if key.len() == 0 {
        assert(key + rest =~= rest);
    } else {
        assert(!k.has(key[0]));
        assert((key + rest)[0] == key[0]);
        assert((key + rest).drop_first() =~= key.drop_first() + rest);
        assert forall|i: int| 0 <= i < key.drop_first().len() implies !k.has(
            #[trigger] key.drop_first()[i],
        ) by {
            assert(key.drop_first()[i] == key[i + 1]);
        }
        lemma_until_sep(key.drop_first(), rest, k);
    }
}

proof fn lemma_line(indent: Seq<char>, key: Seq<char>, sep: Seq<char>, v: Seq<char>)
    requires
        well_written(indent, key, sep, v),
    ensures
        ({
            let t = text::trim(indent + key + sep + v);
            t.len() > 0 && t[0] != '#' && key_value(t) == Some((key, v))
        }),
{
    let line = indent + key + sep + v;
    let t = key + sep + v;
    assert(t[0] == key[0]);
    assert(!CharClass::WhiteOrEquals.has(key[0]));
    assert(line =~= indent + t);
    lemma_trim_run(indent, t, CharClass::White);
    assert(t.last() == v.last());
    assert(text::trim(line) == t);
    assert(CharClass::WhiteOrEquals.has(sep[0]));
    lemma_until_sep(key, sep + v, CharClass::WhiteOrEquals);
    assert(t =~= key + (sep + v));
    let n = key.len() as int;
    assert(t.take(n) =~= key);
    let rest = t.skip(n + 1);
    assert(rest =~= sep.skip(1) + v);
    assert forall|i: int| 0 <= i < sep.skip(1).len() implies CharClass::WhiteOrEquals.has(
        #[trigger] sep.skip(1)[i],
    ) by {
        assert(sep.skip(1)[i] == sep[i + 1]);
    }
    lemma_trim_run(sep.skip(1), v, CharClass::WhiteOrEquals);
    assert(text::trim(v) == v);
}

/// In a `Host` block, a line that sets `HostName`, `User`, `Port` or `IdentityFile`, in
/// whatever case and with whatever blanks, sets just that, and leaves what the block has
/// of the others.
pub proof fn law_a_line_sets_its_field(
    lines: Seq<Seq<char>>,
    nested: Seq<Option<ConfigFile>>,
    levels: nat,
    b: BlockView,
    indent: Seq<char>,
    key: Seq<char>,
    sep: Seq<char>,
    v: Seq<char>,
)
    requires
        read_lines(lines, nested, levels).current == Some(b),
        well_written(indent, key, sep, v),
    ensures
        ({
            let k = text::ascii_lowercase(key);
            let before = read_lines(lines, nested, levels);
            let after = read_lines(lines.push(indent + key + sep + v), nested, levels);
            let now = after.current->Some_0;
            &&& k == "hostname"@ || k == "user"@ || k == "port"@ || k == "identityfile"@ ==> {
                &&& after.current is Some
                &&& after.done == before.done
                &&& now.patterns == b.patterns
            }
            &&& k == "hostname"@ ==> now == (BlockView { hostname: Some(v), ..b })
            &&& k == "user"@ ==> now == (BlockView { user: Some(v), ..b })
            &&& k == "identityfile"@ ==> now == (BlockView { identity_file: Some(v), ..b })
            &&& forall|n: u16|
                k == "port"@ && v == #[trigger] text::decimal(n as nat) ==> now == (BlockView {
                    port: Some(n),
                    ..b
                })
        }),
{
    lemma_keys_differ();
    let line = indent + key + sep + v;
    lemma_line(indent, key, sep, v);
    assert(lines.push(line).drop_last() =~= lines);
    assert forall|n: u16| v == #[trigger] text::decimal(n as nat) implies port_of(v) == Some(n) by {
        text::lemma_unsigned_read_back(n as nat, 65535);
    }
}

proof fn lemma_keys_differ()
    ensures
        "host"@.len() == 4,
        "match"@.len() == 5,
        "include"@.len() == 7,
        "hostname"@.len() == 8,
        "user"@.len() == 4,
        "port"@.len() == 4,
        "identityfile"@.len() == 12,
        "host"@[0] == 'h',
        "user"@[0] == 'u',
        "port"@[0] == 'p',
{
    reveal_strlit("host");
    reveal_strlit("match");
    reveal_strlit("include");
    reveal_strlit("hostname");
    reveal_strlit("user");
    reveal_strlit("port");
    reveal_strlit("identityfile");
}

/// A `Host` line opens a block for the names that it lists, in which nothing is set; the
/// block that was open is kept. A `Match` line closes that block, and opens none. Blank
/// lines and comments change nothing.
pub proof fn law_host_lines_open_blocks(
    lines: Seq<Seq<char>>,
    nested: Seq<Option<ConfigFile>>,
    levels: nat,
    indent: Seq<char>,
    key: Seq<char>,
    sep: Seq<char>,
    v: Seq<char>,
    other: Seq<char>,
)
    requires
        well_written(indent, key, sep, v),
        text::trim(other).len() == 0 || text::trim(other)[0] == '#',
    ensures
        ({
            let k = text::ascii_lowercase(key);
            let before = read_lines(lines, nested, levels);
            let after = read_lines(lines.push(indent + key + sep + v), nested, levels);
            let kept = match before.current {
                Some(b) => if b.patterns.len() > 0 {
                    before.done.push(b)
                } else {
                    before.done
                },
                None => before.done,
            };
            &&& k == "host"@ ==> {
                &&& after.done == kept
                &&& after.current is Some
                &&& after.current->Some_0.patterns == text::words(v)
                &&& after.current->Some_0.hostname is None
                &&& after.current->Some_0.user is None
                &&& after.current->Some_0.port is None
                &&& after.current->Some_0.identity_file is None
            }
            &&& k == "match"@ ==> after.done == kept && after.current is None
        }),
        read_lines(lines.push(other), nested, levels) == read_lines(lines, nested, levels),
{
    lemma_keys_differ();
    let line = indent + key + sep + v;
    lemma_line(indent, key, sep, v);
    assert(lines.push(line).drop_last() =~= lines);
    assert(lines.push(other).drop_last() =~= lines);
}

/// A line outside of any `Host` block sets nothing.
pub proof fn law_lines_outside_of_blocks_set_nothing(
    lines: Seq<Seq<char>>,
    nested: Seq<Option<ConfigFile>>,
    levels: nat,
    indent: Seq<char>,
    key: Seq<char>,
    sep: Seq<char>,
    v: Seq<char>,
)
    requires
        read_lines(lines, nested, levels).current is None,
        well_written(indent, key, sep, v),
        text::ascii_lowercase(key) != "host"@,
        text::ascii_lowercase(key) != "include"@,
    ensures
        ({
            let before = read_lines(lines, nested, levels);
            let after = read_lines(lines.push(indent + key + sep + v), nested, levels);
            after.done == before.done && after.current is None
        }),
{
    let line = indent + key + sep + v;
    lemma_line(indent, key, sep, v);
    assert(lines.push(line).drop_last() =~= lines);
}

/// An `Include` line puts the blocks of the files that it names in its place, in order,
/// and leaves the open block open.
pub proof fn law_nested_files_are_read_in_place(
    lines: Seq<Seq<char>>,
    nested: Seq<Option<ConfigFile>>,
    levels: nat,
    indent: Seq<char>,
    key: Seq<char>,
    sep: Seq<char>,
    v: Seq<char>,
    f: ConfigFile,
)
    requires
        levels > 0,
        well_written(indent, key, sep, v),
        text::ascii_lowercase(key) == "include"@,
        text::words(v).len() == 1,
        read_lines(lines, nested, levels).used < nested.len(),
        nested[read_lines(lines, nested, levels).used as int] == Some(f),
    ensures
        ({
            let before = read_lines(lines, nested, levels);
            let after = read_lines(lines.push(indent + key + sep + v), nested, levels);
            &&& after.done == before.done + blocks_in(f.text@, f.nested@, (levels - 1) as nat)
            &&& after.current == before.current
            &&& after.used == before.used + 1
        }),
{
    lemma_keys_differ();
    let line = indent + key + sep + v;
    lemma_line(indent, key, sep, v);
    assert(lines.push(line).drop_last() =~= lines);
    let used = read_lines(lines, nested, levels).used;
    let inner = blocks_in(f.text@, f.nested@, (levels - 1) as nat);
    assert(nested_blocks(nested, used, 0, levels) =~= seq![]);
    assert(nested_blocks(nested, used, 1, levels) =~= inner);
}

proof fn lemma_add_names_keeps(hs: Seq<HostView>, b: BlockView, n: nat, blocks: Seq<BlockView>)
    requires
        n <= b.patterns.len(),
    ensures
        hs.is_prefix_of(add_names(hs, b, n, blocks)),
        forall|j: int|
            0 <= j < n && !is_pattern(#[trigger] b.patterns[j]) ==> has_name(
                add_names(hs, b, n, blocks),
                b.patterns[j],
            ),
    decreases n,
{
    if n > 0 {
        let m = (n - 1) as nat;
        lemma_add_names_keeps(hs, b, m, blocks);
        let g = add_names(hs, b, m, blocks);
        let all = add_names(hs, b, n, blocks);
        let name = b.patterns[n - 1];
        assert(g.is_prefix_of(all));
        assert forall|j: int| 0 <= j < n && !is_pattern(#[trigger] b.patterns[j]) implies has_name(
            all,
            b.patterns[j],
        ) by {
            if j < m {
                let i = choose|i: int| 0 <= i < g.len() && (#[trigger] g[i]).name == b.patterns[j];
                assert(all[i] == g[i]);
            } else if !has_name(g, name) {
                lemma_default_name(
                    HostView {
                        name,
                        hostname: b.hostname,
                        user: b.user,
                        port: b.port,
                        identity_file: b.identity_file,
                    },
                    blocks,
                );
                assert(all[g.len() as int].name == name);
            }
        }
    }
}

proof fn lemma_all_named(blocks: Seq<BlockView>, n: nat, i: int, j: int)
    requires
        n <= blocks.len(),
        0 <= i < n,
        0 <= j < blocks[i].patterns.len(),
        !is_pattern(blocks[i].patterns[j]),
    ensures
        has_name(hosts_in(blocks, n), blocks[i].patterns[j]),
    decreases n,
{
    let m = (n - 1) as nat;
    let b = blocks[n - 1];
    let before = hosts_in(blocks, m);
    let all = hosts_in(blocks, n);
    lemma_add_names_keeps(before, b, b.patterns.len(), blocks);
    if i < m {
        lemma_all_named(blocks, m, i, j);
        let k = choose|k: int|
            0 <= k < before.len() && (#[trigger] before[k]).name == blocks[i].patterns[j];
        assert(all[k] == before[k]);
    }
}

/// Every name that a block lists, but for patterns, is offered as a host.
pub proof fn law_every_listed_name_is_offered(
    text: Seq<char>,
    nested: Seq<Option<ConfigFile>>,
    i: int,
    j: int,
)
    requires
        0 <= i < blocks_in(text, nested, MAX_LEVELS as nat).len(),
        0 <= j < blocks_in(text, nested, MAX_LEVELS as nat)[i].patterns.len(),
        ({
            let p = blocks_in(text, nested, MAX_LEVELS as nat)[i].patterns[j];
            !p.contains('*') && !p.contains('?') && !p.contains('!')
        }),
    ensures
        has_name(
            hosts(text, nested),
            blocks_in(text, nested, MAX_LEVELS as nat)[i].patterns[j],
        ),
{
    let bs = blocks_in(text, nested, MAX_LEVELS as nat);
    lemma_all_named(bs, bs.len(), i, j);
}

/// The lines after the first neither open nor close a block, nor name other files.
pub open spec fn only_settings(lines: Seq<Seq<char>>) -> bool {
    forall|i: int|
        1 <= i < lines.len() ==> !(directive(#[trigger] lines[i]) is Host) && !(directive(
            lines[i],
        ) is Match) && !(directive(lines[i]) is Nested)
}

proof fn lemma_one_block(lines: Seq<Seq<char>>, nested: Seq<Option<ConfigFile>>, levels: nat)
    requires
        lines.len() > 0,
        directive(lines[0]) is Host,
        only_settings(lines),
    ensures
        ({
            let st = read_lines(lines, nested, levels);
            &&& st.done.len() == 0
            &&& st.current is Some
            &&& st.current->Some_0.patterns == directive(lines[0])->Host_0
        }),
    decreases lines.len(),
{
    let init = lines.drop_last();
    if init.len() == 0 {
        assert(read_lines(init, nested, levels) == (Reading {
            done: seq![],
            current: None,
            used: 0,
        }));
        assert(lines.last() == lines[0]);
    } else {
        assert(init[0] == lines[0]);
        assert forall|i: int| 1 <= i < init.len() implies !(directive(#[trigger] init[i]) is Host)
            && !(directive(init[i]) is Match) && !(directive(init[i]) is Nested) by {
            assert(init[i] == lines[i]);
        }
        lemma_one_block(init, nested, levels);
        assert(lines.last() == lines[lines.len() - 1]);
    }
}

proof fn lemma_field_stays(
    lines: Seq<Seq<char>>,
    nested: Seq<Option<ConfigFile>>,
    levels: nat,
    k: int,
)
    requires
        lines.len() > 0,
        directive(lines[0]) is Host,
        only_settings(lines),
        1 <= k < lines.len(),
    ensures
        ({
            let b = read_lines(lines, nested, levels).current->Some_0;
            let at = directive(lines[k]);
            &&& at is HostName && (forall|i: int|
                k < i < lines.len() ==> !(directive(#[trigger] lines[i]) is HostName))
                ==> b.hostname == Some(at->HostName_0)
            &&& at is User && (forall|i: int|
                k < i < lines.len() ==> !(directive(#[trigger] lines[i]) is User)) ==> b.user
                == Some(at->User_0)
            &&& at is Port && at->Port_0 is Some && (forall|i: int|
                k < i < lines.len() ==> !(directive(#[trigger] lines[i]) is Port)) ==> b.port
                == at->Port_0
            &&& at is IdentityFile && (forall|i: int|
                k < i < lines.len() ==> !(directive(#[trigger] lines[i]) is IdentityFile))
                ==> b.identity_file == Some(at->IdentityFile_0)
        }),
    decreases lines.len(),
{
    let init = lines.drop_last();
    assert(init[0] == lines[0]);
    assert forall|i: int| 1 <= i < init.len() implies !(directive(#[trigger] init[i]) is Host)
        && !(directive(init[i]) is Match) && !(directive(init[i]) is Nested) by {
        assert(init[i] == lines[i]);
    }
    lemma_one_block(init, nested, levels);
    assert(lines.last() == lines[lines.len() - 1]);
    if k < init.len() {
        lemma_field_stays(init, nested, levels, k);
        assert(init[k] == lines[k]);
        assert forall|i: int| k < i < init.len() implies #[trigger] init[i] == lines[i] by {}
    }
}

/// In a configuration of one `Host` block for one name, that name is the one host that is
/// offered, and a line of the block that sets a field, with none after it that sets it
/// again, gives the host that field.
pub proof fn law_a_setting_reaches_its_host(
    text: Seq<char>,
    nested: Seq<Option<ConfigFile>>,
    name: Seq<char>,
    hkey: Seq<char>,
    hsep: Seq<char>,
    k: int,
    indent: Seq<char>,
    key: Seq<char>,
    sep: Seq<char>,
    v: Seq<char>,
)
    requires
        text::lines(text).len() > 1,
        well_written(seq![], hkey, hsep, name),
        text::ascii_lowercase(hkey) == "host"@,
        text::lines(text)[0] == hkey + hsep + name,
        remote::solid(name),
        !name.contains('*') && !name.contains('?') && !name.contains('!'),
        only_settings(text::lines(text)),
        1 <= k < text::lines(text).len(),
        well_written(indent, key, sep, v),
        text::lines(text)[k] == indent + key + sep + v,
    ensures
        ({
            let hs = hosts(text, nested);
            let ls = text::lines(text);
            let low = text::ascii_lowercase(key);
            &&& hs.len() == 1
            &&& hs[0].name == name
            &&& low == "hostname"@ && (forall|i: int|
                k < i < ls.len() ==> !(directive(#[trigger] ls[i]) is HostName)) ==> hs[0].hostname
                == Some(v)
            &&& low == "user"@ && (forall|i: int|
                k < i < ls.len() ==> !(directive(#[trigger] ls[i]) is User)) ==> hs[0].user == Some(
                v,
            )
            &&& low == "identityfile"@ && (forall|i: int|
                k < i < ls.len() ==> !(directive(#[trigger] ls[i]) is IdentityFile))
                ==> hs[0].identity_file == Some(v)
            &&& forall|n: u16|
                low == "port"@ && v == #[trigger] text::decimal(n as nat) && (forall|i: int|
                    k < i < ls.len() ==> !(directive(#[trigger] ls[i]) is Port)) ==> hs[0].port
                    == Some(n)
        }),
{
    lemma_keys_differ();
    let ls = text::lines(text);
    let levels = MAX_LEVELS as nat;
    lemma_line(seq![], hkey, hsep, name);
    assert(Seq::<char>::empty() + hkey + hsep + name =~= hkey + hsep + name);
    remote::lemma_words_in_front(name, seq![]);
    assert(directive(ls[0]) == DirectiveView::Host(seq![name]));
    lemma_line(indent, key, sep, v);
    lemma_one_block(ls, nested, levels);
    lemma_field_stays(ls, nested, levels, k);
    let b = read_lines(ls, nested, levels).current->Some_0;
    let bs = blocks_in(text, nested, levels);
    assert(bs =~= seq![b]);
    assert(b.patterns == seq![name]);
    assert(!is_pattern(name));
    assert(hosts_in(bs, 0).len() == 0);
    assert(bs[0] == b);
    assert(b.patterns[0] == name);
    assert(add_names(hosts_in(bs, 0), b, 0, bs) == hosts_in(bs, 0));
    assert(!has_name(hosts_in(bs, 0), name));
    let h = HostView {
        name,
        hostname: b.hostname,
        user: b.user,
        port: b.port,
        identity_file: b.identity_file,
    };
    assert(!gives_defaults(b));
    assert(bs.drop_last() =~= seq![]);
    assert(with_defaults(h, bs.drop_last()) == h);
    assert(with_defaults(h, bs) == h);
    assert(hosts_in(bs, 1) =~= seq![resolved(b, name, bs)]);
    assert forall|n: u16| v == #[trigger] text::decimal(n as nat) implies port_of(v) == Some(n) by {
        text::lemma_unsigned_read_back(n as nat, 65535);
    }
}

/// A star as a pattern describes every name, and a pattern of ASCII characters that ends
/// in its only wildcard, a star, describes every such name that starts as it does.
pub proof fn law_stars_describe(prefix: Seq<char>, rest: Seq<char>, name: Seq<char>)
    requires
        vstd::utf8::is_ascii_chars(prefix),
        vstd::utf8::is_ascii_chars(rest),
        !is_pattern(prefix),
    ensures
        describes(seq!['*'], name),
        describes(prefix + seq!['*'], prefix + rest),
        is_pattern(prefix + seq!['*']),
{
    let star = seq!['*'];
    vstd::utf8::is_ascii_chars_encode_utf8(star);
    let none = Seq::<u8>::empty();
    let t = vstd::utf8::encode_utf8(name);
    assert(star[0] as u8 == 0x2au8);
    assert(vstd::utf8::encode_utf8(star) =~= seq![0x2au8] + none);
    assert(t.skip(t.len() as int) =~= none);
    glob::law_star_takes_any_run(none, t, t.len() as int, 0x2au8, 0x3fu8);
    let p = prefix + star;
    let n = prefix + rest;
    assert(vstd::utf8::is_ascii_chars(p));
    assert(vstd::utf8::is_ascii_chars(n));
    vstd::utf8::is_ascii_chars_encode_utf8(prefix);
    vstd::utf8::is_ascii_chars_encode_utf8(p);
    vstd::utf8::is_ascii_chars_encode_utf8(n);
    let pb = vstd::utf8::encode_utf8(prefix);
    let nb = vstd::utf8::encode_utf8(n);
    let all = vstd::utf8::encode_utf8(p);
    assert forall|i: int| 0 <= i < p.len() implies all[i] == (pb + seq![0x2au8])[i] by {
        assert(p[i] as u8 == all[i]);
        if i < prefix.len() {
            assert(prefix[i] as u8 == pb[i]);
        }
    }
    assert(all =~= pb + seq![0x2au8]);
    assert forall|i: int| 0 <= i < pb.len() implies pb[i] != 0x2au8 && pb[i] != 0x3fu8 by {
        assert(prefix[i] as u8 == pb[i]);
        assert(prefix.contains(prefix[i]));
    }
    assert forall|i: int| 0 <= i < pb.len() implies pb[i] == #[trigger] nb[i] by {
        assert(prefix[i] as u8 == pb[i]);
        assert(n[i] as u8 == nb[i]);
    }
    assert(pb =~= nb.subrange(0, pb.len() as int));
    glob::law_star_at_the_end(pb, nb, 0x2au8, 0x3fu8);
    assert(p[prefix.len() as int] == '*');
}

/// What a `Host *` block sets is given to every host that leaves it open, as far as no
/// block before it does.
pub proof fn law_a_star_block_gives_defaults(
    b: BlockView,
    name: Seq<char>,
    before: Seq<BlockView>,
    d: BlockView,
    after: Seq<BlockView>,
)
    requires
        d.patterns == seq![seq!['*']],
        forall|i: int| 0 <= i < before.len() ==> !gives_defaults(#[trigger] before[i]),
    ensures
        ({
            let h = resolved(b, name, before.push(d) + after);
            &&& b.user is None && d.user is Some ==> h.user == d.user
            &&& b.port is None && d.port is Some ==> h.port == d.port
            &&& b.identity_file is None && d.identity_file is Some ==> h.identity_file
                == d.identity_file
            &&& b.hostname is None && d.hostname is Some ==> h.hostname == d.hostname
        }),
{
    let h0 = HostView {
        name,
        hostname: b.hostname,
        user: b.user,
        port: b.port,
        identity_file: b.identity_file,
    };
    let none = Seq::<char>::empty();
    law_stars_describe(none, none, name);
    assert(d.patterns[0] == seq!['*']);
    assert(seq!['*'][0] == '*');
    assert(is_pattern(d.patterns[0]));
    assert(gives_defaults(d));
    assert(any_describes(d.patterns, name));
    lemma_no_defaults(h0, before);
    assert(before.push(d).drop_last() =~= before);
    assert(with_defaults(h0, before.push(d)) == fill(h0, d));
    lemma_defaults_stay(h0, before.push(d), after);
}

proof fn lemma_no_defaults(h: HostView, blocks: Seq<BlockView>)
    requires
        forall|i: int| 0 <= i < blocks.len() ==> !gives_defaults(#[trigger] blocks[i]),
    ensures
        with_defaults(h, blocks) == h,
    decreases blocks.len(),
{
    if blocks.len() > 0 {
        let init = blocks.drop_last();
        assert forall|i: int| 0 <= i < init.len() implies !gives_defaults(#[trigger] init[i]) by {
            assert(init[i] == blocks[i]);
        }
        lemma_no_defaults(h, init);
        assert(!gives_defaults(blocks[blocks.len() - 1]));
    }
}

proof fn lemma_defaults_stay(h: HostView, a: Seq<BlockView>, b: Seq<BlockView>)
    ensures
        ({
            let x = with_defaults(h, a);
            let y = with_defaults(h, a + b);
            &&& x.user is Some ==> y.user == x.user
            &&& x.port is Some ==> y.port == x.port
            &&& x.identity_file is Some ==> y.identity_file == x.identity_file
            &&& x.hostname is Some ==> y.hostname == x.hostname
        }),
    decreases b.len(),
{
    if b.len() == 0 {
        assert(a + b =~= a);
    } else {
        assert((a + b).drop_last() =~= a + b.drop_last());
        lemma_defaults_stay(h, a, b.drop_last());
    }
}

/// A file that an `Include` line names by a relative path lies beside the file that holds
/// the line; an absolute path stands for itself, and a tilde for the home directory.
pub proof fn law_nested_files_lie_beside(
    dir: Seq<char>,
    file: Seq<char>,
    name: Seq<char>,
    home: Seq<char>,
)
    requires
        dir.len() > 1,
        dir.last() != '/',
        dir.last() != '.',
        file.len() > 1,
        !file.contains('/'),
        name.len() > 0,
        name[0] != '/',
        name[0] != '~',
        home.len() > 0,
        home[0] == '/',
    ensures
        ({
            let base = Some(dir + seq!['/'] + file);
            let ws = seq![name, seq!['/'] + name, seq!['~', '/'] + name];
            let meant = meant_by(ws, base, Some(home));
            &&& meant[0] == dir + seq!['/'] + name
            &&& meant[1] == seq!['/'] + name
            &&& meant[2] == home + seq!['/'] + name
        }),
{
    let base = Some(dir + seq!['/'] + file);
    let ws = seq![name, seq!['/'] + name, seq!['~', '/'] + name];
    let meant = meant_by(ws, base, Some(home));
    paths::law_the_parent_is_the_directory(dir, file);
    assert(meant[0] =~= dir + seq!['/'] + name);
    assert(ws[2].skip(1) =~= seq!['/'] + name);
    assert(outside::tilde_form(ws[2], Some(home)) =~= home + seq!['/'] + name);
}

} // verus!
