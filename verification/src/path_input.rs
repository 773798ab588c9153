//! Pasted and dropped text, read as paths.
use vstd::prelude::*;

use crate::environment;
use crate::environment::{Environment, EnvironmentView};
use crate::outside;
use crate::text;
use crate::text::CharClass;

verus! {

// ---------------------------------------------------------------------------
// One path
// ---------------------------------------------------------------------------
/// Whether `s` stands between two double or two single quotes.
pub open spec fn quoted(s: Seq<char>) -> bool {
    &&& s.len() >= 2
    &&& (s[0] == '"' && s.last() == '"') || (s[0] == '\'' && s.last() == '\'')
}

/// What stands between the quotes.
pub open spec fn between_quotes(s: Seq<char>) -> Seq<char> {
    s.subrange(1, s.len() - 1)
}

fn strip_outer_quotes(s: &str) -> (r: Option<String>)
    ensures
        text::opt(r) == (if quoted(s@) {
            Some(between_quotes(s@))
        } else {
            None
        }),
{
    let cs = text::chars_of(s);
    if cs.len() >= 2 {
        let first = cs[0];
        let last = cs[cs.len() - 1];
        if (first == '"' && last == '"') || (first == '\'' && last == '\'') {
            return Some(text::string_of(&cs, 1, cs.len() - 1));
        }
    }
    None
}

/// Whether `s` stands between one pair of quotes: the same quote does not occur
/// inside.
pub open spec fn sole_quoted(s: Seq<char>) -> bool {
    quoted(s) && !between_quotes(s).contains(s[0])
}

fn strip_sole_quotes(s: &str) -> (r: Option<String>)
    ensures
        text::opt(r) == (if sole_quoted(s@) {
            Some(between_quotes(s@))
        } else {
            None
        }),
{
    let cs = text::chars_of(s);
    match strip_outer_quotes(s) {
        Some(inner) => if text::has_char(inner.as_str(), cs[0]) {
            None
        } else {
            Some(inner)
        },
        None => None,
    }
}

/// The path of what follows `file://`: all from the first slash on, or the whole
/// where there is none.
pub open spec fn uri_path(rest: Seq<char>) -> Seq<char> {
    let i = text::until(rest, CharClass::Just('/'));
    if i < rest.len() {
        rest.skip(i as int)
    } else {
        rest
    }
}

fn split_file_uri_host(rest: &str) -> (r: String)
    ensures
        r@ == uri_path(rest@),
{
    let cs = text::chars_of(rest);
    let i = text::find_class(&cs, CharClass::Just('/'));
    if i < cs.len() {
        let r = text::string_of(&cs, i, cs.len());
        assert(r@ =~= rest@.skip(i as int));
        r
    } else {
        rest.to_owned()
    }
}

/// Characters that a backslash makes ordinary.
pub open spec fn escapable(c: char) -> bool {
    c == ' ' || c == '\\' || c == '"' || c == '\'' || c == '(' || c == ')' || c == '&' || c == ';'
        || c == '$' || c == '`'
}

/// `s` without the backslashes in front of such characters; any other backslash
/// stays.
pub open spec fn unescaped(s: Seq<char>) -> Seq<char>
    decreases s.len(),
{
    if s.len() == 0 {
        seq![]
    } else if s[0] == '\\' && s.len() > 1 && escapable(s[1]) {
        seq![s[1]] + unescaped(s.skip(2))
    } else {
        seq![s[0]] + unescaped(s.skip(1))
    }
}

/// Takes away the backslashes that make the character behind them ordinary.
pub fn unescape_backslash(s: &str) -> (r: String)
    ensures
        r@ == unescaped(s@),
{
    let cs = text::chars_of(s);
    let mut out = String::new();
    let mut i: usize = 0;
    assert(cs@.skip(0) =~= cs@);
    assert(out@ + unescaped(cs@) =~= unescaped(cs@));
    while i < cs.len()
        invariant
            cs@ == s@,
            i <= cs@.len(),
            unescaped(s@) == out@ + unescaped(cs@.skip(i as int)),
        decreases cs@.len() - i,
    {
        let ghost rest = cs@.skip(i as int);
        let ghost before = out@;
        let c = cs[i];
        let mut step: usize = 1;
        let mut keep = c;
        if c == '\\' && cs.len() - i > 1 {
            let next = cs[i + 1];
            if next == ' ' || next == '\\' || next == '"' || next == '\'' || next == '(' || next
                == ')' || next == '&' || next == ';' || next == '$' || next == '`' {
                keep = next;
                step = 2;
            }
        }
        out.push(keep);
        assert(rest.skip(step as int) =~= cs@.skip(i + step));
        assert(unescaped(rest) == seq![keep] + unescaped(rest.skip(step as int)));
        assert(before + (seq![keep] + unescaped(rest.skip(step as int))) =~= out@ + unescaped(
            cs@.skip(i + step),
        ));
        i = i + step;
    }
    assert(cs@.skip(i as int) =~= seq![]);
    assert(out@ + unescaped(cs@.skip(i as int)) =~= out@);
    out
}

pub open spec fn unquoted(s: Seq<char>) -> Seq<char> {
    if quoted(s) {
        between_quotes(s)
    } else {
        s
    }
}

pub open spec fn uri_decoded(s: Seq<char>) -> Seq<char> {
    match text::after_prefix(s, "file://"@) {
        Some(rest) => outside::percent_decoded(uri_path(rest)),
        None => s,
    }
}

/// The path that a token spells before `~` and variables are expanded: outer
/// quotes go, a `file://` URL is decoded, and escapes are resolved.
pub open spec fn unexpanded(token: Seq<char>) -> Seq<char> {
    unescaped(uri_decoded(unquoted(text::trim(token))))
}

pub fn unexpanded_path(token: &str) -> (r: String)
    ensures
        r@ == unexpanded(token@),
        ({
            let rest = text::after_prefix(unquoted(text::trim(token@)), "file://"@);
            rest is Some && !uri_path(rest->0).contains('%') ==> r@ == unescaped(uri_path(rest->0))
        }),
{
    let t = text::trimmed(token);
    let s = match strip_outer_quotes(t.as_str()) {
        Some(inner) => inner,
        None => t,
    };
    let d = match text::strip_prefix(s.as_str(), "file://") {
        Some(rest) => {
            let path = split_file_uri_host(rest.as_str());
            outside::decode_percent(path.as_str())
        },
        None => s,
    };
    unescape_backslash(d.as_str())
}

/// The path that a token spells, where `expanded` is what the shell rules make
/// of its `~` and variables; a path that they fail on stays as it is.
pub fn expanded_path(path: String, expanded: Result<String, String>) -> (r: String)
    ensures
        r@ == (match expanded {
            Ok(e) => e@,
            Err(_) => path@,
        }),
{
    match expanded {
        Ok(e) => e,
        Err(_) => path,
    }
}

/// The path that a token spells on the machine described by `env`.
pub open spec fn meaning(token: Seq<char>, env: EnvironmentView) -> Seq<char> {
    match outside::shell_expanded(unexpanded(token), env) {
        Ok(e) => e,
        Err(_) => unexpanded(token),
    }
}

fn normalize_single(token: &str, env: &Environment) -> (r: String)
    ensures
        r@ == meaning(token@, env@),
{
    let u = unexpanded_path(token);
    let e = outside::expand_shell(u.as_str(), env);
    expanded_path(u, e)
}

// ---------------------------------------------------------------------------
// Many paths
// ---------------------------------------------------------------------------
/// The tokens of one line: what a single pair of quotes around it holds, else its
/// shell words, else the line itself.
pub open spec fn line_tokens(line: Seq<char>) -> Seq<Seq<char>> {
    if sole_quoted(line) {
        seq![between_quotes(line)]
    } else {
        words_or(line, outside::shell_words(line))
    }
}

/// The words where there are any, else the line itself.
pub open spec fn words_or(line: Seq<char>, words: Option<Seq<Seq<char>>>) -> Seq<Seq<char>> {
    match words {
        Some(ws) => if ws.len() > 0 {
            ws
        } else {
            seq![line]
        },
        None => seq![line],
    }
}

/// What a line is split into, where `words` are the shell words found in it.
pub fn words_or_line(line: String, words: Option<Vec<String>>) -> (r: Vec<String>)
    ensures
        text::strs(r@) == words_or(
            line@,
            match words {
                Some(ws) => Some(text::strs(ws@)),
                None => None,
            },
        ),
{
    if let Some(ws) = words {
        assert(text::strs(ws@).len() == ws@.len());
        if ws.len() > 0 {
            return ws;
        }
    }
    let ghost l = line@;
    let mut r: Vec<String> = Vec::new();
    r.push(line);
    assert(text::strs(r@) =~= seq![l]);
    r
}

/// A line without white space at its ends.
pub open spec fn clean(line: Seq<char>) -> Seq<char> {
    text::trim_end(text::trim(line), CharClass::Just('\r'))
}

/// The tokens of several lines; blank lines have none.
pub open spec fn all_tokens(lines: Seq<Seq<char>>) -> Seq<Seq<char>>
    decreases lines.len(),
{
    if lines.len() == 0 {
        seq![]
    } else {
        let l = clean(lines.last());
        all_tokens(lines.drop_last()) + if l.len() == 0 {
            seq![]
        } else {
            line_tokens(l)
        }
    }
}

/// The tokens of a paste, each of which spells one path.
pub open spec fn tokens(raw: Seq<char>) -> Seq<Seq<char>> {
    let t = text::trim(raw);
    if t.len() == 0 {
        seq![]
    } else if t.contains('\n') {
        all_tokens(text::split(t, CharClass::Just('\n')))
    } else {
        line_tokens(t)
    }
}

proof fn lemma_in_quotes(ws: Seq<Seq<char>>, q: char)
    requires
        ws.len() > 0,
        forall|i: int| 0 <= i < ws.len() ==> outside::quotable(#[trigger] ws[i], q),
    ensures
        ({
            let s = outside::in_quotes(ws, q);
            &&& s.len() >= 2
            &&& s[0] == q
            &&& s.last() == q
            &&& sole_quoted(s) == (ws.len() == 1)
            &&& ws.len() == 1 ==> seq![between_quotes(s)] == ws
        }),
    decreases ws.len(),
{
    let s = outside::in_quotes(ws, q);
    let w = ws.last();
    assert(outside::quotable(ws[ws.len() - 1], q));
    let before = outside::in_quotes(ws.drop_last(), q);
    if ws.len() == 1 {
        assert(before =~= seq![]);
        assert(s =~= seq![q] + w + seq![q]);
        assert(between_quotes(s) =~= w);
        assert(seq![between_quotes(s)] =~= ws);
    } else {
        assert forall|i: int| 0 <= i < ws.drop_last().len() implies outside::quotable(
            #[trigger] ws.drop_last()[i],
            q,
        ) by {
            assert(outside::quotable(ws[i], q));
        }
        lemma_in_quotes(ws.drop_last(), q);
        assert(s =~= before + seq![' '] + seq![q] + w + seq![q]);
        let i = before.len() + 1;
        assert(s[i as int] == q);
        assert(between_quotes(s)[i - 1] == q);
    }
}

proof fn lemma_in_quotes_one_line(ws: Seq<Seq<char>>, q: char)
    requires
        q == '"' || q == '\'',
        forall|i: int| 0 <= i < ws.len() ==> !(#[trigger] ws[i]).contains('\n'),
    ensures
        !outside::in_quotes(ws, q).contains('\n'),
    decreases ws.len(),
{
    if ws.len() > 0 {
        let s = outside::in_quotes(ws, q);
        let before = outside::in_quotes(ws.drop_last(), q);
        let w = ws[ws.len() - 1];
        assert forall|i: int| 0 <= i < ws.drop_last().len() implies !(
        #[trigger] ws.drop_last()[i]).contains('\n') by {
            assert(!ws[i].contains('\n'));
        }
        lemma_in_quotes_one_line(ws.drop_last(), q);
        if s.contains('\n') {
            let i = choose|i: int| 0 <= i < s.len() && s[i] == '\n';
            let gap: int = if ws.len() == 1 {
                0
            } else {
                1
            };
            let from = before.len() + gap + 1;
            if i < before.len() {
                assert(before[i] == '\n');
            } else if from <= i < from + w.len() {
                assert(w[i - from] == '\n');
            }
        }
    }
}

fn split_line(line: &str) -> (r: Vec<String>)
    ensures
        text::strs(r@) == line_tokens(line@),
        !sole_quoted(line@) && outside::plain_word(line@) ==> text::strs(r@) == seq![line@],
        forall|w: Seq<char>| #[trigger]
            outside::spaced_word(w) && !sole_quoted(line@) && line@ == outside::escape_spaces(w)
                ==> text::strs(r@) == seq![w],
        forall|ws: Seq<Seq<char>>, q: char|
            line@ == #[trigger] outside::in_quotes(ws, q) && ws.len() > 0 && (forall|i: int|
                0 <= i < ws.len() ==> outside::quotable(#[trigger] ws[i], q)) ==> text::strs(r@)
                == ws,
{
    proof {
        assert forall|ws: Seq<Seq<char>>, q: char|
            line@ == #[trigger] outside::in_quotes(ws, q) && ws.len() > 0 && (forall|i: int|
                0 <= i < ws.len() ==> outside::quotable(#[trigger] ws[i], q)) implies sole_quoted(
            line@,
        ) == (ws.len() == 1) && (ws.len() == 1 ==> seq![between_quotes(line@)] == ws) by {
            lemma_in_quotes(ws, q);
        }
    }
    if let Some(inner) = strip_sole_quotes(line) {
        let mut r: Vec<String> = Vec::new();
        r.push(inner);
        assert(text::strs(r@) =~= line_tokens(line@));
        return r;
    }
    words_or_line(line.to_owned(), outside::split_shell_words(line))
}

fn append_strs(a: &mut Vec<String>, b: Vec<String>)
    ensures
        text::strs(final(a)@) == text::strs(old(a)@) + text::strs(b@),
{
    let mut b = b;
    let ghost x = a@;
    let ghost y = b@;
    a.append(&mut b);
    assert(text::strs(a@) =~= text::strs(x) + text::strs(y));
}

/// The tokens of a paste.
pub fn paste_tokens(raw: &str) -> (r: Vec<String>)
    ensures
        text::strs(r@) == tokens(raw@),
        ({
            let t = text::trim(raw@);
            &&& t.len() > 0 && !t.contains('\n') && !sole_quoted(t) && outside::plain_word(t)
                ==> text::strs(r@) == seq![t]
            &&& forall|w: Seq<char>| #[trigger]
                outside::spaced_word(w) && !t.contains('\n') && !sole_quoted(t) && t.len() > 0
                    && t == outside::escape_spaces(w) ==> text::strs(r@) == seq![w]
            &&& forall|ws: Seq<Seq<char>>, q: char|
                t == #[trigger] outside::in_quotes(ws, q) && ws.len() > 0 && !t.contains('\n') && (
                forall|i: int| 0 <= i < ws.len() ==> outside::quotable(#[trigger] ws[i], q))
                    ==> text::strs(r@) == ws
        }),
{
    let t = text::trimmed(raw);
    if t.as_str().is_empty() {
        let r: Vec<String> = Vec::new();
        assert(text::strs(r@) =~= seq![]);
        proof {
            assert forall|ws: Seq<Seq<char>>, q: char|
                t@ == #[trigger] outside::in_quotes(ws, q) && ws.len() > 0 && (forall|i: int|
                    0 <= i < ws.len() ==> outside::quotable(#[trigger] ws[i], q)) implies false by {
                lemma_in_quotes(ws, q);
            }
        }
        return r;
    }
    if !text::has_char(t.as_str(), '\n') {
        return split_line(t.as_str());
    }
    let lines = text::split_by(t.as_str(), CharClass::Just('\n'));
    let ghost ls = text::strs(lines@);
    let mut r: Vec<String> = Vec::new();
    let mut i: usize = 0;
    assert(text::strs(r@) =~= seq![]);
    while i < lines.len()
        invariant
            i <= lines@.len(),
            ls == text::strs(lines@),
            text::strs(r@) == all_tokens(ls.take(i as int)),
        decreases lines@.len() - i,
    {
        assert(ls.take(i + 1).drop_last() =~= ls.take(i as int));
        assert(ls.take(i + 1).last() == lines@[i as int]@);
        let a = text::trimmed(lines[i].as_str());
        let l = text::trimmed_end(a.as_str(), CharClass::Just('\r'));
        if !l.as_str().is_empty() {
            let more = split_line(l.as_str());
            append_strs(&mut r, more);
        } else {
            assert(text::strs(r@) + seq![] =~= text::strs(r@));
        }
        i = i + 1;
    }
    assert(ls.take(i as int) =~= ls);
    r
}

/// A path that means itself: no blanks around it, no quotes around it, no URL,
/// no escapes, nothing to expand.
pub open spec fn literal_path(p: Seq<char>) -> bool {
    &&& p.len() > 0
    &&& text::trim(p) == p
    &&& !quoted(p)
    &&& !"file://"@.is_prefix_of(p)
    &&& !p.contains('\\')
    &&& !p.contains('$')
    &&& !p.contains('\n')
    &&& p[0] != '~'
}

proof fn lemma_unescaped_plain(s: Seq<char>)
    requires
        !s.contains('\\'),
    ensures
        unescaped(s) == s,
    decreases s.len(),
{
    if s.len() > 0 {
        assert(s[0] != '\\');
        assert forall|c: char| s.skip(1).contains(c) implies s.contains(c) by {
            let i = choose|i: int| 0 <= i < s.skip(1).len() && s.skip(1)[i] == c;
            assert(s[i + 1] == c);
        }
        lemma_unescaped_plain(s.skip(1));
        assert(seq![s[0]] + s.skip(1) =~= s);
    }
}

/// A literal path spells itself, wherever the home directory lies.
pub proof fn law_literal_spells_itself(p: Seq<char>, env: EnvironmentView)
    requires
        literal_path(p),
    ensures
        meaning(p, env) == p,
{
    lemma_unescaped_plain(p);
    assert(unexpanded(p) == p);
}

/// A literal path in quotes that it does not hold itself, whatever blanks it
/// holds, is one token that spells the path.
pub proof fn law_quotes_protect_blanks(p: Seq<char>, q: char, env: EnvironmentView)
    requires
        literal_path(p),
        q == '"' || q == '\'',
        !p.contains(q),
    ensures
        tokens(seq![q] + p + seq![q]) == seq![p],
        paste_paths(seq![q] + p + seq![q], env) == seq![p],
{
    let raw = seq![q] + p + seq![q];
    assert(raw[0] == q && raw.last() == q);
    assert(!text::is_white(q));
    assert(text::trim(raw) == raw);
    assert(between_quotes(raw) =~= p);
    assert(!raw.contains('\n')) by {
        if raw.contains('\n') {
            let i = choose|i: int| 0 <= i < raw.len() && raw[i] == '\n';
            assert(0 < i < raw.len() - 1);
            assert(p[i - 1] == '\n');
        }
    }
    law_literal_spells_itself(p, env);
    assert(paste_paths(raw, env) =~= seq![p]);
}

/// What follows a tilde or a variable in a path: a slash, no blanks at the end, and
/// nothing that is escaped or expanded.
pub open spec fn below(rest: Seq<char>) -> bool {
    &&& rest.len() > 0
    &&& rest[0] == '/'
    &&& !text::is_white(rest.last())
    &&& !rest.contains('\\')
    &&& !rest.contains('$')
}

proof fn lemma_in_front(front: Seq<char>, rest: Seq<char>)
    requires
        front.len() > 0,
        !text::is_white(front[0]),
        front[0] == '~' || front[0] == '$',
        !front.contains('\\'),
        below(rest),
    ensures
        unexpanded(front + rest) == front + rest,
{
    let t = front + rest;
    assert(t[0] == front[0]);
    assert(t.last() == rest.last());
    assert(text::trim(t) == t);
    reveal_strlit("file://");
    assert("file://"@[0] != t[0]);
    assert(!t.contains('\\')) by {
        if t.contains('\\') {
            let i = choose|i: int| 0 <= i < t.len() && t[i] == '\\';
            if i < front.len() {
                assert(front[i] == '\\');
            } else {
                assert(rest[i - front.len()] == '\\');
            }
        }
    }
    lemma_unescaped_plain(t);
}

/// A tilde in front of a path spells the home directory, where one is known.
pub proof fn law_tilde_spells_home(rest: Seq<char>, home: Seq<char>, env: EnvironmentView)
    requires
        below(rest),
        env.home == Some(home),
    ensures
        meaning(seq!['~'] + rest, env) == home + rest,
{
    let t = seq!['~'] + rest;
    lemma_in_front(seq!['~'], rest);
    assert(t[0] == '~' && t[1] == '/');
    assert(t.skip(1) =~= rest);
    if t.contains('$') {
        let i = choose|i: int| 0 <= i < t.len() && t[i] == '$';
        assert(rest[i - 1] == '$');
    }
}

/// A variable in front of a path spells its value; where it cannot be read, the path
/// stays as it is.
pub proof fn law_variables_spell_their_values(
    name: Seq<char>,
    rest: Seq<char>,
    env: EnvironmentView,
)
    requires
        outside::plain_name(name),
        below(rest),
    ensures
        meaning(seq!['$'] + name + rest, env) == (match environment::looked_up(env.vars, name) {
            Ok(v) => v + rest,
            Err(_) => seq!['$'] + name + rest,
        }),
{
    let front = seq!['$'] + name;
    let t = front + rest;
    assert(!front.contains('\\')) by {
        if front.contains('\\') {
            let i = choose|i: int| 0 <= i < front.len() && front[i] == '\\';
            assert(name[i - 1] == '\\');
        }
    }
    lemma_in_front(front, rest);
    assert(t[0] == '$');
    assert(t.contains('$'));
    assert(t.skip(1) =~= name + rest);
    lemma_until_slash(name, rest);
    assert((name + rest).take(name.len() as int) =~= name);
    assert((name + rest).skip(name.len() as int) =~= rest);
}

proof fn lemma_until_slash(name: Seq<char>, rest: Seq<char>)
    requires
        forall|i: int|
            0 <= i < name.len() ==> text::is_ascii_alphanumeric(#[trigger] name[i]) || name[i]
                == '_',
        rest.len() > 0,
        rest[0] == '/',
    ensures
        text::until(name + rest, CharClass::Just('/')) == name.len(),
    decreases name.len(),
{
    if name.len() == 0 {
        assert(name + rest =~= rest);
    } else {
        assert((name + rest)[0] == name[0]);
        assert((name + rest).drop_first() =~= name.drop_first() + rest);
        lemma_until_slash(name.drop_first(), rest);
    }
}

/// The paths that a paste spells: one for each token.
pub open spec fn paste_paths(raw: Seq<char>, env: EnvironmentView) -> Seq<Seq<char>> {
    Seq::new(tokens(raw).len(), |i: int| meaning(tokens(raw)[i], env))
}

/// Parse a bracketed-paste / drag-drop payload into one or more local paths.
///
/// Handles the formatting variants produced by iTerm2, Terminal.app, Ghostty,
/// kitty, WezTerm, Alacritty, GNOME Terminal, Windows Terminal, etc.:
/// - Outer quoting: `""`, `''`
/// - Escaped spaces: `foo\ bar`
/// - URL form: `file:///…` with percent-encoded UTF-8
/// - Multi-path: `\n`-separated or shell-style whitespace-separated
/// - `~` / `$HOME` expansion
///
/// Does not touch the filesystem for existence checks — callers decide.
pub fn parse_paste(raw: &str, env: &Environment) -> (r: Vec<String>)
    ensures
        text::strs(r@) == paste_paths(raw@, env@),
        literal_path(raw@) && outside::plain_word(raw@) ==> text::strs(r@) == seq![raw@],
        forall|w: Seq<char>| #[trigger]
            outside::spaced_word(w) && literal_path(w) && raw@ == outside::escape_spaces(w)
                && text::trim(raw@) == raw@ && !quoted(raw@) && !raw@.contains('\n') && raw@.len()
                > 0 ==> text::strs(r@) == seq![w],
        forall|ws: Seq<Seq<char>>, q: char|
            raw@ == #[trigger] outside::in_quotes(ws, q) && ws.len() > 0 && (forall|i: int|
                0 <= i < ws.len() ==> outside::quotable(#[trigger] ws[i], q) && literal_path(ws[i]))
                ==> text::strs(r@) == ws,
{
    let ts = paste_tokens(raw);
    let ghost gt = text::strs(ts@);
    let mut r: Vec<String> = Vec::new();
    let mut i: usize = 0;
    while i < ts.len()
        invariant
            i <= ts@.len(),
            gt == text::strs(ts@),
            r@.len() == i,
            forall|k: int| 0 <= k < i ==> (#[trigger] r@[k])@ == meaning(gt[k], env@),
        decreases ts@.len() - i,
    {
        let p = normalize_single(ts[i].as_str(), env);
        r.push(p);
        i = i + 1;
    }
    assert(text::strs(r@) =~= paste_paths(raw@, env@));
    assert forall|w: Seq<char>|
        literal_path(w) && gt == #[trigger] seq![w] implies text::strs(r@) == seq![w] by {
        assert(seq![w].len() == 1 && seq![w][0] == w);
        law_literal_spells_itself(w, env@);
        assert(text::strs(r@) =~= seq![w]);
    }
    assert forall|ws: Seq<Seq<char>>, q: char|
        raw@ == #[trigger] outside::in_quotes(ws, q) && ws.len() > 0 && (forall|i: int|
            0 <= i < ws.len() ==> outside::quotable(#[trigger] ws[i], q) && literal_path(
                ws[i],
            )) implies text::strs(r@) == ws by {
        lemma_in_quotes(ws, q);
        assert(outside::quotable(ws[0], q));
        assert(!text::is_white(q));
        assert(text::trim(raw@) == raw@);
        assert forall|i: int| 0 <= i < ws.len() implies !(#[trigger] ws[i]).contains('\n') by {
            assert(outside::quotable(ws[i], q));
        }
        lemma_in_quotes_one_line(ws, q);
        assert(gt == ws);
        assert forall|i: int| 0 <= i < ws.len() implies text::strs(r@)[i] == ws[i] by {
            assert(outside::quotable(ws[i], q));
            law_literal_spells_itself(ws[i], env@);
        }
        assert(text::strs(r@) =~= ws);
    }
    r
}

// ---------------------------------------------------------------------------
// Pastes that are joined
// ---------------------------------------------------------------------------
/// The tokens of all lines of a text.
pub open spec fn line_by_line(raw: Seq<char>) -> Seq<Seq<char>> {
    all_tokens(text::split(raw, CharClass::Just('\n')))
}

proof fn lemma_split_prepended(c: char, s: Seq<char>, d: char)
    requires
        c != d,
    ensures
        ({
            let ls = text::split(s, CharClass::Just(d));
            &&& ls.len() >= 1
            &&& text::split(seq![c] + s, CharClass::Just(d)) == ls.update(0, seq![c] + ls[0])
        }),
    decreases s.len(),
{
    let k = CharClass::Just(d);
    let t = seq![c] + s;
    text::lemma_split_len(s, k);
    if s.len() == 0 {
        assert(t.drop_last() =~= seq![]);
        assert(text::split(t.drop_last(), k) =~= seq![Seq::<char>::empty()]);
        assert(Seq::<char>::empty().push(c) =~= seq![c] + Seq::<char>::empty());
        assert(text::split(t, k) =~= text::split(s, k).update(0, seq![c] + text::split(s, k)[0]));
    } else {
        let init = s.drop_last();
        assert(t.drop_last() =~= seq![c] + init);
        lemma_split_prepended(c, init, d);
        let ls = text::split(init, k);
        if k.has(s.last()) {
            assert(text::split(t, k) =~= text::split(s, k).update(
                0,
                seq![c] + text::split(s, k)[0],
            ));
        } else {
            if ls.len() == 1 {
                assert((seq![c] + ls[0]).push(s.last()) =~= seq![c] + ls[0].push(s.last()));
            }
            assert(text::split(t, k) =~= text::split(s, k).update(
                0,
                seq![c] + text::split(s, k)[0],
            ));
        }
    }
}

proof fn lemma_tokens_joined(a: Seq<Seq<char>>, b: Seq<Seq<char>>)
    ensures
        all_tokens(a + b) == all_tokens(a) + all_tokens(b),
    decreases b.len(),
{
    if b.len() == 0 {
        assert(a + b =~= a);
        assert(all_tokens(a) + all_tokens(b) =~= all_tokens(a));
    } else {
        lemma_tokens_joined(a, b.drop_last());
        assert((a + b).drop_last() =~= a + b.drop_last());
        assert((a + b).last() == b.last());
        let l = clean(b.last());
        let more = if l.len() == 0 {
            seq![]
        } else {
            line_tokens(l)
        };
        assert(all_tokens(a) + all_tokens(b.drop_last()) + more =~= all_tokens(a) + (all_tokens(
            b.drop_last(),
        ) + more));
    }
}

proof fn lemma_trim_start_pushed(s: Seq<char>, c: char)
    ensures
        text::trim_start(s, CharClass::White).len() == 0 && text::is_white(c)
            ==> text::trim_start(s.push(c), CharClass::White).len() == 0,
        text::trim_start(s, CharClass::White).len() > 0 ==> text::trim_start(
            s.push(c),
            CharClass::White,
        ) == text::trim_start(s, CharClass::White).push(c),
    decreases s.len(),
{
    if s.len() == 0 {
        assert(s.push(c).drop_first() =~= seq![]);
        assert(text::trim_start(s.push(c).drop_first(), CharClass::White).len() == 0);
    } else {
        assert(s.push(c)[0] == s[0]);
        assert(s.push(c).drop_first() =~= s.drop_first().push(c));
        lemma_trim_start_pushed(s.drop_first(), c);
    }
}

proof fn lemma_trim_pushed(s: Seq<char>, c: char)
    requires
        text::is_white(c),
    ensures
        text::trim(s.push(c)) == text::trim(s),
{
    lemma_trim_start_pushed(s, c);
    let t = text::trim_start(s, CharClass::White);
    if t.len() > 0 {
        assert(t.push(c).drop_last() =~= t);
    } else {
        assert(t =~= text::trim_start(s.push(c), CharClass::White));
    }
}

proof fn lemma_trim_prepended(c: char, s: Seq<char>)
    requires
        text::is_white(c),
    ensures
        text::trim(seq![c] + s) == text::trim(s),
{
    assert((seq![c] + s)[0] == c);
    assert((seq![c] + s).drop_first() =~= s);
}

proof fn lemma_no_tokens_in_nothing()
    ensures
        line_by_line(seq![]) == Seq::<Seq<char>>::empty(),
{
    let ls = seq![Seq::<char>::empty()];
    assert(text::split(seq![], CharClass::Just('\n')) == ls);
    assert(ls.drop_last() =~= seq![]);
    assert(clean(ls.last()).len() == 0);
    assert(all_tokens(ls.drop_last()) =~= seq![]);
    assert(all_tokens(ls) =~= seq![]);
}

proof fn lemma_white_in_front(c: char, s: Seq<char>)
    requires
        text::is_white(c),
    ensures
        line_by_line(seq![c] + s) == line_by_line(s),
{
    let k = CharClass::Just('\n');
    let ls = text::split(s, k);
    if c == '\n' {
        text::lemma_split_joined(seq![], s, '\n');
        assert(Seq::<char>::empty() + seq![c] + s =~= seq![c] + s);
        lemma_tokens_joined(text::split(seq![], k), ls);
        lemma_no_tokens_in_nothing();
        assert(Seq::<Seq<char>>::empty() + all_tokens(ls) =~= all_tokens(ls));
    } else {
        lemma_split_prepended(c, s, '\n');
        let first = seq![ls[0]];
        let other = seq![seq![c] + ls[0]];
        let rest = ls.skip(1);
        assert(ls =~= first + rest);
        assert(ls.update(0, seq![c] + ls[0]) =~= other + rest);
        lemma_tokens_joined(first, rest);
        lemma_tokens_joined(other, rest);
        lemma_trim_prepended(c, ls[0]);
        assert(first.drop_last() =~= other.drop_last());
        assert(all_tokens(first) == all_tokens(other));
    }
}

proof fn lemma_white_behind(s: Seq<char>, c: char)
    requires
        text::is_white(c),
    ensures
        line_by_line(s.push(c)) == line_by_line(s),
{
    let k = CharClass::Just('\n');
    let ls = text::split(s, k);
    text::lemma_split_len(s, k);
    assert(s.push(c).drop_last() =~= s);
    assert(s.push(c).last() == c);
    if c == '\n' {
        let next = ls.push(seq![]);
        assert(next.drop_last() =~= ls);
        assert(clean(seq![]).len() == 0);
        assert(all_tokens(ls) + seq![] =~= all_tokens(ls));
    } else {
        let next = ls.update(ls.len() - 1, ls.last().push(c));
        assert(next.drop_last() =~= ls.drop_last());
        lemma_trim_pushed(ls.last(), c);
    }
}

proof fn lemma_front_trimmed(s: Seq<char>)
    ensures
        line_by_line(text::trim_start(s, CharClass::White)) == line_by_line(s),
    decreases s.len(),
{
    if s.len() > 0 && text::is_white(s[0]) {
        assert(s =~= seq![s[0]] + s.drop_first());
        lemma_white_in_front(s[0], s.drop_first());
        lemma_front_trimmed(s.drop_first());
    }
}

proof fn lemma_end_trimmed(s: Seq<char>)
    ensures
        line_by_line(text::trim_end(s, CharClass::White)) == line_by_line(s),
    decreases s.len(),
{
    if s.len() > 0 && text::is_white(s.last()) {
        assert(s =~= s.drop_last().push(s.last()));
        lemma_white_behind(s.drop_last(), s.last());
        lemma_end_trimmed(s.drop_last());
    }
}

proof fn lemma_trim_end_ends(s: Seq<char>)
    ensures
        ({
            let t = text::trim_end(s, CharClass::White);
            &&& t.len() > 0 ==> !text::is_white(t.last())
            &&& t.len() > 0 ==> t[0] == s[0]
        }),
    decreases s.len(),
{
    if s.len() > 0 && text::is_white(s.last()) {
        lemma_trim_end_ends(s.drop_last());
    }
}

proof fn lemma_trim_start_ends(s: Seq<char>)
    ensures
        text::trim_start(s, CharClass::White).len() > 0 ==> !text::is_white(
            text::trim_start(s, CharClass::White)[0],
        ),
    decreases s.len(),
{
    if s.len() > 0 && text::is_white(s[0]) {
        lemma_trim_start_ends(s.drop_first());
    }
}

/// A paste is read line by line.
pub proof fn lemma_tokens_line_by_line(raw: Seq<char>)
    ensures
        tokens(raw) == line_by_line(raw),
{
    let a = text::trim_start(raw, CharClass::White);
    let t = text::trim(raw);
    lemma_front_trimmed(raw);
    lemma_end_trimmed(a);
    if t.len() == 0 {
        assert(t =~= seq![]);
        lemma_no_tokens_in_nothing();
    } else if !t.contains('\n') {
        lemma_trim_start_ends(raw);
        lemma_trim_end_ends(a);
        text::lemma_one_line(t, '\n');
        assert(text::trim(t) == t);
        assert(text::is_white('\r'));
        assert(clean(t) == t);
        assert(seq![t].drop_last() =~= seq![]);
        assert(seq![t].last() == t);
        assert(all_tokens(seq![t].drop_last()) =~= seq![]);
        assert(Seq::<Seq<char>>::empty() + line_tokens(t) =~= line_tokens(t));
    }
}

/// Two pastes joined by a newline have the tokens of both, in order, and spell
/// the paths of both: nothing is lost or merged.
pub proof fn law_joined_pastes(a: Seq<char>, b: Seq<char>, env: EnvironmentView)
    ensures
        tokens(a + seq!['\n'] + b) == tokens(a) + tokens(b),
        paste_paths(a + seq!['\n'] + b, env) == paste_paths(a, env) + paste_paths(b, env),
{
    let j = a + seq!['\n'] + b;
    lemma_tokens_line_by_line(a);
    lemma_tokens_line_by_line(b);
    lemma_tokens_line_by_line(j);
    text::lemma_split_joined(a, b, '\n');
    lemma_tokens_joined(
        text::split(a, CharClass::Just('\n')),
        text::split(b, CharClass::Just('\n')),
    );
    assert(paste_paths(j, env) =~= paste_paths(a, env) + paste_paths(b, env));
}

/// `s` with a backslash in front of every character that can be escaped.
pub open spec fn escaped(s: Seq<char>) -> Seq<char>
    decreases s.len(),
{
    if s.len() == 0 {
        seq![]
    } else if escapable(s[0]) {
        seq!['\\', s[0]] + escaped(s.skip(1))
    } else {
        seq![s[0]] + escaped(s.skip(1))
    }
}

/// Escapes are undone: a path comes back just as it was before a terminal put its
/// backslashes in.
pub proof fn law_escapes_are_undone(s: Seq<char>)
    ensures
        unescaped(escaped(s)) == s,
    decreases s.len(),
{
    if s.len() == 0 {
        assert(s =~= seq![]);
    } else {
        let rest = s.skip(1);
        let e = escaped(s);
        law_escapes_are_undone(rest);
        if escapable(s[0]) {
            assert(e[0] == '\\' && e[1] == s[0]);
            assert(e.skip(2) =~= escaped(rest));
        } else {
            assert(e[0] == s[0]);
            assert(e.skip(1) =~= escaped(rest));
        }
        assert(seq![s[0]] + rest =~= s);
    }
}

/// Spaces, quotes, parentheses and the like are what a terminal escapes.
pub proof fn law_what_is_escaped(c: char)
    ensures
        text::is_ascii_alphanumeric(c) || c == '/' || c == '.' || c == '-' || c == '_' || c == '~'
            ==> !escapable(c),
        c == ' ' || c == '(' || c == ')' || c == '\'' || c == '"' || c == '&' || c == '\\'
            ==> escapable(c),
{
}

/// The path of a `file://` address starts at the first slash behind the host, whether
/// there is a host or not.
pub proof fn law_addresses_have_their_path(host: Seq<char>, path: Seq<char>)
    requires
        !host.contains('/'),
    ensures
        uri_path(host + seq!['/'] + path) == seq!['/'] + path,
{
    let s = host + seq!['/'] + path;
    lemma_host_end(host, path);
    assert(s.skip(host.len() as int) =~= seq!['/'] + path);
}

proof fn lemma_host_end(host: Seq<char>, path: Seq<char>)
    requires
        !host.contains('/'),
    ensures
        text::until(host + seq!['/'] + path, CharClass::Just('/')) == host.len(),
    decreases host.len(),
{
    let s = host + seq!['/'] + path;
    if host.len() > 0 {
        assert(s[0] == host[0]);
        assert(host[0] != '/') by {
            if host[0] == '/' {
                assert(host.contains('/'));
            }
        }
        let rest = host.drop_first();
        assert(!rest.contains('/')) by {
            if rest.contains('/') {
                let i = choose|i: int| 0 <= i < rest.len() && rest[i] == '/';
                assert(host[i + 1] == '/');
            }
        }
        assert(s.drop_first() =~= rest + seq!['/'] + path);
        lemma_host_end(rest, path);
    } else {
        assert(s[0] == '/');
    }
}

} // verus!
