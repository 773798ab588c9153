//! How what is sent to a remote host is read there: by its shell, by `ssh`, and by
//! `rsync`. Nothing here runs; it is what the laws on commands are stated over.
use vstd::prelude::*;

use crate::target::TargetView;
use crate::text;
use crate::text::CharClass;
use crate::transfer;

verus! {

// ---------------------------------------------------------------------------
// Words of a shell
// ---------------------------------------------------------------------------
pub ghost enum Quotes {
    Bare,
    Single,
    Double,
}

/// Characters that mean themselves outside of quotes, anywhere in a word.
pub open spec fn bare_char(c: char) -> bool {
    text::is_ascii_alphanumeric(c) || c == '-' || c == '_' || c == '.' || c == '/'
}

pub open spec fn name_char(c: char) -> bool {
    text::is_ascii_alphanumeric(c) || c == '_'
}

/// How many characters of a name `s` starts with.
pub open spec fn name_len(s: Seq<char>) -> nat
    decreases s.len(),
{
    if s.len() > 0 && name_char(s[0]) {
        1 + name_len(s.skip(1))
    } else {
        0
    }
}

/// `value` with `with` in place of a leading tilde.
pub open spec fn tilde_replaced(value: Seq<char>, with: Seq<char>) -> Seq<char> {
    if value.len() > 0 && value[0] == '~' {
        with + value.skip(1)
    } else {
        value
    }
}

/// What the variable that follows a dollar sign stands for, and how many characters
/// it is written with: `name`, or `{name/#~/$other}`, which is the value of `name`
/// with that of `other` in place of a leading tilde.
pub open spec fn variable(s: Seq<char>, vars: Map<Seq<char>, Seq<char>>) -> Option<
    (Seq<char>, nat),
> {
    if s.len() > 0 && s[0] == '{' {
        let n = name_len(s.skip(1));
        let name = s.skip(1).take(n as int);
        let after = s.skip(1).skip(n as int);
        let m = name_len(after.skip(5));
        let other = after.skip(5).take(m as int);
        if after.len() > 5 + m && after.take(5) == seq!['/', '#', '~', '/', '$'] && after[5
            + m as int] == '}' && vars.dom().contains(name) && vars.dom().contains(other) {
            Some((tilde_replaced(vars[name], vars[other]), 7 + n + m))
        } else {
            None
        }
    } else {
        let n = name_len(s);
        if n > 0 && vars.dom().contains(s.take(n as int)) {
            Some((vars[s.take(n as int)], n))
        } else {
            None
        }
    }
}

pub open spec fn in_front(t: Seq<char>, r: Option<(Seq<char>, Seq<char>)>) -> Option<
    (Seq<char>, Seq<char>),
> {
    match r {
        Some((w, rest)) => Some((t + w, rest)),
        None => None,
    }
}

/// What the shell reads the first word of a line as, and what is left of the line;
/// none where the word is not complete, or holds something that is not modelled.
pub open spec fn word(line: Seq<char>, q: Quotes, vars: Map<Seq<char>, Seq<char>>) -> Option<
    (Seq<char>, Seq<char>),
>
    decreases line.len(),
{
    if line.len() == 0 {
        match q {
            Quotes::Bare => Some((seq![], seq![])),
            _ => None,
        }
    } else {
        let c = line[0];
        match q {
            Quotes::Bare => if transfer::ends_word(c) {
                Some((seq![], line))
            } else if c == '\'' {
                word(line.skip(1), Quotes::Single, vars)
            } else if c == '"' {
                word(line.skip(1), Quotes::Double, vars)
            } else if c == '\\' && line.len() > 1 {
                in_front(seq![line[1]], word(line.skip(2), Quotes::Bare, vars))
            } else if bare_char(c) {
                in_front(seq![c], word(line.skip(1), Quotes::Bare, vars))
            } else {
                None
            },
            Quotes::Single => if c == '\'' {
                word(line.skip(1), Quotes::Bare, vars)
            } else {
                in_front(seq![c], word(line.skip(1), Quotes::Single, vars))
            },
            Quotes::Double => if c == '"' {
                word(line.skip(1), Quotes::Bare, vars)
            } else if c == '$' {
                match variable(line.skip(1), vars) {
                    Some((v, n)) => if 1 + n <= line.len() {
                        in_front(v, word(line.skip(1 + n as int), Quotes::Double, vars))
                    } else {
                        None
                    },
                    None => None,
                }
            } else if c == '\\' || c == '`' {
                None
            } else {
                in_front(seq![c], word(line.skip(1), Quotes::Double, vars))
            },
        }
    }
}

pub open spec fn skip_blanks(line: Seq<char>) -> Seq<char>
    decreases line.len(),
{
    if line.len() > 0 && line[0] == ' ' {
        skip_blanks(line.skip(1))
    } else {
        line
    }
}

/// The words of a command, and what is left of the line behind it.
pub open spec fn words(line: Seq<char>, vars: Map<Seq<char>, Seq<char>>) -> Option<
    (Seq<Seq<char>>, Seq<char>),
>
    decreases line.len(),
{
    let l = skip_blanks(line);
    if l.len() == 0 || transfer::ends_word(l[0]) {
        Some((seq![], l))
    } else {
        match word(l, Quotes::Bare, vars) {
            Some((w, rest)) => if rest.len() < line.len() {
                match words(rest, vars) {
                    Some((ws, r)) => Some((seq![w] + ws, r)),
                    None => None,
                }
            } else {
                None
            },
            None => None,
        }
    }
}

// ---------------------------------------------------------------------------
// Commands of a shell
// ---------------------------------------------------------------------------
/// A shell on the remote host: its variables, the directory it is in, the
/// directories it has made, and what it has printed.
pub ghost struct Remote {
    pub vars: Map<Seq<char>, Seq<char>>,
    pub cwd: Seq<char>,
    pub made: Set<Seq<char>>,
    pub out: Seq<char>,
}

/// A login shell starts in the home directory.
pub open spec fn logged_in(home: Seq<char>) -> Remote {
    Remote {
        vars: Map::empty().insert(seq!['H', 'O', 'M', 'E'], home),
        cwd: home,
        made: Set::empty(),
        out: seq![],
    }
}

/// A path as seen from the directory `cwd`.
pub open spec fn seen_from(cwd: Seq<char>, p: Seq<char>) -> Seq<char> {
    if p.len() > 0 && p[0] == '/' {
        p
    } else {
        cwd + seq!['/'] + p
    }
}

/// A path that a command takes for a path, not for an option.
pub open spec fn operand(p: Seq<char>) -> bool {
    p.len() > 0 && p[0] != '-'
}

/// `mkdir -p` makes a directory, `cd` enters one that was made, and `pwd` prints the
/// one that the shell is in. Other commands are not modelled.
pub open spec fn performed(ws: Seq<Seq<char>>, st: Remote) -> Option<Remote> {
    if ws.len() == 3 && ws[0] == "mkdir"@ && ws[1] == "-p"@ && operand(ws[2]) {
        Some(Remote { made: st.made.insert(seen_from(st.cwd, ws[2])), ..st })
    } else if ws.len() == 2 && ws[0] == "cd"@ && operand(ws[1]) && st.made.contains(
        seen_from(st.cwd, ws[1]),
    ) {
        Some(Remote { cwd: seen_from(st.cwd, ws[1]), ..st })
    } else if ws.len() == 1 && ws[0] == "pwd"@ {
        Some(Remote { out: st.out + st.cwd + seq!['\n'], ..st })
    } else {
        None
    }
}

/// One command of a line: an assignment, or words.
pub open spec fn command(line: Seq<char>, st: Remote) -> Option<(Remote, Seq<char>)> {
    let l = skip_blanks(line);
    let n = name_len(l) as int;
    if 0 < n < l.len() && l[n] == '=' {
        match word(l.skip(n + 1), Quotes::Bare, st.vars) {
            Some((v, rest)) => Some((Remote { vars: st.vars.insert(l.take(n), v), ..st }, rest)),
            None => None,
        }
    } else {
        match words(l, st.vars) {
            Some((ws, rest)) => match performed(ws, st) {
                Some(next) => Some((next, rest)),
                None => None,
            },
            None => None,
        }
    }
}

/// A script of commands, one after the other; none where one fails.
pub open spec fn run(script: Seq<char>, st: Remote) -> Option<Remote>
    decreases script.len(),
{
    match command(script, st) {
        Some((next, rest)) => {
            let r = skip_blanks(rest);
            if r.len() == 0 {
                Some(next)
            } else if r.len() > script.len() {
                None
            } else if r[0] == ';' {
                run(r.skip(1), next)
            } else if r.len() > 1 && r[0] == '&' && r[1] == '&' {
                run(r.skip(2), next)
            } else {
                None
            }
        },
        None => None,
    }
}

// ---------------------------------------------------------------------------
// How the pieces of a script are read
// ---------------------------------------------------------------------------
proof fn lemma_quoted_word(s: Seq<char>, rest: Seq<char>, vars: Map<Seq<char>, Seq<char>>)
    ensures
        word(transfer::quoted_body(s) + seq!['\''] + rest, Quotes::Single, vars) == in_front(
            s,
            word(rest, Quotes::Bare, vars),
        ),
    decreases s.len(),
{
    let w = transfer::quoted_body(s) + seq!['\''] + rest;
    let after = word(rest, Quotes::Bare, vars);
    if s.len() == 0 {
        assert(w =~= seq!['\''] + rest);
        assert(w.skip(1) =~= rest);
        if after is Some {
            assert(s + after->Some_0.0 =~= after->Some_0.0);
        }
    } else {
        let t = transfer::quoted_body(s.drop_first()) + seq!['\''] + rest;
        lemma_quoted_word(s.drop_first(), rest, vars);
        if s[0] == '\'' {
            assert(w =~= seq!['\'', '\\', '\'', '\''] + t);
            let w1 = w.skip(1);
            assert(w1 =~= seq!['\\', '\'', '\''] + t);
            let w2 = w1.skip(2);
            assert(w2 =~= seq!['\''] + t);
            assert(w2.skip(1) =~= t);
            assert(w1[1] == '\'');
            assert(word(w2, Quotes::Bare, vars) == word(t, Quotes::Single, vars));
            assert(word(w1, Quotes::Bare, vars) == in_front(
                seq!['\''],
                word(w2, Quotes::Bare, vars),
            ));
        } else {
            assert(w =~= seq![s[0]] + t);
            assert(w.skip(1) =~= t);
        }
        if after is Some {
            assert(seq![s[0]] + (s.drop_first() + after->Some_0.0) =~= s + after->Some_0.0);
        }
    }
}

/// Quoted text is read as it is, whatever follows it.
pub proof fn lemma_single_quoted(s: Seq<char>, rest: Seq<char>, vars: Map<Seq<char>, Seq<char>>)
    ensures
        word(transfer::single_quoted(s) + rest, Quotes::Bare, vars) == in_front(
            s,
            word(rest, Quotes::Bare, vars),
        ),
{
    let w = transfer::single_quoted(s) + rest;
    assert(w[0] == '\'');
    assert(w.skip(1) =~= transfer::quoted_body(s) + seq!['\''] + rest);
    lemma_quoted_word(s, rest, vars);
}

proof fn lemma_bare_run(s: Seq<char>, rest: Seq<char>, vars: Map<Seq<char>, Seq<char>>)
    requires
        forall|i: int| 0 <= i < s.len() ==> bare_char(#[trigger] s[i]),
    ensures
        word(s + rest, Quotes::Bare, vars) == in_front(s, word(rest, Quotes::Bare, vars)),
    decreases s.len(),
{
    let after = word(rest, Quotes::Bare, vars);
    if s.len() == 0 {
        assert(s + rest =~= rest);
        if after is Some {
            assert(s + after->Some_0.0 =~= after->Some_0.0);
        }
    } else {
        assert((s + rest)[0] == s[0]);
        assert((s + rest).skip(1) =~= s.drop_first() + rest);
        lemma_bare_run(s.drop_first(), rest, vars);
        if after is Some {
            assert(seq![s[0]] + (s.drop_first() + after->Some_0.0) =~= s + after->Some_0.0);
        }
    }
}

proof fn lemma_word_ends(rest: Seq<char>, vars: Map<Seq<char>, Seq<char>>)
    requires
        rest.len() == 0 || transfer::ends_word(rest[0]),
    ensures
        word(rest, Quotes::Bare, vars) == Some((Seq::<char>::empty(), rest)),
{
    if rest.len() == 0 {
        assert(rest =~= seq![]);
    }
}

proof fn lemma_double_quoted(v: char, rest: Seq<char>, vars: Map<Seq<char>, Seq<char>>)
    requires
        name_char(v),
        vars.dom().contains(seq![v]),
    ensures
        word(seq!['"', '$', v, '"'] + rest, Quotes::Bare, vars) == in_front(
            vars[seq![v]],
            word(rest, Quotes::Bare, vars),
        ),
{
    let w = seq!['"', '$', v, '"'] + rest;
    let w1 = w.skip(1);
    assert(w1 =~= seq!['$', v, '"'] + rest);
    let s = w1.skip(1);
    assert(s =~= seq![v, '"'] + rest);
    reveal_with_fuel(name_len, 2);
    assert(s.skip(1)[0] == '"');
    assert(name_len(s) == 1);
    assert(s.take(1) =~= seq![v]);
    let w3 = w1.skip(2);
    assert(w3 =~= seq!['"'] + rest);
    assert(w3.skip(1) =~= rest);
    let after = word(rest, Quotes::Bare, vars);
    assert(word(w3, Quotes::Double, vars) == after);
    assert(word(w1, Quotes::Double, vars) == in_front(vars[seq![v]], after));
}

pub open spec fn home_var() -> Seq<char> {
    seq!['H', 'O', 'M', 'E']
}

proof fn lemma_tilde_word(v: char, rest: Seq<char>, vars: Map<Seq<char>, Seq<char>>)
    requires
        name_char(v),
        vars.dom().contains(seq![v]),
        vars.dom().contains(home_var()),
        rest.len() == 0 || transfer::ends_word(rest[0]),
    ensures
        word(
            seq!['"', '$', '{', v, '/', '#', '~', '/', '$', 'H', 'O', 'M', 'E', '}', '"'] + rest,
            Quotes::Bare,
            vars,
        ) == Some((tilde_replaced(vars[seq![v]], vars[home_var()]), rest)),
{
    let w = seq!['"', '$', '{', v, '/', '#', '~', '/', '$', 'H', 'O', 'M', 'E', '}', '"'] + rest;
    let w1 = w.skip(1);
    let s = w1.skip(1);
    assert(s[0] == '{');
    let s1 = s.skip(1);
    assert(s1[0] == v && s1[1] == '/');
    assert(name_len(s1.skip(1)) == 0);
    assert(name_len(s1) == 1);
    assert(s1.take(1) =~= seq![v]);
    let after = s1.skip(1);
    assert(after.take(5) =~= seq!['/', '#', '~', '/', '$']);
    let o = after.skip(5);
    assert(o[0] == 'H' && o[1] == 'O' && o[2] == 'M' && o[3] == 'E' && o[4] == '}');
    assert(name_len(o.skip(1).skip(1).skip(1).skip(1)) == 0);
    assert(name_len(o.skip(1).skip(1).skip(1)) == 1);
    assert(name_len(o.skip(1).skip(1)) == 2);
    assert(name_len(o.skip(1)) == 3);
    assert(name_len(o) == 4);
    assert(o.take(4) =~= home_var());
    let v2 = tilde_replaced(vars[seq![v]], vars[home_var()]);
    assert(variable(s, vars) == Some((v2, 12nat)));
    let w3 = w1.skip(13);
    assert(w3 =~= seq!['"'] + rest);
    assert(w3.skip(1) =~= rest);
    lemma_word_ends(rest, vars);
    assert(word(w3, Quotes::Double, vars) == word(rest, Quotes::Bare, vars));
    assert(v2 + Seq::<char>::empty() =~= v2);
    assert(w[0] == '"' && w1[0] == '$');
    assert(word(w1, Quotes::Double, vars) == in_front(v2, word(w3, Quotes::Double, vars)));
    assert(word(w, Quotes::Bare, vars) == word(w1, Quotes::Double, vars));
}

proof fn lemma_assigns(name: char, value: Seq<char>, v: Seq<char>, rest: Seq<char>, st: Remote)
    requires
        name_char(name),
        word(value + rest, Quotes::Bare, st.vars) == Some((v, rest)),
    ensures
        command(seq![name, '='] + value + rest, st) == Some(
            (Remote { vars: st.vars.insert(seq![name], v), ..st }, rest),
        ),
        command(seq![' ', name, '='] + value + rest, st) == Some(
            (Remote { vars: st.vars.insert(seq![name], v), ..st }, rest),
        ),
{
    let l = seq![name, '='] + value + rest;
    let spaced = seq![' ', name, '='] + value + rest;
    assert(spaced.skip(1) =~= l);
    assert(skip_blanks(l) == l);
    assert(skip_blanks(spaced) == l);
    assert(l.skip(1)[0] == '=');
    assert(name_len(l.skip(1)) == 0);
    assert(name_len(l) == 1);
    assert(l.take(1) =~= seq![name]);
    assert(l.skip(2) =~= value + rest);
}

/// A command that starts with a bare word and goes on with `tail`.
proof fn lemma_first_word(
    w: Seq<char>,
    tail: Seq<char>,
    vars: Map<Seq<char>, Seq<char>>,
    ws: Seq<Seq<char>>,
    rest: Seq<char>,
)
    requires
        w.len() > 0,
        forall|i: int| 0 <= i < w.len() ==> bare_char(#[trigger] w[i]),
        tail.len() == 0 || transfer::ends_word(tail[0]),
        words(tail, vars) == Some((ws, rest)),
    ensures
        words(w + tail, vars) == Some((seq![w] + ws, rest)),
        words(seq![' '] + w + tail, vars) == Some((seq![w] + ws, rest)),
        skip_blanks(seq![' '] + w + tail) == w + tail,
        skip_blanks(w + tail) == w + tail,
{
    let l = w + tail;
    assert(l[0] == w[0]);
    assert(bare_char(w[0]));
    assert((seq![' '] + w + tail).skip(1) =~= l);
    lemma_bare_run(w, tail, vars);
    lemma_word_ends(tail, vars);
    assert(w + Seq::<char>::empty() =~= w);
}

proof fn lemma_last_word(v: char, rest: Seq<char>, vars: Map<Seq<char>, Seq<char>>)
    requires
        name_char(v),
        vars.dom().contains(seq![v]),
        rest.len() > 0 ==> rest[0] == ' ' && rest.len() > 1 && rest[1] == '&',
    ensures
        words(seq![' ', '"', '$', v, '"'] + rest, vars) == Some(
            (seq![vars[seq![v]]], skip_blanks(rest)),
        ),
{
    let line = seq![' ', '"', '$', v, '"'] + rest;
    let l = line.skip(1);
    assert(l =~= seq!['"', '$', v, '"'] + rest);
    assert(skip_blanks(l) == l);
    assert(skip_blanks(line) == l);
    lemma_double_quoted(v, rest, vars);
    lemma_word_ends(rest, vars);
    let val = vars[seq![v]];
    assert(val + Seq::<char>::empty() =~= val);
    assert(word(l, Quotes::Bare, vars) == Some((val, rest)));
    if rest.len() > 0 {
        assert(rest.skip(1)[0] == '&');
        assert(skip_blanks(rest.skip(1)) == rest.skip(1));
        assert(skip_blanks(rest) == rest.skip(1));
    }
    assert(words(rest, vars) == Some((Seq::<Seq<char>>::empty(), skip_blanks(rest))));
    assert(seq![val] + Seq::<Seq<char>>::empty() =~= seq![val]);
}

pub open spec fn make_and_enter(v: char) -> Seq<char> {
    " mkdir -p \""@ + seq!['$', v] + "\" && cd \""@ + seq!['$', v] + "\" && pwd"@
}

/// A directory that a variable names is made, entered and printed.
pub proof fn lemma_made_and_entered(v: char, st: Remote)
    requires
        name_char(v),
        st.vars.dom().contains(seq![v]),
        operand(st.vars[seq![v]]),
        st.cwd.len() > 0,
        st.cwd[0] == '/',
    ensures
        ({
            let dir = seen_from(st.cwd, st.vars[seq![v]]);
            run(make_and_enter(v), st) == Some(
                Remote {
                    cwd: dir,
                    made: st.made.insert(dir),
                    out: st.out + dir + seq!['\n'],
                    ..st
                },
            )
        }),
{
    reveal_strlit(" mkdir -p \"");
    reveal_strlit("\" && cd \"");
    reveal_strlit("\" && pwd");
    reveal_strlit("mkdir");
    reveal_strlit("-p");
    reveal_strlit("cd");
    reveal_strlit("pwd");
    let val = st.vars[seq![v]];
    let dir = seen_from(st.cwd, val);
    let script = make_and_enter(v);
    // mkdir -p "$v"
    let a3 = seq![' ', '&', '&', ' ', 'c', 'd', ' ', '"', '$', v, '"', ' ', '&', '&', ' ', 'p', 'w', 'd'];
    let a2 = seq![' ', '"', '$', v, '"'] + a3;
    lemma_last_word(v, a3, st.vars);
    let a1 = seq![' '] + "-p"@ + a2;
    lemma_first_word("-p"@, a2, st.vars, seq![val], skip_blanks(a3));
    assert(skip_blanks(a3) == a3.skip(1)) by {
        assert(a3.skip(1)[0] == '&');
        assert(skip_blanks(a3.skip(1)) == a3.skip(1));
    }
    let ws1 = seq!["-p"@] + seq![val];
    lemma_first_word("mkdir"@, a1, st.vars, ws1, skip_blanks(a3));
    assert(script =~= seq![' '] + "mkdir"@ + a1);
    let l = "mkdir"@ + a1;
    let ws = seq!["mkdir"@] + ws1;
    assert(ws.len() == 3 && ws[0] == "mkdir"@ && ws[1] == "-p"@ && ws[2] == val);
    lemma_no_assignment("mkdir"@, a1);
    let st1 = Remote { made: st.made.insert(dir), ..st };
    assert(performed(ws, st) == Some(st1));
    assert(command(script, st) == Some((st1, a3.skip(1))));
    let b = a3.skip(1);
    assert(skip_blanks(b) == b);
    assert(b[0] == '&' && b[1] == '&');
    let script2 = b.skip(2);
    assert(run(script, st) == run(script2, st1));
    // cd "$v"
    let c3 = seq![' ', '&', '&', ' ', 'p', 'w', 'd'];
    let c2 = seq![' ', '"', '$', v, '"'] + c3;
    lemma_last_word(v, c3, st1.vars);
    assert(skip_blanks(c3) == c3.skip(1)) by {
        assert(c3.skip(1)[0] == '&');
        assert(skip_blanks(c3.skip(1)) == c3.skip(1));
    }
    lemma_first_word("cd"@, c2, st1.vars, seq![val], c3.skip(1));
    assert(script2 =~= seq![' '] + "cd"@ + c2);
    lemma_no_assignment("cd"@, c2);
    let ws2 = seq!["cd"@] + seq![val];
    assert(ws2.len() == 2 && ws2[0] == "cd"@ && ws2[1] == val);
    let st2 = Remote { cwd: dir, ..st1 };
    assert(ws2[0] != "mkdir"@);
    assert(performed(ws2, st1) == Some(st2));
    assert(command(script2, st1) == Some((st2, c3.skip(1))));
    let d = c3.skip(1);
    assert(skip_blanks(d) == d);
    let script3 = d.skip(2);
    assert(run(script2, st1) == run(script3, st2));
    // pwd
    let none = Seq::<char>::empty();
    assert(skip_blanks(none) == none);
    assert(words(none, st2.vars) == Some((Seq::<Seq<char>>::empty(), none)));
    lemma_first_word("pwd"@, none, st2.vars, seq![], none);
    assert(script3 =~= seq![' '] + "pwd"@ + none);
    lemma_no_assignment("pwd"@, none);
    let ws3 = seq!["pwd"@] + Seq::<Seq<char>>::empty();
    assert(ws3.len() == 1 && ws3[0] == "pwd"@);
    assert(command(script3, st2) == performed_with(performed(ws3, st2), none));
    assert(st2.out == st.out);
}

spec fn performed_with(st: Option<Remote>, rest: Seq<char>) -> Option<(Remote, Seq<char>)> {
    match st {
        Some(s) => Some((s, rest)),
        None => None,
    }
}

proof fn lemma_name_run(s: Seq<char>, rest: Seq<char>)
    ensures
        name_len(s + rest) <= s.len() || rest.len() > 0 && name_char(rest[0]),
    decreases s.len(),
{
    if s.len() == 0 {
        assert(s + rest =~= rest);
    } else if name_char(s[0]) {
        assert((s + rest).skip(1) =~= s.skip(1) + rest);
        lemma_name_run(s.skip(1), rest);
    }
}

proof fn lemma_no_assignment(w: Seq<char>, tail: Seq<char>)
    requires
        w.len() > 0,
        forall|i: int| 0 <= i < w.len() ==> bare_char(#[trigger] w[i]),
        tail.len() == 0 || tail[0] == ' ',
    ensures
        ({
            let l = w + tail;
            let n = name_len(l) as int;
            !(0 < n < l.len() && l[n] == '=')
        }),
{
    let l = w + tail;
    let n = name_len(l) as int;
    lemma_name_run(w, tail);
    if n < l.len() && n < w.len() {
        assert(bare_char(w[n]));
    }
}

/// A script that sets `d` to a quoted text, replaces its tilde, and goes on.
pub proof fn lemma_expanded_variable(dir: Seq<char>, home: Seq<char>, rest: Seq<char>)
    requires
        rest.len() > 0,
    ensures
        ({
            let st = logged_in(home);
            let st2 = Remote {
                vars: st.vars.insert(seq!['d'], dir).insert(
                    seq!['d'],
                    tilde_replaced(dir, home),
                ),
                ..st
            };
            run(
                "d="@ + transfer::single_quoted(dir) + "; d=\"${d/#~/$HOME}\";"@ + rest,
                st,
            ) == run(rest, st2)
        }),
{
    reveal_strlit("d=");
    reveal_strlit("; d=\"${d/#~/$HOME}\";");
    let st = logged_in(home);
    let q = transfer::single_quoted(dir);
    let script = "d="@ + q + "; d=\"${d/#~/$HOME}\";"@ + rest;
    let tail = seq![';'] + rest;
    let e = seq!['"', '$', '{', 'd', '/', '#', '~', '/', '$', 'H', 'O', 'M', 'E', '}', '"'];
    let second = seq![' ', 'd', '='] + e + tail;
    let t = seq![';'] + second;
    assert(script =~= seq!['d', '='] + q + t);
    lemma_single_quoted(dir, t, st.vars);
    lemma_word_ends(t, st.vars);
    assert(dir + Seq::<char>::empty() =~= dir);
    lemma_assigns('d', q, dir, t, st);
    let st1 = Remote { vars: st.vars.insert(seq!['d'], dir), ..st };
    assert(skip_blanks(t) == t);
    assert(t.skip(1) =~= second);
    assert(run(script, st) == run(second, st1));
    assert(seq!['d'].len() != home_var().len());
    lemma_tilde_word('d', tail, st1.vars);
    let v = tilde_replaced(dir, home);
    lemma_assigns('d', e, v, tail, st1);
    assert(skip_blanks(tail) == tail);
    assert(tail.skip(1) =~= rest);
}

/// A variable in quotes, a slash, and a quoted text.
pub proof fn lemma_joined_variable(
    v: char,
    sub: Seq<char>,
    rest: Seq<char>,
    vars: Map<Seq<char>, Seq<char>>,
)
    requires
        name_char(v),
        vars.dom().contains(seq![v]),
        rest.len() == 0 || transfer::ends_word(rest[0]),
    ensures
        word(
            seq!['"', '$', v, '"'] + (seq!['/'] + transfer::single_quoted(sub) + rest),
            Quotes::Bare,
            vars,
        ) == Some((vars[seq![v]] + (seq!['/'] + sub), rest)),
{
    let q = transfer::single_quoted(sub) + rest;
    let tail = seq!['/'] + transfer::single_quoted(sub) + rest;
    lemma_double_quoted(v, tail, vars);
    assert(tail =~= seq!['/'] + q);
    lemma_bare_run(seq!['/'], q, vars);
    lemma_single_quoted(sub, rest, vars);
    lemma_word_ends(rest, vars);
    assert(sub + Seq::<char>::empty() =~= sub);
}

/// A variable in double quotes stands for its value.
pub proof fn lemma_plain_variable(v: char, rest: Seq<char>, vars: Map<Seq<char>, Seq<char>>)
    requires
        name_char(v),
        vars.dom().contains(seq![v]),
        rest.len() == 0 || transfer::ends_word(rest[0]),
    ensures
        word(seq!['"', '$', v, '"'] + rest, Quotes::Bare, vars) == Some((vars[seq![v]], rest)),
{
    lemma_double_quoted(v, rest, vars);
    lemma_word_ends(rest, vars);
    assert(vars[seq![v]] + Seq::<char>::empty() =~= vars[seq![v]]);
}

proof fn lemma_name(name: Seq<char>, rest: Seq<char>)
    requires
        forall|i: int| 0 <= i < name.len() ==> name_char(#[trigger] name[i]),
        rest.len() > 0 ==> !name_char(rest[0]),
    ensures
        name_len(name + rest) == name.len(),
    decreases name.len(),
{
    if name.len() == 0 {
        assert(name + rest =~= rest);
    } else {
        assert(name_char(name[0]));
        let n = name.skip(1);
        assert((name + rest).skip(1) =~= n + rest);
        assert forall|i: int| 0 <= i < n.len() implies name_char(#[trigger] n[i]) by {
            assert(n[i] == name[i + 1]);
        }
        lemma_name(n, rest);
    }
}

/// A name is given a quoted value, and nothing follows.
pub proof fn lemma_named(name: Seq<char>, s: Seq<char>, st: Remote)
    requires
        name.len() > 0,
        forall|i: int| 0 <= i < name.len() ==> name_char(#[trigger] name[i]),
    ensures
        run(seq![' '] + name + seq!['='] + transfer::single_quoted(s), st) == Some(
            Remote { vars: st.vars.insert(name, s), ..st },
        ),
{
    let none = Seq::<char>::empty();
    let q = transfer::single_quoted(s);
    let line = seq![' '] + name + seq!['='] + q;
    let l = name + (seq!['='] + q);
    assert(line.skip(1) =~= l);
    assert(name_char(name[0]));
    assert(l[0] == name[0]);
    assert(skip_blanks(l) == l);
    assert(skip_blanks(line) == l);
    lemma_name(name, seq!['='] + q);
    let n = name.len() as int;
    assert(l[n] == '=');
    assert(l.take(n) =~= name);
    assert(l.skip(n + 1) =~= q + none);
    lemma_single_quoted(s, none, st.vars);
    lemma_word_ends(none, st.vars);
    assert(s + none =~= s);
    assert(skip_blanks(none) == none);
}

/// A script that sets a variable, and goes on.
pub proof fn lemma_assigned(name: char, value: Seq<char>, v: Seq<char>, rest: Seq<char>, st: Remote)
    requires
        name_char(name),
        word(value + (seq![';'] + rest), Quotes::Bare, st.vars) == Some((v, seq![';'] + rest)),
    ensures
        run(seq![' ', name, '='] + value + (seq![';'] + rest), st) == run(
            rest,
            Remote { vars: st.vars.insert(seq![name], v), ..st },
        ),
{
    let tail = seq![';'] + rest;
    lemma_assigns(name, value, v, tail, st);
    assert(skip_blanks(tail) == tail);
    assert(tail.skip(1) =~= rest);
}

// ---------------------------------------------------------------------------
// ssh
// ---------------------------------------------------------------------------
/// What `ssh` makes of its arguments: its settings (`-o`), the port, the identity
/// file, a forwarded port, whether it runs no command, the host, and the command.
pub ghost struct SshCall {
    pub settings: Seq<Seq<char>>,
    pub port: Option<nat>,
    pub key: Option<Seq<char>>,
    pub forward: Option<Seq<char>>,
    pub idle: bool,
    pub host: Seq<char>,
    pub command: Seq<Seq<char>>,
}

/// Options come first, then the host, then the command. Of an option that is given
/// twice the first counts.
pub open spec fn ssh_reads(args: Seq<Seq<char>>) -> Option<SshCall>
    decreases args.len(),
{
    if args.len() == 0 || args[0].len() == 0 {
        None
    } else if args[0][0] != '-' {
        Some(
            SshCall {
                settings: seq![],
                port: None,
                key: None,
                forward: None,
                idle: false,
                host: args[0],
                command: args.skip(1),
            },
        )
    } else if args[0] == seq!['-', 'N'] {
        match ssh_reads(args.skip(1)) {
            Some(c) => Some(SshCall { idle: true, ..c }),
            None => None,
        }
    } else if args.len() < 2 {
        None
    } else {
        match ssh_reads(args.skip(2)) {
            Some(c) => if args[0] == seq!['-', 'o'] {
                Some(SshCall { settings: seq![args[1]] + c.settings, ..c })
            } else if args[0] == seq!['-', 'p'] {
                match text::unsigned(args[1], 65535) {
                    Some(n) => Some(SshCall { port: Some(n), ..c }),
                    None => None,
                }
            } else if args[0] == seq!['-', 'i'] {
                Some(SshCall { key: Some(args[1]), ..c })
            } else if args[0] == seq!['-', 'L'] {
                Some(SshCall { forward: Some(args[1]), ..c })
            } else {
                None
            },
            None => None,
        }
    }
}

/// The host of `user@host`: what follows the last at sign.
pub open spec fn host_of(login: Seq<char>) -> Seq<char> {
    text::split(login, CharClass::Just('@')).last()
}

/// The user of `user@host`, where there is one.
pub open spec fn user_of(login: Seq<char>) -> Option<Seq<char>> {
    if login.contains('@') {
        Some(login.take(login.len() - host_of(login).len() - 1))
    } else {
        None
    }
}

/// A forwarded port as `-L` reads it: where connections are listened for, and where
/// they are carried to.
pub open spec fn forward_reads(s: Seq<char>) -> Option<(Seq<char>, nat, Seq<char>, nat)> {
    let parts = text::split(s, CharClass::Just(':'));
    if parts.len() != 4 {
        None
    } else {
        match (text::unsigned(parts[1], 65535), text::unsigned(parts[3], 65535)) {
            (Some(l), Some(r)) => Some((parts[0], l, parts[2], r)),
            _ => None,
        }
    }
}

pub proof fn lemma_host_and_user(user: Seq<char>, host: Seq<char>)
    requires
        !host.contains('@'),
    ensures
        host_of(user + seq!['@'] + host) == host,
        user_of(user + seq!['@'] + host) == Some(user),
        host_of(host) == host,
        user_of(host) == None::<Seq<char>>,
{
    let s = user + seq!['@'] + host;
    text::lemma_split_joined(user, host, '@');
    text::lemma_one_line(host, '@');
    assert((text::split(user, CharClass::Just('@')) + seq![host]).last() == host);
    assert(s[user.len() as int] == '@');
    assert(s.take(user.len() as int) =~= user);
    assert(seq![host].last() == host);
}

pub proof fn lemma_forward(bind: Seq<char>, l: nat, host: Seq<char>, r: nat)
    requires
        !bind.contains(':'),
        !host.contains(':'),
        l <= 65535,
        r <= 65535,
    ensures
        forward_reads(
            bind + seq![':'] + text::decimal(l) + seq![':'] + host + seq![':'] + text::decimal(r),
        ) == Some((bind, l, host, r)),
{
    let dl = text::decimal(l);
    let dr = text::decimal(r);
    text::lemma_decimal_lacks(l, ':');
    text::lemma_decimal_lacks(r, ':');
    text::lemma_unsigned_read_back(l, 65535);
    text::lemma_unsigned_read_back(r, 65535);
    text::lemma_one_line(bind, ':');
    text::lemma_one_line(dl, ':');
    text::lemma_one_line(host, ':');
    text::lemma_one_line(dr, ':');
    text::lemma_split_joined(bind, dl, ':');
    text::lemma_split_joined(bind + seq![':'] + dl, host, ':');
    text::lemma_split_joined(bind + seq![':'] + dl + seq![':'] + host, dr, ':');
    let parts = seq![bind] + seq![dl] + seq![host] + seq![dr];
    assert(parts.len() == 4 && parts[0] == bind && parts[1] == dl && parts[2] == host && parts[3]
        == dr);
}

pub proof fn lemma_setting(v: Seq<char>, rest: Seq<Seq<char>>)
    ensures
        ssh_reads(seq![seq!['-', 'o'], v] + rest) == (match ssh_reads(rest) {
            Some(c) => Some(SshCall { settings: seq![v] + c.settings, ..c }),
            None => None,
        }),
{
    let a = seq![seq!['-', 'o'], v] + rest;
    assert(a.skip(2) =~= rest);
    assert(a[0] == seq!['-', 'o'] && a[1] == v);
    assert(a[0][1] != 'N');
}

pub proof fn lemma_port(n: nat, rest: Seq<Seq<char>>)
    requires
        n <= 65535,
    ensures
        ssh_reads(seq![seq!['-', 'p'], text::decimal(n)] + rest) == (match ssh_reads(rest) {
            Some(c) => Some(SshCall { port: Some(n), ..c }),
            None => None,
        }),
{
    let a = seq![seq!['-', 'p'], text::decimal(n)] + rest;
    assert(a.skip(2) =~= rest);
    assert(a[0] == seq!['-', 'p'] && a[1] == text::decimal(n));
    assert(a[0][1] == 'p');
    assert(seq!['-', 'o'][1] == 'o' && seq!['-', 'N'][1] == 'N');
    text::lemma_unsigned_read_back(n, 65535);
}

pub proof fn lemma_key(k: Seq<char>, rest: Seq<Seq<char>>)
    ensures
        ssh_reads(seq![seq!['-', 'i'], k] + rest) == (match ssh_reads(rest) {
            Some(c) => Some(SshCall { key: Some(k), ..c }),
            None => None,
        }),
{
    let a = seq![seq!['-', 'i'], k] + rest;
    assert(a.skip(2) =~= rest);
    assert(a[0] == seq!['-', 'i'] && a[1] == k);
    assert(a[0][1] == 'i');
    assert(seq!['-', 'o'][1] == 'o' && seq!['-', 'N'][1] == 'N' && seq!['-', 'p'][1] == 'p');
}

pub proof fn lemma_forwarding(f: Seq<char>, rest: Seq<Seq<char>>)
    ensures
        ssh_reads(seq![seq!['-', 'L'], f] + rest) == (match ssh_reads(rest) {
            Some(c) => Some(SshCall { forward: Some(f), ..c }),
            None => None,
        }),
{
    let a = seq![seq!['-', 'L'], f] + rest;
    assert(a.skip(2) =~= rest);
    assert(a[0] == seq!['-', 'L'] && a[1] == f);
    assert(a[0][1] == 'L');
    assert(seq!['-', 'o'][1] == 'o' && seq!['-', 'N'][1] == 'N' && seq!['-', 'p'][1] == 'p');
    assert(seq!['-', 'i'][1] == 'i');
}

pub proof fn lemma_idle(rest: Seq<Seq<char>>)
    ensures
        ssh_reads(seq![seq!['-', 'N']] + rest) == (match ssh_reads(rest) {
            Some(c) => Some(SshCall { idle: true, ..c }),
            None => None,
        }),
{
    let a = seq![seq!['-', 'N']] + rest;
    assert(a.skip(1) =~= rest);
    assert(a[0] == seq!['-', 'N']);
}

/// A target whose address `ssh` can tell from an option, and whose host it can tell
/// from the user.
pub open spec fn reachable(t: TargetView) -> bool {
    &&& t.host.len() > 0
    &&& !t.host.contains('@')
    &&& match t.user {
        Some(u) => u.len() > 0 && u[0] != '-',
        None => t.host[0] != '-',
    }
}

/// Whether a call goes to the target: to its host and port (22 where it names none),
/// as its user, with the given identity file.
pub open spec fn reaches(c: SshCall, t: TargetView, key: Option<Seq<char>>) -> bool {
    &&& c.port == Some(
        match t.ssh_port {
            Some(p) => p as nat,
            None => 22nat,
        },
    )
    &&& c.key == key
    &&& user_of(c.host) == t.user
    &&& host_of(c.host) == t.host
}

/// Whether these arguments make `ssh` run just `command` on the target, without
/// asking for anything.
pub open spec fn runs_on(
    args: Seq<Seq<char>>,
    t: TargetView,
    key: Option<Seq<char>>,
    command: Seq<char>,
) -> bool {
    match ssh_reads(args) {
        Some(c) => {
            &&& reaches(c, t, key)
            &&& c.command == seq![command]
            &&& c.forward is None
            &&& !c.idle
            &&& c.settings.contains("BatchMode=yes"@)
        },
        None => false,
    }
}

pub proof fn lemma_address(t: TargetView)
    requires
        reachable(t),
    ensures
        t.address().len() > 0,
        t.address()[0] != '-',
        user_of(t.address()) == t.user,
        host_of(t.address()) == t.host,
{
    reveal_strlit("@");
    let user = match t.user {
        Some(u) => u,
        None => seq![],
    };
    lemma_host_and_user(user, t.host);
    if t.user is Some {
        assert(t.address() =~= user + seq!['@'] + t.host);
    }
}

pub proof fn lemma_login(login: Seq<char>, command: Seq<Seq<char>>)
    requires
        login.len() > 0,
        login[0] != '-',
    ensures
        ssh_reads(seq![login] + command) == Some(
            SshCall {
                settings: seq![],
                port: None,
                key: None,
                forward: None,
                idle: false,
                host: login,
                command,
            },
        ),
{
    let a = seq![login] + command;
    assert(a[0] == login);
    assert(a.skip(1) =~= command);
}

// ---------------------------------------------------------------------------
// rsync
// ---------------------------------------------------------------------------
/// The host of `host:path`, and the path there: the first colon parts them.
pub open spec fn rsync_host(dest: Seq<char>) -> Seq<char> {
    dest.take(text::until(dest, CharClass::Just(':')) as int)
}

pub open spec fn rsync_path(dest: Seq<char>) -> Seq<char> {
    dest.skip(1 + text::until(dest, CharClass::Just(':')) as int)
}

pub proof fn lemma_rsync_dest(host: Seq<char>, path: Seq<char>)
    requires
        !host.contains(':'),
    ensures
        rsync_host(host + seq![':'] + path) == host,
        rsync_path(host + seq![':'] + path) == path,
{
    let s = host + seq![':'] + path;
    lemma_until(host, seq![':'] + path, ':');
    assert(s =~= host + (seq![':'] + path));
    assert(s.take(host.len() as int) =~= host);
    assert(s.skip(1 + host.len() as int) =~= path);
}

proof fn lemma_until(a: Seq<char>, b: Seq<char>, c: char)
    requires
        !a.contains(c),
        b.len() > 0,
        b[0] == c,
    ensures
        text::until(a + b, CharClass::Just(c)) == a.len(),
    decreases a.len(),
{
    if a.len() == 0 {
        assert(a + b =~= b);
    } else {
        assert(a[0] != c);
        assert((a + b)[0] == a[0]);
        assert((a + b).drop_first() =~= a.drop_first() + b);
        assert forall|d: char| a.drop_first().contains(d) implies a.contains(d) by {
            let i = choose|i: int| 0 <= i < a.drop_first().len() && a.drop_first()[i] == d;
            assert(a[i + 1] == d);
        }
        lemma_until(a.drop_first(), b, c);
    }
}

/// A word without blanks.
pub open spec fn solid(w: Seq<char>) -> bool {
    w.len() > 0 && forall|i: int| 0 <= i < w.len() ==> !text::is_white(#[trigger] w[i])
}

proof fn lemma_split_solid(w: Seq<char>)
    requires
        forall|i: int| 0 <= i < w.len() ==> !text::is_white(#[trigger] w[i]),
    ensures
        text::split(w, CharClass::White) == seq![w],
    decreases w.len(),
{
    if w.len() > 0 {
        let init = w.drop_last();
        assert forall|i: int| 0 <= i < init.len() implies !text::is_white(#[trigger] init[i]) by {
            assert(init[i] == w[i]);
        }
        lemma_split_solid(init);
        assert(!text::is_white(w[w.len() - 1]));
        assert(init.push(w.last()) =~= w);
        assert(seq![init].update(0, w) =~= seq![w]);
    } else {
        assert(w =~= seq![]);
    }
}

proof fn lemma_split_blank(a: Seq<char>, b: Seq<char>)
    ensures
        text::split(a + seq![' '] + b, CharClass::White) == text::split(a, CharClass::White)
            + text::split(b, CharClass::White),
    decreases b.len(),
{
    let k = CharClass::White;
    let s = a + seq![' '] + b;
    let sa = text::split(a, k);
    if b.len() == 0 {
        assert(s.drop_last() =~= a);
        assert(text::is_white(' '));
        assert(sa.push(seq![]) =~= sa + seq![Seq::<char>::empty()]);
    } else {
        let init = b.drop_last();
        assert(s.drop_last() =~= a + seq![' '] + init);
        lemma_split_blank(a, init);
        text::lemma_split_len(init, k);
        let si = text::split(init, k);
        if k.has(b.last()) {
            assert((sa + si).push(seq![]) =~= sa + si.push(seq![]));
        } else {
            let l = si.last().push(b.last());
            assert((sa + si).last() == si.last());
            assert((sa + si).update((sa + si).len() - 1, l) =~= sa + si.update(si.len() - 1, l));
        }
    }
}

proof fn lemma_non_empty_joined(a: Seq<Seq<char>>, b: Seq<Seq<char>>)
    ensures
        text::non_empty(a + b) == text::non_empty(a) + text::non_empty(b),
    decreases b.len(),
{
    if b.len() == 0 {
        assert(a + b =~= a);
        assert(text::non_empty(a) + text::non_empty(b) =~= text::non_empty(a));
    } else {
        lemma_non_empty_joined(a, b.drop_last());
        assert((a + b).drop_last() =~= a + b.drop_last());
        assert((a + b).last() == b.last());
        if b.last().len() > 0 {
            assert((text::non_empty(a) + text::non_empty(b.drop_last())).push(b.last())
                =~= text::non_empty(a) + text::non_empty(b.drop_last()).push(b.last()));
        }
    }
}

/// One word, then others.
pub proof fn lemma_words_in_front(w: Seq<char>, rest: Seq<char>)
    requires
        solid(w),
    ensures
        text::words(w) == seq![w],
        text::words(w + seq![' '] + rest) == seq![w] + text::words(rest),
        text::words(seq![' '] + rest) == text::words(rest),
{
    lemma_split_solid(w);
    assert(seq![w].drop_last() =~= seq![]);
    assert(text::non_empty(seq![w].drop_last()) =~= seq![]);
    assert(text::non_empty(seq![w]) =~= seq![w]);
    lemma_split_blank(w, rest);
    lemma_non_empty_joined(seq![w], text::split(rest, CharClass::White));
    let none = Seq::<char>::empty();
    lemma_split_blank(none, rest);
    assert(none + seq![' '] + rest =~= seq![' '] + rest);
    lemma_split_solid(none);
    lemma_non_empty_joined(seq![none], text::split(rest, CharClass::White));
    assert(seq![none].drop_last() =~= seq![]);
    assert(text::non_empty(seq![none].drop_last()) =~= seq![]);
    assert(text::non_empty(seq![none]) =~= seq![]);
    assert(Seq::<Seq<char>>::empty() + text::words(rest) =~= text::words(rest));
}

} // verus!
