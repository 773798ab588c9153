//! Unix paths held as strings: the parts of `std::path` that the library needs.
use vstd::prelude::*;

use crate::text;
use crate::text::CharClass;

verus! {

pub open spec fn absolute(p: Seq<char>) -> bool {
    p.len() > 0 && p[0] == '/'
}

pub fn is_absolute(p: &str) -> (r: bool)
    ensures
        r == absolute(p@),
{
    let cs = text::chars_of(p);
    cs.len() > 0 && cs[0] == '/'
}

/// `b` seen from the directory `a`.
pub open spec fn joined(a: Seq<char>, b: Seq<char>) -> Seq<char> {
    if absolute(b) {
        b
    } else if a.len() > 0 && a.last() != '/' {
        a.push('/') + b
    } else {
        a + b
    }
}

pub fn join(a: &str, b: &str) -> (r: String)
    ensures
        r@ == joined(a@, b@),
{
    if is_absolute(b) {
        return b.to_owned();
    }
    let cs = text::chars_of(a);
    let mut r = a.to_owned();
    if cs.len() > 0 && cs[cs.len() - 1] != '/' {
        r.push('/');
    }
    r.append(b);
    r
}

/// The named components of a path: its pieces between slashes, without empty
/// ones and single dots.
pub open spec fn components(p: Seq<char>) -> Seq<Seq<char>> {
    named(text::split(p, CharClass::Just('/')))
}

pub open spec fn named(parts: Seq<Seq<char>>) -> Seq<Seq<char>>
    decreases parts.len(),
{
    if parts.len() == 0 {
        seq![]
    } else if parts.last().len() == 0 || parts.last() == seq!['.'] {
        named(parts.drop_last())
    } else {
        named(parts.drop_last()).push(parts.last())
    }
}

/// The last component of a path, where it has one that names a file.
pub open spec fn base_name(p: Seq<char>) -> Option<Seq<char>> {
    let cs = components(p);
    if cs.len() == 0 || cs.last() == seq!['.', '.'] {
        None
    } else {
        Some(cs.last())
    }
}

/// A plain name keeps its place when it is looked at from a directory.
pub proof fn lemma_joined_name(a: Seq<char>, n: Seq<char>)
    requires
        n.len() > 2,
        !n.contains('/'),
    ensures
        base_name(joined(a, n)) == Some(n),
{
    let k = CharClass::Just('/');
    assert(!absolute(n)) by {
        if absolute(n) {
            assert(n[0] == '/');
        }
    }
    text::lemma_one_line(n, '/');
    let p = joined(a, n);
    let before = if a.len() > 0 && a.last() != '/' {
        a
    } else {
        a.drop_last()
    };
    if a.len() == 0 {
        assert(p =~= n);
        assert(text::split(p, k).last() == n);
    } else {
        assert(p =~= before + seq!['/'] + n);
        text::lemma_split_joined(before, n, '/');
        text::lemma_split_len(before, k);
        assert((text::split(before, k) + seq![n]).last() == n);
    }
    assert(text::split(p, k).last() == n);
    assert(named(text::split(p, k)).last() == n);
    assert(n.len() != seq!['.', '.'].len());
}

fn dots(s: &str, n: usize) -> (r: bool)
    requires
        n <= 2,
    ensures
        r == (s@ == Seq::new(n as nat, |i: int| '.')),
{
    let cs = text::chars_of(s);
    let r = cs.len() == n && (n < 1 || cs[0] == '.') && (n < 2 || cs[1] == '.');
    proof {
        let d = Seq::new(n as nat, |i: int| '.');
        if r {
            assert(s@ =~= d);
        } else if s@ == d {
            assert(n < 1 || d[0] == '.');
            assert(n < 2 || d[1] == '.');
        }
    }
    r
}

pub fn file_name(p: &str) -> (r: Option<String>)
    ensures
        text::opt(r) == base_name(p@),
{
    let parts = text::split_by(p, CharClass::Just('/'));
    let ghost ps = text::strs(parts@);
    let mut i: usize = parts.len();
    assert(ps.take(i as int) =~= ps);
    while i > 0
        invariant
            i <= parts@.len(),
            ps == text::strs(parts@),
            components(p@) == named(ps),
            named(ps) == named(ps.take(i as int)),
        decreases i,
    {
        let part = &parts[i - 1];
        assert(ps.take(i as int).drop_last() =~= ps.take(i - 1));
        assert(ps.take(i as int).last() == part@);
        assert(Seq::new(1, |i: int| '.') =~= seq!['.']);
        assert(Seq::new(2, |i: int| '.') =~= seq!['.', '.']);
        if !part.as_str().is_empty() && !dots(part.as_str(), 1) {
            if dots(part.as_str(), 2) {
                return None;
            }
            return Some(part.clone());
        }
        i = i - 1;
    }
    None
}

/// How many characters at the front of a path stand for its root or its leading
/// dot.
pub open spec fn lead(p: Seq<char>) -> nat {
    if absolute(p) || (p.len() > 0 && p[0] == '.' && (p.len() == 1 || p[1] == '/')) {
        1
    } else {
        0
    }
}

/// Where the last piece of `p` starts: right after the last slash at or after
/// `from`, else at `from`.
pub open spec fn piece_start(p: Seq<char>, from: nat) -> nat
    decreases p.len(),
{
    if p.len() <= from {
        from
    } else if p.last() == '/' {
        p.len()
    } else {
        piece_start(p.drop_last(), from)
    }
}

/// What is left of `p` without its last piece and the slash before it.
pub open spec fn without_piece(p: Seq<char>, from: nat) -> Seq<char> {
    let s = piece_start(p, from);
    if s > from {
        p.take(s - 1)
    } else {
        p.take(from as int)
    }
}

proof fn lemma_piece_start(p: Seq<char>, from: nat)
    ensures
        from <= piece_start(p, from),
        from <= p.len() ==> piece_start(p, from) <= p.len(),
    decreases p.len(),
{
    if p.len() > from && p.last() != '/' {
        lemma_piece_start(p.drop_last(), from);
    }
}

/// `p` without trailing pieces that name nothing (empty ones and single dots).
pub open spec fn trim_pieces(p: Seq<char>, from: nat) -> Seq<char>
    decreases p.len(),
    via trim_pieces_decreases
{
    if p.len() <= from {
        p
    } else {
        let last = p.skip(piece_start(p, from) as int);
        if last.len() == 0 || last == seq!['.'] {
            trim_pieces(without_piece(p, from), from)
        } else {
            p
        }
    }
}

#[via_fn]
proof fn trim_pieces_decreases(p: Seq<char>, from: nat) {
    lemma_piece_start(p, from);
}

/// The directory that a path lies in.
pub open spec fn parent_of(p: Seq<char>) -> Option<Seq<char>> {
    let t = trim_pieces(p, lead(p));
    if t.len() > lead(p) {
        Some(trim_pieces(without_piece(t, lead(p)), lead(p)))
    } else if absolute(p) || p.len() == 0 {
        None
    } else {
        Some(seq![])
    }
}

fn find_piece(cs: &Vec<char>, end: usize, from: usize) -> (r: usize)
    requires
        from <= end <= cs@.len(),
    ensures
        r == piece_start(cs@.take(end as int), from as nat),
        from <= r <= end,
{
    let mut i: usize = end;
    while i > from
        invariant
            from <= i <= end <= cs@.len(),
            piece_start(cs@.take(end as int), from as nat) == piece_start(
                cs@.take(i as int),
                from as nat,
            ),
        decreases i,
    {
        assert(cs@.take(i as int).drop_last() =~= cs@.take(i - 1));
        if cs[i - 1] == '/' {
            return i;
        }
        i = i - 1;
    }
    i
}

fn trimmed_end(cs: &Vec<char>, end: usize, from: usize) -> (r: usize)
    requires
        from <= end <= cs@.len(),
    ensures
        from <= r <= end,
        cs@.take(r as int) == trim_pieces(cs@.take(end as int), from as nat),
{
    let mut e: usize = end;
    while e > from
        invariant
            from <= e <= end <= cs@.len(),
            trim_pieces(cs@.take(e as int), from as nat) == trim_pieces(
                cs@.take(end as int),
                from as nat,
            ),
        decreases e,
    {
        let s = find_piece(cs, e, from);
        let ghost p = cs@.take(e as int);
        let ghost last = p.skip(s as int);
        assert(last.len() == e - s);
        let redundant = s == e || (e - s == 1 && cs[s] == '.');
        assert(redundant == (last.len() == 0 || last == seq!['.'])) by {
            if e - s == 1 {
                assert(last[0] == cs@[s as int]);
                if cs@[s as int] == '.' {
                    assert(last =~= seq!['.']);
                }
            }
        }
        if !redundant {
            return e;
        }
        let next: usize = if s > from {
            s - 1
        } else {
            from
        };
        assert(without_piece(p, from as nat) =~= cs@.take(next as int));
        e = next;
    }
    e
}

pub fn parent(p: &str) -> (r: Option<String>)
    ensures
        text::opt(r) == parent_of(p@),
{
    let cs = text::chars_of(p);
    if cs.len() == 0 {
        assert(trim_pieces(p@, lead(p@)) =~= p@);
        return None;
    }
    let from: usize = if cs[0] == '/' || (cs[0] == '.' && (cs.len() == 1 || cs[1] == '/')) {
        1
    } else {
        0
    };
    assert(cs@.take(cs@.len() as int) =~= p@);
    let e = trimmed_end(&cs, cs.len(), from);
    if e > from {
        let s = find_piece(&cs, e, from);
        let cut: usize = if s > from {
            s - 1
        } else {
            from
        };
        assert(without_piece(cs@.take(e as int), from as nat) =~= cs@.take(cut as int));
        let f = trimmed_end(&cs, cut, from);
        assert(cs@.subrange(0, f as int) =~= cs@.take(f as int));
        return Some(text::string_of(&cs, 0, f));
    }
    if cs[0] == '/' {
        None
    } else {
        let r = String::new();
        assert(r@ =~= seq![]);
        Some(r)
    }
}

// ---------------------------------------------------------------------------
// Laws
// ---------------------------------------------------------------------------
proof fn lemma_name_piece(d: Seq<char>, n: Seq<char>, from: nat)
    requires
        from <= d.len(),
        !n.contains('/'),
    ensures
        piece_start(d.push('/') + n, from) == d.len() + 1,
    decreases n.len(),
{
    let p = d.push('/') + n;
    if n.len() == 0 {
        assert(p =~= d.push('/'));
    } else {
        assert(p.last() == n.last());
        assert(n[n.len() - 1] == n.last());
        assert(p.drop_last() =~= d.push('/') + n.drop_last());
        assert(!n.drop_last().contains('/')) by {
            if n.drop_last().contains('/') {
                let i = choose|i: int| 0 <= i < n.drop_last().len() && n.drop_last()[i] == '/';
                assert(n[i] == '/');
            }
        }
        lemma_name_piece(d, n.drop_last(), from);
    }
}

/// The parent of a file in a directory is that directory, unless the directory's path
/// itself ends in a slash or a dot.
pub proof fn law_the_parent_is_the_directory(d: Seq<char>, n: Seq<char>)
    requires
        d.len() > 1,
        d.last() != '/',
        d.last() != '.',
        n.len() > 1,
        !n.contains('/'),
    ensures
        joined(d, n) == d + seq!['/'] + n,
        parent_of(joined(d, n)) == Some(d),
{
    assert(n[0] != '/') by {
        if n[0] == '/' {
            assert(n.contains('/'));
        }
    }
    let p = d.push('/') + n;
    assert(joined(d, n) == p);
    assert(p =~= d + seq!['/'] + n);
    let from = lead(p);
    assert(p[0] == d[0] && p[1] == d[1]);
    lemma_name_piece(d, n, from);
    assert(p.skip((d.len() + 1) as int) =~= n);
    assert(trim_pieces(p, from) == p);
    assert(p.take(d.len() as int) =~= d);
    assert(without_piece(p, from) == d);
    lemma_piece_start(d, from);
    let s = piece_start(d, from) as int;
    let last = d.skip(s);
    lemma_last_piece(d, from);
    assert(last.len() > 0);
    assert(last.last() == d.last());
}

proof fn lemma_last_piece(d: Seq<char>, from: nat)
    requires
        from < d.len(),
        d.last() != '/',
    ensures
        piece_start(d, from) < d.len(),
{
    lemma_piece_start(d.drop_last(), from);
}

} // verus!
