//! Wildcard patterns: a star stands for any run of symbols, a question mark for
//! exactly one.
use vstd::prelude::*;

verus! {

/// Whether the pattern `p` describes the whole of `t`: a star takes nothing, or
/// one more symbol.
pub open spec fn matches<A>(p: Seq<A>, t: Seq<A>, star: A, any: A) -> bool
    decreases p.len(), t.len(),
{
    if p.len() == 0 {
        t.len() == 0
    } else if p[0] == star {
        matches(p.skip(1), t, star, any) || (t.len() > 0 && matches(p, t.skip(1), star, any))
    } else {
        t.len() > 0 && (p[0] == any || p[0] == t[0]) && matches(p.skip(1), t.skip(1), star, any)
    }
}

/// Both sides seen from a position.
pub open spec fn matches_from<A>(p: Seq<A>, i: int, t: Seq<A>, j: int, star: A, any: A) -> bool {
    matches(p.skip(i), t.skip(j), star, any)
}

proof fn lemma_step<A>(p: Seq<A>, i: int, t: Seq<A>, j: int, star: A, any: A)
    requires
        0 <= i < p.len(),
        0 <= j <= t.len(),
    ensures
        p[i] == star ==> matches_from(p, i, t, j, star, any) == (matches_from(
            p,
            i + 1,
            t,
            j,
            star,
            any,
        ) || (j < t.len() && matches_from(p, i, t, j + 1, star, any))),
        p[i] != star ==> matches_from(p, i, t, j, star, any) == (j < t.len() && (p[i] == any
            || p[i] == t[j]) && matches_from(p, i + 1, t, j + 1, star, any)),
{
    let a = p.skip(i);
    let b = t.skip(j);
    assert(a[0] == p[i]);
    assert(a.skip(1) =~= p.skip(i + 1));
    if j < t.len() {
        assert(b[0] == t[j]);
        assert(b.skip(1) =~= t.skip(j + 1));
    }
}

/// A star stands for any run of symbols.
proof fn lemma_star<A>(p: Seq<A>, i: int, t: Seq<A>, j: int, star: A, any: A)
    requires
        0 <= i < p.len(),
        p[i] == star,
        0 <= j <= t.len(),
    ensures
        matches_from(p, i, t, j, star, any) == exists|k: int|
            j <= k <= t.len() && #[trigger] matches_from(p, i + 1, t, k, star, any),
    decreases t.len() - j,
{
    lemma_step(p, i, t, j, star, any);
    if j < t.len() {
        lemma_star(p, i, t, j + 1, star, any);
    }
    assert(j <= j <= t.len());
    if exists|k: int| j <= k <= t.len() && #[trigger] matches_from(p, i + 1, t, k, star, any) {
        let k = choose|k: int|
            j <= k <= t.len() && #[trigger] matches_from(p, i + 1, t, k, star, any);
        assert(k == j || j + 1 <= k <= t.len());
    }
}

proof fn lemma_unfold<A>(p: Seq<A>, i: int, t: Seq<A>, j: int, star: A, any: A)
    requires
        0 <= i <= p.len(),
        0 <= j <= t.len(),
    ensures
        matches_from(p, i, t, j, star, any) == (if i == p.len() {
            j == t.len()
        } else if p[i] == star {
            exists|k: int| j <= k <= t.len() && #[trigger] matches_from(p, i + 1, t, k, star, any)
        } else {
            j < t.len() && (p[i] == any || p[i] == t[j]) && matches_from(
                p,
                i + 1,
                t,
                j + 1,
                star,
                any,
            )
        }),
{
    if i < p.len() {
        lemma_step(p, i, t, j, star, any);
        if p[i] == star {
            lemma_star(p, i, t, j, star, any);
        }
    }
}

/// A star matches every text, and so does one in front of any pattern that
/// matches some end of it.
pub proof fn law_star_takes_any_run<A>(q: Seq<A>, t: Seq<A>, k: int, star: A, any: A)
    requires
        0 <= k <= t.len(),
        matches(q, t.skip(k), star, any),
    ensures
        matches(seq![star] + q, t, star, any),
{
    let p = seq![star] + q;
    assert(p.skip(0) =~= p);
    assert(t.skip(0) =~= t);
    assert(p.skip(1) =~= q);
    lemma_star(p, 0, t, 0, star, any);
    assert(matches_from(p, 1, t, k, star, any));
}

/// A pattern without wildcards matches itself and nothing else.
pub proof fn law_literal<A>(p: Seq<A>, t: Seq<A>, star: A, any: A)
    requires
        forall|i: int| 0 <= i < p.len() ==> p[i] != star && p[i] != any,
    ensures
        matches(p, t, star, any) == (p == t),
    decreases p.len(),
{
    if p.len() > 0 && t.len() > 0 {
        assert forall|i: int| 0 <= i < p.skip(1).len() implies p.skip(1)[i] != star && p.skip(1)[i]
            != any by {
            assert(p.skip(1)[i] == p[i + 1]);
        }
        law_literal(p.skip(1), t.skip(1), star, any);
        if p.skip(1) == t.skip(1) && p[0] == t[0] {
            assert(p =~= seq![p[0]] + p.skip(1));
            assert(t =~= seq![t[0]] + t.skip(1));
        }
    } else if p.len() == 0 && t.len() == 0 {
        assert(p =~= t);
    }
}

/// A pattern that ends in a star matches just the texts that start as it does.
pub proof fn law_star_at_the_end<A>(p: Seq<A>, t: Seq<A>, star: A, any: A)
    requires
        forall|i: int| 0 <= i < p.len() ==> p[i] != star && p[i] != any,
    ensures
        matches(p + seq![star], t, star, any) == p.is_prefix_of(t),
    decreases p.len(),
{
    let q = p + seq![star];
    if p.len() == 0 {
        let none = Seq::<A>::empty();
        assert(t.skip(t.len() as int) =~= none);
        law_star_takes_any_run(none, t, t.len() as int, star, any);
        assert(q =~= seq![star] + none);
    } else {
        assert(p[0] != star && p[0] != any);
        assert(q[0] == p[0]);
        assert(q.skip(1) =~= p.skip(1) + seq![star]);
        assert forall|i: int| 0 <= i < p.skip(1).len() implies p.skip(1)[i] != star && p.skip(1)[i]
            != any by {
            assert(p.skip(1)[i] == p[i + 1]);
        }
        if t.len() > 0 {
            law_star_at_the_end(p.skip(1), t.skip(1), star, any);
            if p[0] == t[0] && p.skip(1).is_prefix_of(t.skip(1)) {
                assert forall|i: int| 0 <= i < p.len() implies p[i] == #[trigger] t[i] by {
                    if i > 0 {
                        assert(p.skip(1)[i - 1] == t.skip(1).subrange(0, p.len() - 1)[i - 1]);
                    }
                }
                assert(p =~= t.subrange(0, p.len() as int));
            }
            if p.is_prefix_of(t) {
                assert(p[0] == t.subrange(0, p.len() as int)[0]);
                assert(p.skip(1) =~= t.skip(1).subrange(0, p.len() - 1)) by {
                    assert forall|i: int| 0 <= i < p.len() - 1 implies p.skip(1)[i] == t.skip(
                        1,
                    ).subrange(0, p.len() - 1)[i] by {
                        assert(p[i + 1] == t.subrange(0, p.len() as int)[i + 1]);
                    }
                }
            }
        }
    }
}

/// A pattern that starts with a star, and has no other wildcard, matches just the texts
/// that end as it does.
pub proof fn law_star_in_front<A>(p: Seq<A>, t: Seq<A>, star: A, any: A)
    requires
        forall|i: int| 0 <= i < p.len() ==> p[i] != star && p[i] != any,
    ensures
        matches(seq![star] + p, t, star, any) == (p.len() <= t.len() && t.skip(t.len() - p.len())
            == p),
{
    let q = seq![star] + p;
    assert(q.skip(0) =~= q);
    assert(t.skip(0) =~= t);
    assert(q.skip(1) =~= p);
    lemma_star(q, 0, t, 0, star, any);
    if matches(q, t, star, any) {
        assert(matches_from(q, 0, t, 0, star, any));
        let k = choose|k: int| 0 <= k <= t.len() && #[trigger] matches_from(q, 1, t, k, star, any);
        law_literal(p, t.skip(k), star, any);
        assert(t.skip(k).len() == t.len() - k);
    }
    if p.len() <= t.len() && t.skip(t.len() - p.len()) == p {
        law_literal(p, p, star, any);
        law_star_takes_any_run(p, t, t.len() - p.len(), star, any);
    }
}

/// A question mark takes exactly one symbol, whichever it is.
pub proof fn law_any_takes_one<A>(q: Seq<A>, t: Seq<A>, star: A, any: A)
    requires
        any != star,
    ensures
        matches(seq![any] + q, t, star, any) == (t.len() > 0 && matches(q, t.skip(1), star, any)),
{
    let p = seq![any] + q;
    assert(p[0] == any);
    assert(p.skip(1) =~= q);
}

/// A stretch of the pattern without stars takes as many symbols as it has.
proof fn lemma_stretch<A>(p: Seq<A>, i: int, m: int, t: Seq<A>, j: int, star: A, any: A)
    requires
        0 <= i <= m <= p.len(),
        0 <= j <= t.len(),
        forall|x: int| i <= x < m ==> p[x] != star,
        matches_from(p, i, t, j, star, any),
    ensures
        j + (m - i) <= t.len(),
        matches_from(p, m, t, j + (m - i), star, any),
    decreases m - i,
{
    if i < m {
        lemma_unfold(p, i, t, j, star, any);
        lemma_stretch(p, i + 1, m, t, j + 1, star, any);
    }
}

/// What a star can still match from a later position it can match from an
/// earlier one.
proof fn lemma_star_absorbs<A>(p: Seq<A>, i: int, t: Seq<A>, j: int, k: int, star: A, any: A)
    requires
        0 <= i < p.len(),
        p[i] == star,
        0 <= j <= k <= t.len(),
        matches_from(p, i, t, k, star, any),
    ensures
        matches_from(p, i, t, j, star, any),
{
    lemma_unfold(p, i, t, j, star, any);
    lemma_unfold(p, i, t, k, star, any);
}

/// What is still open when the matcher stands at `(pi, si)`: a match from here,
/// or one in which the last star takes more.
spec fn open_end<A>(
    p: Seq<A>,
    pi: int,
    t: Seq<A>,
    si: int,
    from_star: Option<int>,
    mark: int,
    star: A,
    any: A,
) -> bool {
    ||| matches_from(p, pi, t, si, star, any)
    ||| (from_star is Some && exists|k: int|
        mark < k <= t.len() && #[trigger] matches_from(p, from_star->0 + 1, t, k, star, any))
}

/// Matches characters, remembering only the last star.
pub fn match_chars(p: &Vec<char>, t: &Vec<char>) -> (r: bool)
    ensures
        r == matches(p@, t@, '*', '?'),
{
    let mut pi: usize = 0;
    let mut si: usize = 0;
    let mut from_star: Option<usize> = None;
    let mut mark: usize = 0;
    let ghost mut fs: Option<int> = None;
    assert(p@.skip(0) =~= p@);
    assert(t@.skip(0) =~= t@);
    while si < t.len()
        invariant
            pi <= p@.len(),
            mark <= si <= t@.len(),
            match from_star {
                Some(sp) => fs == Some(sp as int) && sp < pi && pi - sp - 1 == si - mark
                    && p@[sp as int] == '*' && (forall|x: int| sp < x < pi ==> p@[x] != '*'),
                None => fs is None && mark == 0,
            },
            matches(p@, t@, '*', '?') == open_end(
                p@,
                pi as int,
                t@,
                si as int,
                fs,
                mark as int,
                '*',
                '?',
            ),
        decreases t@.len() - mark, t@.len() - si, p@.len() - pi,
    {
        proof {
            lemma_unfold(p@, pi as int, t@, si as int, '*', '?');
        }
        if pi < p.len() && p[pi] == '*' {
            proof {
                if fs is Some && exists|k: int|
                    mark < k <= t@.len() && #[trigger] matches_from(
                        p@,
                        fs->0 + 1,
                        t@,
                        k,
                        '*',
                        '?',
                    ) {
                    let k = choose|k: int|
                        mark < k <= t@.len() && #[trigger] matches_from(
                            p@,
                            fs->0 + 1,
                            t@,
                            k,
                            '*',
                            '?',
                        );
                    lemma_stretch(p@, fs->0 + 1, pi as int, t@, k, '*', '?');
                    lemma_star_absorbs(
                        p@,
                        pi as int,
                        t@,
                        si as int,
                        k + (pi - fs->0 - 1),
                        '*',
                        '?',
                    );
                }
                fs = Some(pi as int);
            }
            from_star = Some(pi);
            mark = si;
            pi = pi + 1;
            assert(matches_from(p@, pi as int, t@, si as int, '*', '?') == matches_from(
                p@,
                fs->0 + 1,
                t@,
                mark as int,
                '*',
                '?',
            ));
        } else if pi < p.len() && (p[pi] == '?' || p[pi] == t[si]) {
            pi = pi + 1;
            si = si + 1;
        } else if let Some(sp) = from_star {
            pi = sp + 1;
            mark = mark + 1;
            si = mark;
            assert(matches_from(p@, pi as int, t@, si as int, '*', '?') == matches_from(
                p@,
                fs->0 + 1,
                t@,
                mark as int,
                '*',
                '?',
            ));
        } else {
            return false;
        }
    }
    proof {
        if fs is Some && exists|k: int|
            mark < k <= t@.len() && #[trigger] matches_from(p@, fs->0 + 1, t@, k, '*', '?') {
            let k = choose|k: int|
                mark < k <= t@.len() && #[trigger] matches_from(p@, fs->0 + 1, t@, k, '*', '?');
            lemma_stretch(p@, fs->0 + 1, pi as int, t@, k, '*', '?');
        }
    }
    while pi < p.len() && p[pi] == '*'
        invariant
            pi <= p@.len(),
            si == t@.len(),
            matches(p@, t@, '*', '?') == matches_from(p@, pi as int, t@, si as int, '*', '?'),
        decreases p@.len() - pi,
    {
        proof {
            lemma_unfold(p@, pi as int, t@, si as int, '*', '?');
        }
        pi = pi + 1;
    }
    proof {
        lemma_unfold(p@, pi as int, t@, si as int, '*', '?');
    }
    pi == p.len()
}

/// Matches bytes from the given positions on, trying every length for a star.
pub fn match_bytes(p: &[u8], pi: usize, t: &[u8], ti: usize) -> (r: bool)
    requires
        pi <= p@.len(),
        ti <= t@.len(),
    ensures
        r == matches_from(p@, pi as int, t@, ti as int, 0x2au8, 0x3fu8),
    decreases p@.len() - pi,
{
    proof {
        lemma_unfold(p@, pi as int, t@, ti as int, 0x2au8, 0x3fu8);
    }
    if pi == p.len() {
        return ti == t.len();
    }
    let c = p[pi];
    let last: usize = p.len();
    if c == 0x2a {
        let mut ni: usize = ti;
        loop
            invariant
                pi < last == p@.len(),
                ti <= ni <= t@.len(),
                p@[pi as int] == 0x2a,
                matches_from(p@, pi as int, t@, ti as int, 0x2au8, 0x3fu8) == (exists|k: int|
                    ti <= k <= t@.len() && #[trigger] matches_from(
                        p@,
                        pi + 1,
                        t@,
                        k,
                        0x2au8,
                        0x3fu8,
                    )),
                forall|k: int|
                    ti <= k < ni ==> !#[trigger] matches_from(p@, pi + 1, t@, k, 0x2au8, 0x3fu8),
            decreases t@.len() - ni,
        {
            if match_bytes(p, pi + 1, t, ni) {
                return true;
            }
            if ni == t.len() {
                return false;
            }
            ni = ni + 1;
        }
    }
    ti < t.len() && (c == 0x3f || t[ti] == c) && match_bytes(p, pi + 1, t, ti + 1)
}

} // verus!
