//! Character-level text operations, stated over `Seq<char>`.
use vstd::prelude::*;

verus! {

/// `String::push` appends one character.
pub assume_specification[ String::push ](s: &mut String, c: char)
    ensures
        final(s)@ == old(s)@.push(c),
;

// ---------------------------------------------------------------------------
// Conversions
// ---------------------------------------------------------------------------
/// The characters of `s`, in order.
pub fn chars_of(s: &str) -> (r: Vec<char>)
    ensures
        r@ == s@,
{
    let mut r: Vec<char> = Vec::new();
    for c in it: s.chars()
        invariant
            r@ == it.seq().take(it.index() as int),
            it.seq() == s@,
    {
        r.push(c);
    }
    r
}

/// The string made of the characters `cs[from..to]`.
pub fn string_of(cs: &Vec<char>, from: usize, to: usize) -> (r: String)
    requires
        from <= to <= cs@.len(),
    ensures
        r@ == cs@.subrange(from as int, to as int),
{
    let mut r = String::new();
    let mut i: usize = from;
    while i < to
        invariant
            from <= i <= to <= cs@.len(),
            r@ == cs@.subrange(from as int, i as int),
        decreases to - i,
    {
        r.push(cs[i]);
        i = i + 1;
        assert(cs@.subrange(from as int, i as int) =~= cs@.subrange(from as int, i - 1).push(cs@[i - 1]));
    }
    r
}

pub fn same(a: &str, b: &str) -> (r: bool)
    ensures
        r == (a@ == b@),
{
    let x = chars_of(a);
    let y = chars_of(b);
    if x.len() != y.len() {
        return false;
    }
    let mut i: usize = 0;
    while i < x.len()
        invariant
            i <= x@.len(),
            x@.len() == y@.len(),
            x@ == a@,
            y@ == b@,
            forall|k: int| 0 <= k < i ==> x@[k] == y@[k],
        decreases x@.len() - i,
    {
        if x[i] != y[i] {
            return false;
        }
        i = i + 1;
    }
    assert(x@ =~= y@);
    true
}

// ---------------------------------------------------------------------------
// Character classes
// ---------------------------------------------------------------------------
/// Unicode `White_Space`.
pub open spec fn is_white(c: char) -> bool {
    let u = c as u32;
    ||| 0x09 <= u <= 0x0d
    ||| u == 0x20
    ||| u == 0x85
    ||| u == 0xa0
    ||| u == 0x1680
    ||| 0x2000 <= u <= 0x200a
    ||| u == 0x2028
    ||| u == 0x2029
    ||| u == 0x202f
    ||| u == 0x205f
    ||| u == 0x3000
}

/// A set of characters to split on or to trim away.
#[derive(Clone, Copy, Debug, PartialEq, Eq)]
pub enum CharClass {
    White,
    WhiteOrEquals,
    Just(char),
}

impl CharClass {
    pub open spec fn has(self, c: char) -> bool {
        match self {
            CharClass::White => is_white(c),
            CharClass::WhiteOrEquals => is_white(c) || c == '=',
            CharClass::Just(d) => c == d,
        }
    }

    pub fn test(&self, c: char) -> (r: bool)
        ensures
            r == self.has(c),
    {
        match self {
            CharClass::White => white(c),
            CharClass::WhiteOrEquals => white(c) || c == '=',
            CharClass::Just(d) => c == *d,
        }
    }
}

pub fn white(c: char) -> (r: bool)
    ensures
        r == is_white(c),
{
    let u = c as u32;
    (0x09 <= u && u <= 0x0d) || u == 0x20 || u == 0x85 || u == 0xa0 || u == 0x1680 || (0x2000 <= u
        && u <= 0x200a) || u == 0x2028 || u == 0x2029 || u == 0x202f || u == 0x205f || u == 0x3000
}

pub open spec fn is_digit(c: char) -> bool {
    '0' as u32 <= c as u32 <= '9' as u32
}

pub open spec fn is_ascii_alphanumeric(c: char) -> bool {
    ||| is_digit(c)
    ||| 'a' as u32 <= c as u32 <= 'z' as u32
    ||| 'A' as u32 <= c as u32 <= 'Z' as u32
}

pub fn ascii_alphanumeric(c: char) -> (r: bool)
    ensures
        r == is_ascii_alphanumeric(c),
{
    let u = c as u32;
    (0x30 <= u && u <= 0x39) || (0x61 <= u && u <= 0x7a) || (0x41 <= u && u <= 0x5a)
}

// ---------------------------------------------------------------------------
// Lists of strings
// ---------------------------------------------------------------------------
/// The contents of a list of strings.
pub open spec fn strs(v: Seq<String>) -> Seq<Seq<char>> {
    Seq::new(v.len(), |i: int| v[i]@)
}

/// The views of a list.
pub open spec fn views<T: View>(v: Seq<T>) -> Seq<T::V> {
    Seq::new(v.len(), |i: int| v[i]@)
}

pub proof fn lemma_views_push<T: View>(v: Seq<T>, x: T)
    ensures
        views(v.push(x)) =~= views(v).push(x@),
{
}

/// The contents of an optional string.
pub open spec fn opt(o: Option<String>) -> Option<Seq<char>> {
    match o {
        Some(s) => Some(s@),
        None => None,
    }
}

/// The contents of a list of optional strings.
pub open spec fn opts(v: Seq<Option<String>>) -> Seq<Option<Seq<char>>> {
    Seq::new(v.len(), |i: int| opt(v[i]))
}

pub proof fn lemma_strs_push(v: Seq<String>, s: String)
    ensures
        strs(v.push(s)) =~= strs(v).push(s@),
{
}

/// The contents of an optional string slice.
pub open spec fn opt_str(o: Option<&str>) -> Option<Seq<char>> {
    match o {
        Some(s) => Some(s@),
        None => None,
    }
}

/// Adds a copy of `s` to the list.
pub fn push_str(v: &mut Vec<String>, s: &str)
    ensures
        strs(final(v)@) == strs(old(v)@).push(s@),
{
    let x = s.to_owned();
    proof {
        lemma_strs_push(v@, x);
    }
    v.push(x);
}

/// A list without members.
pub fn no_strs() -> (r: Vec<String>)
    ensures
        strs(r@) == Seq::<Seq<char>>::empty(),
{
    let r: Vec<String> = Vec::new();
    assert(strs(r@) =~= Seq::<Seq<char>>::empty());
    r
}

/// A copy of the list `v`.
pub fn clone_strs(v: &Vec<String>) -> (r: Vec<String>)
    ensures
        r@ == v@,
{
    let mut r: Vec<String> = Vec::new();
    let mut i: usize = 0;
    while i < v.len()
        invariant
            i <= v@.len(),
            r@ == v@.take(i as int),
        decreases v@.len() - i,
    {
        r.push(v[i].clone());
        i = i + 1;
        assert(v@.take(i as int) =~= v@.take(i - 1).push(v@[i - 1]));
    }
    assert(v@.take(i as int) =~= v@);
    r
}

/// A copy of an optional string.
pub fn clone_opt(o: &Option<String>) -> (r: Option<String>)
    ensures
        r == *o,
{
    match o {
        Some(s) => Some(s.clone()),
        None => None,
    }
}

/// Whether `x` is one of `v`.
pub fn list_has(v: &Vec<String>, x: &str) -> (r: bool)
    ensures
        r == strs(v@).contains(x@),
{
    let mut i: usize = 0;
    while i < v.len()
        invariant
            i <= v@.len(),
            forall|k: int| 0 <= k < i ==> v@[k]@ != x@,
        decreases v@.len() - i,
    {
        if same(v[i].as_str(), x) {
            assert(strs(v@)[i as int] == x@);
            return true;
        }
        i = i + 1;
    }
    false
}

/// `list` with `sep` between neighbours.
pub open spec fn joined(list: Seq<Seq<char>>, sep: Seq<char>) -> Seq<char>
    decreases list.len(),
{
    if list.len() == 0 {
        seq![]
    } else if list.len() == 1 {
        list[0]
    } else {
        joined(list.drop_last(), sep) + sep + list.last()
    }
}

pub fn join(list: &Vec<String>, sep: &str) -> (r: String)
    ensures
        r@ == joined(strs(list@), sep@),
{
    let mut r = String::new();
    let mut i: usize = 0;
    let ghost l = strs(list@);
    while i < list.len()
        invariant
            i <= list@.len(),
            l == strs(list@),
            r@ == joined(l.take(i as int), sep@),
        decreases list@.len() - i,
    {
        if i > 0 {
            r.append(sep);
        }
        r.append(list[i].as_str());
        i = i + 1;
        assert(l.take(i as int).drop_last() =~= l.take(i - 1));
        assert(l.take(i as int).last() == list@[i - 1]@);
        if i == 1 {
            assert(seq![] + list@[0]@ =~= list@[0]@);
        }
    }
    assert(l.take(i as int) =~= l);
    r
}

// ---------------------------------------------------------------------------
// Trimming
// ---------------------------------------------------------------------------
/// `s` without its longest prefix of characters of class `k`.
pub open spec fn trim_start(s: Seq<char>, k: CharClass) -> Seq<char>
    decreases s.len(),
{
    if s.len() > 0 && k.has(s[0]) {
        trim_start(s.drop_first(), k)
    } else {
        s
    }
}

/// `s` without its longest suffix of characters of class `k`.
pub open spec fn trim_end(s: Seq<char>, k: CharClass) -> Seq<char>
    decreases s.len(),
{
    if s.len() > 0 && k.has(s.last()) {
        trim_end(s.drop_last(), k)
    } else {
        s
    }
}

/// `s` without white space at either end.
pub open spec fn trim(s: Seq<char>) -> Seq<char> {
    trim_end(trim_start(s, CharClass::White), CharClass::White)
}

pub fn trimmed_start(s: &str, k: CharClass) -> (r: String)
    ensures
        r@ == trim_start(s@, k),
{
    let cs = chars_of(s);
    let mut i: usize = 0;
    assert(cs@.subrange(0, cs@.len() as int) =~= cs@);
    while i < cs.len() && k.test(cs[i])
        invariant
            i <= cs@.len(),
            trim_start(cs@, k) == trim_start(cs@.subrange(i as int, cs@.len() as int), k),
        decreases cs@.len() - i,
    {
        assert(cs@.subrange(i as int, cs@.len() as int).drop_first() =~= cs@.subrange(
            i + 1,
            cs@.len() as int,
        ));
        i = i + 1;
    }
    string_of(&cs, i, cs.len())
}

pub fn trimmed_end(s: &str, k: CharClass) -> (r: String)
    ensures
        r@ == trim_end(s@, k),
{
    let cs = chars_of(s);
    let mut i: usize = cs.len();
    assert(cs@.take(i as int) =~= cs@);
    while i > 0 && k.test(cs[i - 1])
        invariant
            i <= cs@.len(),
            trim_end(cs@, k) == trim_end(cs@.take(i as int), k),
        decreases i,
    {
        assert(cs@.take(i as int).drop_last() =~= cs@.take(i - 1));
        i = i - 1;
    }
    string_of(&cs, 0, i)
}

pub fn trimmed(s: &str) -> (r: String)
    ensures
        r@ == trim(s@),
{
    let a = trimmed_start(s, CharClass::White);
    trimmed_end(a.as_str(), CharClass::White)
}

// ---------------------------------------------------------------------------
// Splitting
// ---------------------------------------------------------------------------
/// The pieces of `s` between the characters of class `k`; one piece more than
/// there are such characters.
pub open spec fn split(s: Seq<char>, k: CharClass) -> Seq<Seq<char>>
    decreases s.len(),
{
    if s.len() == 0 {
        seq![seq![]]
    } else {
        let init = split(s.drop_last(), k);
        if k.has(s.last()) {
            init.push(seq![])
        } else {
            init.update(init.len() - 1, init.last().push(s.last()))
        }
    }
}

pub proof fn lemma_split_len(s: Seq<char>, k: CharClass)
    ensures
        split(s, k).len() >= 1,
    decreases s.len(),
{
    if s.len() > 0 {
        lemma_split_len(s.drop_last(), k);
    }
}

pub proof fn lemma_split_joined(a: Seq<char>, b: Seq<char>, c: char)
    ensures
        split(a + seq![c] + b, CharClass::Just(c)) == split(a, CharClass::Just(c))
            + split(b, CharClass::Just(c)),
    decreases b.len(),
{
    let k = CharClass::Just(c);
    let s = a + seq![c] + b;
    let sa = split(a, k);
    if b.len() == 0 {
        assert(s.drop_last() =~= a);
        assert(sa.push(seq![]) =~= sa + seq![Seq::<char>::empty()]);
    } else {
        let init = b.drop_last();
        assert(s.drop_last() =~= a + seq![c] + init);
        lemma_split_joined(a, init, c);
        lemma_split_len(init, k);
        let si = split(init, k);
        if k.has(b.last()) {
            assert((sa + si).push(seq![]) =~= sa + si.push(seq![]));
        } else {
            let l = si.last().push(b.last());
            assert((sa + si).last() == si.last());
            assert((sa + si).update((sa + si).len() - 1, l) =~= sa + si.update(si.len() - 1, l));
        }
    }
}

pub proof fn lemma_one_line(s: Seq<char>, c: char)
    requires
        !s.contains(c),
    ensures
        split(s, CharClass::Just(c)) == seq![s],
    decreases s.len(),
{
    if s.len() > 0 {
        assert(s[s.len() - 1] != c);
        assert forall|d: char| s.drop_last().contains(d) implies s.contains(d) by {
            let i = choose|i: int| 0 <= i < s.drop_last().len() && s.drop_last()[i] == d;
            assert(s[i] == d);
        }
        lemma_one_line(s.drop_last(), c);
        assert(s.drop_last().push(s.last()) =~= s);
        assert(seq![s.drop_last()].update(0, s) =~= seq![s]);
    } else {
        assert(s =~= seq![]);
    }
}

/// The members of `parts` that are not empty, in order.
pub open spec fn non_empty(parts: Seq<Seq<char>>) -> Seq<Seq<char>>
    decreases parts.len(),
{
    if parts.len() == 0 {
        seq![]
    } else if parts.last().len() > 0 {
        non_empty(parts.drop_last()).push(parts.last())
    } else {
        non_empty(parts.drop_last())
    }
}

/// The maximal runs of characters that are not white space.
pub open spec fn words(s: Seq<char>) -> Seq<Seq<char>> {
    non_empty(split(s, CharClass::White))
}

pub fn split_by(s: &str, k: CharClass) -> (r: Vec<String>)
    ensures
        strs(r@) == split(s@, k),
        r@.len() > 0,
{
    let cs = chars_of(s);
    let mut parts: Vec<String> = Vec::new();
    let mut cur = String::new();
    let mut i: usize = 0;
    assert(strs(parts@).push(cur@) =~= split(cs@.take(0), k));
    while i < cs.len()
        invariant
            i <= cs@.len(),
            strs(parts@).push(cur@) == split(cs@.take(i as int), k),
        decreases cs@.len() - i,
    {
        let c = cs[i];
        let ghost before = strs(parts@).push(cur@);
        let ghost old_cur = cur@;
        let ghost old_parts = parts@;
        let ghost t = cs@.take(i + 1);
        assert(t.drop_last() =~= cs@.take(i as int));
        assert(t.last() == c);
        if k.test(c) {
            parts.push(cur);
            cur = String::new();
            assert(strs(parts@).push(cur@) =~= before.push(seq![]));
        } else {
            cur.push(c);
            assert(strs(parts@).push(cur@) =~= before.update(before.len() - 1, old_cur.push(c)));
        }
        i = i + 1;
    }
    assert(cs@.take(i as int) =~= cs@);
    parts.push(cur);
    assert(strs(parts@) =~= split(s@, k));
    parts
}

pub fn drop_empty(parts: Vec<String>) -> (r: Vec<String>)
    ensures
        strs(r@) == non_empty(strs(parts@)),
{
    let mut r: Vec<String> = Vec::new();
    let mut i: usize = 0;
    let ghost p = strs(parts@);
    assert(strs(r@) =~= non_empty(p.take(0)));
    while i < parts.len()
        invariant
            i <= parts@.len(),
            p == strs(parts@),
            strs(r@) == non_empty(p.take(i as int)),
        decreases parts@.len() - i,
    {
        assert(p.take(i + 1).drop_last() =~= p.take(i as int));
        assert(p.take(i + 1).last() == parts@[i as int]@);
        if !parts[i].as_str().is_empty() {
            let x = parts[i].clone();
            proof {
                lemma_strs_push(r@, x);
            }
            r.push(x);
        }
        i = i + 1;
    }
    assert(p.take(i as int) =~= p);
    r
}

pub fn split_words(s: &str) -> (r: Vec<String>)
    ensures
        strs(r@) == words(s@),
{
    drop_empty(split_by(s, CharClass::White))
}

/// How many characters of `s` come before the first one of class `k`.
pub open spec fn until(s: Seq<char>, k: CharClass) -> nat
    decreases s.len(),
{
    if s.len() == 0 || k.has(s[0]) {
        0
    } else {
        1 + until(s.drop_first(), k)
    }
}

pub proof fn lemma_until_bound(s: Seq<char>, k: CharClass)
    ensures
        until(s, k) <= s.len(),
        until(s, k) < s.len() ==> k.has(s[until(s, k) as int]),
    decreases s.len(),
{
    if s.len() > 0 && !k.has(s[0]) {
        lemma_until_bound(s.drop_first(), k);
    }
}

pub fn find_class(cs: &Vec<char>, k: CharClass) -> (r: usize)
    ensures
        r == until(cs@, k),
        r <= cs@.len(),
        r < cs@.len() ==> k.has(cs@[r as int]),
{
    let mut i: usize = 0;
    assert(cs@.skip(0) =~= cs@);
    while i < cs.len() && !k.test(cs[i])
        invariant
            i <= cs@.len(),
            until(cs@, k) == i + until(cs@.skip(i as int), k),
        decreases cs@.len() - i,
    {
        assert(cs@.skip(i as int).drop_first() =~= cs@.skip(i + 1));
        i = i + 1;
    }
    i
}

/// A line without the carriage return that ends it.
pub open spec fn strip_cr(s: Seq<char>) -> Seq<char> {
    if s.len() > 0 && s.last() == '\r' {
        s.drop_last()
    } else {
        s
    }
}

/// The lines of `s`: split after each line feed, without the line feed and a
/// carriage return right before it; what follows the last line feed is a line
/// unless it is empty.
pub open spec fn lines(s: Seq<char>) -> Seq<Seq<char>> {
    let p = split(s, CharClass::Just('\n'));
    let body = p.drop_last().map_values(|l: Seq<char>| strip_cr(l));
    if p.last().len() == 0 {
        body
    } else {
        body.push(p.last())
    }
}

pub fn split_lines(s: &str) -> (r: Vec<String>)
    ensures
        strs(r@) == lines(s@),
{
    let parts = split_by(s, CharClass::Just('\n'));
    let mut r: Vec<String> = Vec::new();
    let mut i: usize = 0;
    let ghost p = strs(parts@);
    let ghost body = p.drop_last().map_values(|l: Seq<char>| strip_cr(l));
    while i < parts.len() - 1
        invariant
            0 <= i < parts@.len(),
            p == strs(parts@),
            body == p.drop_last().map_values(|l: Seq<char>| strip_cr(l)),
            strs(r@) == body.take(i as int),
        decreases parts@.len() - i,
    {
        let cs = chars_of(parts[i].as_str());
        let x = if cs.len() > 0 && cs[cs.len() - 1] == '\r' {
            string_of(&cs, 0, cs.len() - 1)
        } else {
            parts[i].clone()
        };
        assert(x@ =~= strip_cr(parts@[i as int]@));
        assert(p.drop_last()[i as int] == parts@[i as int]@);
        proof {
            lemma_strs_push(r@, x);
        }
        r.push(x);
        i = i + 1;
        assert(strs(r@) =~= body.take(i as int));
    }
    assert(body.take(i as int) =~= body);
    if !parts[i].as_str().is_empty() {
        let x = parts[i].clone();
        r.push(x);
        assert(strs(r@) =~= body.push(p.last()));
    }
    r
}

// ---------------------------------------------------------------------------
// Searching and replacing
// ---------------------------------------------------------------------------
/// Whether `p` stands in `s` at position `i`.
pub open spec fn occurs_at(s: Seq<char>, p: Seq<char>, i: int) -> bool {
    0 <= i && i + p.len() <= s.len() && s.subrange(i, i + p.len()) == p
}

/// Whether `p` is a substring of `s`.
pub open spec fn contains(s: Seq<char>, p: Seq<char>) -> bool {
    exists|i: int| #[trigger] occurs_at(s, p, i)
}

/// What stands between other texts is contained in the whole.
pub proof fn lemma_contains_within(pre: Seq<char>, p: Seq<char>, post: Seq<char>)
    ensures
        contains(pre + p + post, p),
{
    let s = pre + p + post;
    assert(s.subrange(pre.len() as int, (pre.len() + p.len()) as int) =~= p);
    assert(occurs_at(s, p, pre.len() as int));
}

fn occurs_here(s: &Vec<char>, p: &Vec<char>, i: usize) -> (r: bool)
    requires
        i + p@.len() <= s@.len(),
    ensures
        r == occurs_at(s@, p@, i as int),
{
    let n = s.len();
    let mut j: usize = 0;
    while j < p.len()
        invariant
            i + p@.len() <= n == s@.len(),
            j <= p@.len(),
            forall|k: int| 0 <= k < j ==> s@[i + k] == p@[k],
        decreases p@.len() - j,
    {
        if s[i + j] != p[j] {
            assert(s@.subrange(i as int, i + p@.len())[j as int] != p@[j as int]);
            return false;
        }
        j = j + 1;
    }
    assert(s@.subrange(i as int, i + p@.len()) =~= p@);
    true
}

pub fn has_substring(s: &str, p: &str) -> (r: bool)
    ensures
        r == contains(s@, p@),
{
    let a = chars_of(s);
    let b = chars_of(p);
    if b.len() > a.len() {
        return false;
    }
    let mut i: usize = 0;
    while i <= a.len() - b.len()
        invariant
            a@ == s@,
            b@ == p@,
            b@.len() <= a@.len(),
            i <= a@.len() - b@.len() + 1,
            forall|k: int| 0 <= k < i ==> !occurs_at(a@, b@, k),
        decreases a@.len() - b@.len() + 1 - i,
    {
        if occurs_here(&a, &b, i) {
            return true;
        }
        if i == a.len() - b.len() {
            assert(forall|k: int| !occurs_at(a@, b@, k));
            return false;
        }
        i = i + 1;
    }
    false
}

/// Whether the character `c` occurs in `s`.
pub fn has_char(s: &str, c: char) -> (r: bool)
    ensures
        r == s@.contains(c),
{
    let a = chars_of(s);
    let mut i: usize = 0;
    while i < a.len()
        invariant
            a@ == s@,
            i <= a@.len(),
            forall|k: int| 0 <= k < i ==> a@[k] != c,
        decreases a@.len() - i,
    {
        if a[i] == c {
            assert(s@[i as int] == c);
            return true;
        }
        i = i + 1;
    }
    false
}

pub fn has_prefix(s: &str, p: &str) -> (r: bool)
    ensures
        r == p@.is_prefix_of(s@),
{
    let a = chars_of(s);
    let b = chars_of(p);
    if b.len() > a.len() {
        return false;
    }
    occurs_here(&a, &b, 0)
}

/// What follows `p` in `s`, where `s` starts with `p`.
pub open spec fn after_prefix(s: Seq<char>, p: Seq<char>) -> Option<Seq<char>> {
    if p.is_prefix_of(s) {
        Some(s.skip(p.len() as int))
    } else {
        None
    }
}

pub fn strip_prefix(s: &str, p: &str) -> (r: Option<String>)
    ensures
        opt(r) == after_prefix(s@, p@),
{
    if has_prefix(s, p) {
        let a = chars_of(s);
        let b = chars_of(p);
        let r = string_of(&a, b.len(), a.len());
        assert(r@ =~= s@.skip(p@.len() as int));
        Some(r)
    } else {
        None
    }
}

/// `s` with each occurrence of `p`, taken from the left without overlap,
/// replaced by `w`.
pub open spec fn replace(s: Seq<char>, p: Seq<char>, w: Seq<char>) -> Seq<char>
    recommends
        p.len() > 0,
    decreases s.len(),
{
    if s.len() == 0 || p.len() == 0 {
        s
    } else if p.is_prefix_of(s) {
        w + replace(s.skip(p.len() as int), p, w)
    } else {
        seq![s[0]] + replace(s.drop_first(), p, w)
    }
}

pub fn replaced(s: &str, p: &str, w: &str) -> (r: String)
    requires
        p@.len() > 0,
    ensures
        r@ == replace(s@, p@, w@),
{
    let a = chars_of(s);
    let b = chars_of(p);
    let mut out = String::new();
    let mut i: usize = 0;
    assert(a@.skip(0) =~= a@);
    assert(out@ + replace(a@, p@, w@) =~= replace(a@, p@, w@));
    while i < a.len()
        invariant
            i <= a@.len(),
            a@ == s@,
            b@ == p@,
            b@.len() > 0,
            replace(s@, p@, w@) == out@ + replace(a@.skip(i as int), p@, w@),
        decreases a@.len() - i,
    {
        let ghost rest = a@.skip(i as int);
        let hit = if b.len() <= a.len() - i {
            occurs_here(&a, &b, i)
        } else {
            false
        };
        assert(hit == p@.is_prefix_of(rest)) by {
            if b@.len() <= rest.len() {
                assert(a@.subrange(i as int, i + b@.len()) =~= rest.subrange(0, b@.len() as int));
            }
        }
        let ghost before = out@;
        if hit {
            out.append(w);
            i = i + b.len();
            assert(rest.skip(p@.len() as int) =~= a@.skip(i as int));
            assert(before + (w@ + replace(a@.skip(i as int), p@, w@)) =~= out@ + replace(
                a@.skip(i as int),
                p@,
                w@,
            ));
        } else {
            out.push(a[i]);
            i = i + 1;
            assert(rest.drop_first() =~= a@.skip(i as int));
            assert(before + (seq![rest[0]] + replace(a@.skip(i as int), p@, w@)) =~= out@ + replace(
                a@.skip(i as int),
                p@,
                w@,
            ));
        }
    }
    assert(a@.skip(i as int) =~= seq![]);
    assert(out@ + replace(a@.skip(i as int), p@, w@) =~= out@);
    out
}

// ---------------------------------------------------------------------------
// Case
// ---------------------------------------------------------------------------
pub open spec fn ascii_lower(c: char) -> char {
    if 'A' as u32 <= c as u32 <= 'Z' as u32 {
        ((c as u32 + 32) as u32) as char
    } else {
        c
    }
}

/// `s` with the letters `A` to `Z` in lower case.
pub open spec fn ascii_lowercase(s: Seq<char>) -> Seq<char> {
    s.map_values(|c: char| ascii_lower(c))
}

pub open spec fn ascii_upper(c: char) -> char {
    if 'a' as u32 <= c as u32 <= 'z' as u32 {
        ((c as u32 - 32) as u32) as char
    } else {
        c
    }
}

/// `s` with the letters `a` to `z` in upper case.
pub open spec fn ascii_uppercase(s: Seq<char>) -> Seq<char> {
    s.map_values(|c: char| ascii_upper(c))
}

/// Whether two texts differ at most in the case of the letters `A` to `Z`.
pub open spec fn same_but_case(s: Seq<char>, t: Seq<char>) -> bool {
    ascii_lowercase(s) == ascii_lowercase(t)
}

pub proof fn lemma_case_changes(s: Seq<char>)
    ensures
        same_but_case(ascii_uppercase(s), s),
        same_but_case(ascii_lowercase(s), s),
{
    assert forall|i: int| 0 <= i < s.len() implies ascii_lower(ascii_upper(s[i])) == ascii_lower(
        s[i],
    ) && ascii_lower(ascii_lower(s[i])) == ascii_lower(s[i]) by {}
    assert(ascii_lowercase(ascii_uppercase(s)) =~= ascii_lowercase(s));
    assert(ascii_lowercase(ascii_lowercase(s)) =~= ascii_lowercase(s));
}

pub fn to_ascii_lowercase(s: &str) -> (r: String)
    ensures
        r@ == ascii_lowercase(s@),
{
    let a = chars_of(s);
    let mut r = String::new();
    let mut i: usize = 0;
    while i < a.len()
        invariant
            a@ == s@,
            i <= a@.len(),
            r@ == ascii_lowercase(a@.take(i as int)),
        decreases a@.len() - i,
    {
        let c = a[i];
        let u = c as u32;
        let l: char = if 0x41 <= u && u <= 0x5a {
            ((u + 32) as u8) as char
        } else {
            c
        };
        assert(l == ascii_lower(c));
        r.push(l);
        i = i + 1;
        assert(ascii_lowercase(a@.take(i as int)) =~= ascii_lowercase(a@.take(i - 1)).push(l));
    }
    assert(a@.take(i as int) =~= a@);
    r
}

// ---------------------------------------------------------------------------
// Numbers
// ---------------------------------------------------------------------------
pub open spec fn digit(d: nat) -> char {
    seq!['0', '1', '2', '3', '4', '5', '6', '7', '8', '9', 'a', 'b', 'c', 'd', 'e', 'f'][d as int]
}

fn digit_char(d: u64) -> (r: char)
    requires
        d < 16,
    ensures
        r == digit(d as nat),
{
    match d {
        0 => '0',
        1 => '1',
        2 => '2',
        3 => '3',
        4 => '4',
        5 => '5',
        6 => '6',
        7 => '7',
        8 => '8',
        9 => '9',
        10 => 'a',
        11 => 'b',
        12 => 'c',
        13 => 'd',
        14 => 'e',
        _ => 'f',
    }
}

/// `n` in decimal, without leading zeros.
pub open spec fn decimal(n: nat) -> Seq<char>
    decreases n,
{
    if n < 10 {
        seq![digit(n)]
    } else {
        decimal(n / 10).push(digit(n % 10))
    }
}

pub fn to_decimal_wide(n: u128) -> (r: String)
    ensures
        r@ == decimal(n as nat),
    decreases n,
{
    if n < 10 {
        let mut r = String::new();
        r.push(digit_char(n as u64));
        assert(r@ =~= seq![digit(n as nat)]);
        r
    } else {
        let mut r = to_decimal_wide(n / 10);
        r.push(digit_char((n % 10) as u64));
        r
    }
}

pub fn to_decimal(n: u64) -> (r: String)
    ensures
        r@ == decimal(n as nat),
{
    to_decimal_wide(n as u128)
}

/// `n` in decimal, with a minus sign where it is negative.
pub open spec fn signed_decimal(n: int) -> Seq<char> {
    if n < 0 {
        seq!['-'] + decimal((-n) as nat)
    } else {
        decimal(n as nat)
    }
}

pub fn to_signed_decimal(n: i32) -> (r: String)
    ensures
        r@ == signed_decimal(n as int),
{
    if n < 0 {
        let mut r = String::new();
        r.push('-');
        let m = (-(n as i64)) as u64;
        let d = to_decimal(m);
        r.append(d.as_str());
        assert(r@ =~= seq!['-'] + decimal((-(n as int)) as nat));
        r
    } else {
        to_decimal(n as u64)
    }
}

/// The last `width` hexadecimal digits of `n`, lower case, with leading zeros.
pub open spec fn hex(n: nat, width: nat) -> Seq<char>
    decreases width,
{
    if width == 0 {
        seq![]
    } else {
        hex(n / 16, (width - 1) as nat).push(digit(n % 16))
    }
}

pub fn to_hex(n: u64, width: u64) -> (r: String)
    ensures
        r@ == hex(n as nat, width as nat),
        r@.len() == width,
    decreases width,
{
    if width == 0 {
        String::new()
    } else {
        let mut r = to_hex(n / 16, width - 1);
        r.push(digit_char(n % 16));
        r
    }
}

pub open spec fn digit_value(c: char) -> nat {
    (c as u32 - '0' as u32) as nat
}

/// The number that a run of decimal digits spells; none where some character
/// is no digit.
pub open spec fn digits_value(s: Seq<char>) -> Option<nat>
    decreases s.len(),
{
    if s.len() == 0 {
        Some(0)
    } else {
        match digits_value(s.drop_last()) {
            Some(v) => if is_digit(s.last()) {
                Some(10 * v + digit_value(s.last()))
            } else {
                None
            },
            None => None,
        }
    }
}

/// An unsigned decimal number of at most `max`: digits, with an optional plus
/// sign in front.
pub open spec fn unsigned(s: Seq<char>, max: nat) -> Option<nat> {
    let body = if s.len() > 0 && s[0] == '+' {
        s.drop_first()
    } else {
        s
    };
    match digits_value(body) {
        Some(v) => if body.len() > 0 && v <= max {
            Some(v)
        } else {
            None
        },
        None => None,
    }
}

proof fn lemma_digits_prefix(s: Seq<char>, n: int)
    requires
        0 <= n <= s.len(),
        digits_value(s) is Some,
    ensures
        digits_value(s.take(n)) is Some,
        digits_value(s.take(n))->0 <= digits_value(s)->0,
    decreases s.len(),
{
    if n == s.len() {
        assert(s.take(n) =~= s);
    } else {
        lemma_digits_prefix(s.drop_last(), n);
        assert(s.drop_last().take(n) =~= s.take(n));
    }
}

pub fn parse_unsigned(s: &str, max: u64) -> (r: Option<u64>)
    ensures
        match r {
            Some(v) => unsigned(s@, max as nat) == Some(v as nat),
            None => unsigned(s@, max as nat) is None,
        },
{
    let cs = chars_of(s);
    let start: usize = if cs.len() > 0 && cs[0] == '+' {
        1
    } else {
        0
    };
    let ghost body = if s@.len() > 0 && s@[0] == '+' {
        s@.drop_first()
    } else {
        s@
    };
    assert(body =~= cs@.subrange(start as int, cs@.len() as int));
    if start == cs.len() {
        return None;
    }
    let mut acc: u64 = 0;
    let mut i: usize = start;
    assert(body.take(0) =~= seq![]);
    while i < cs.len()
        invariant
            start <= i <= cs@.len(),
            start <= 1,
            body == cs@.subrange(start as int, cs@.len() as int),
            body.len() == cs@.len() - start,
            digits_value(body.take(i - start)) == Some(acc as nat),
            acc <= max,
            unsigned(s@, max as nat) == match digits_value(body) {
                Some(v) => if body.len() > 0 && v <= max {
                    Some(v)
                } else {
                    None
                },
                None => None::<nat>,
            },
        decreases cs@.len() - i,
    {
        let c = cs[i];
        let u = c as u32;
        let ghost n = i - start + 1;
        assert(body.take(n).drop_last() =~= body.take(n - 1));
        assert(body.take(n).last() == c);
        if u < 0x30 || u > 0x39 {
            proof {
                if digits_value(body) is Some {
                    lemma_digits_prefix(body, n);
                }
            }
            return None;
        }
        let d: u128 = (u - 0x30) as u128;
        let next: u128 = (acc as u128) * 10 + d;
        assert(digits_value(body.take(n)) == Some(next as nat));
        if next > max as u128 {
            proof {
                if digits_value(body) is Some {
                    lemma_digits_prefix(body, n);
                }
            }
            return None;
        }
        acc = next as u64;
        i = i + 1;
    }
    assert(body.take(i - start) =~= body);
    Some(acc)
}

/// A number in decimal is made of digits, and is read back as that number.
pub proof fn lemma_decimal_read_back(n: nat)
    ensures
        decimal(n).len() > 0,
        digits_value(decimal(n)) == Some(n),
        forall|i: int| 0 <= i < decimal(n).len() ==> is_digit(#[trigger] decimal(n)[i]),
    decreases n,
{
    if n < 10 {
        let s = decimal(n);
        assert(s.drop_last() =~= seq![]);
        assert(digits_value(s.drop_last()) == Some(0nat));
        lemma_digit(n);
    } else {
        lemma_decimal_read_back(n / 10);
        lemma_digit(n % 10);
        let s = decimal(n);
        assert(s.drop_last() =~= decimal(n / 10));
        assert(s.last() == digit(n % 10));
        assert(10 * (n / 10) + n % 10 == n);
        assert forall|i: int| 0 <= i < s.len() implies is_digit(#[trigger] s[i]) by {
            if i < s.len() - 1 {
                assert(s[i] == decimal(n / 10)[i]);
            }
        }
    }
}

proof fn lemma_digit(d: nat)
    requires
        d < 10,
    ensures
        is_digit(digit(d)),
        digit_value(digit(d)) == d,
{
}

/// A number in decimal is read back as an unsigned number, where it is not too large.
pub proof fn lemma_unsigned_read_back(n: nat, max: nat)
    requires
        n <= max,
    ensures
        unsigned(decimal(n), max) == Some(n),
{
    lemma_decimal_read_back(n);
    assert(is_digit(decimal(n)[0]));
}

/// A number in decimal holds nothing but digits.
pub proof fn lemma_decimal_lacks(n: nat, c: char)
    requires
        !is_digit(c),
    ensures
        !decimal(n).contains(c),
{
    lemma_decimal_read_back(n);
    if decimal(n).contains(c) {
        let i = choose|i: int| 0 <= i < decimal(n).len() && decimal(n)[i] == c;
        assert(is_digit(decimal(n)[i]));
    }
}

// ---------------------------------------------------------------------------
// Padding
// ---------------------------------------------------------------------------
/// `n` spaces.
pub open spec fn blank(n: nat) -> Seq<char> {
    Seq::new(n, |i: int| ' ')
}

pub fn spaces(n: usize) -> (r: String)
    ensures
        r@ == blank(n as nat),
{
    let mut r = String::new();
    let mut i: usize = 0;
    while i < n
        invariant
            i <= n,
            r@ =~= blank(i as nat),
        decreases n - i,
    {
        r.push(' ');
        i = i + 1;
    }
    r
}

// ---------------------------------------------------------------------------
// Laws
// ---------------------------------------------------------------------------
/// Nothing but blanks.
pub open spec fn blanks(s: Seq<char>) -> bool {
    forall|i: int| 0 <= i < s.len() ==> is_white(#[trigger] s[i])
}

proof fn lemma_start_trimmed(pre: Seq<char>, s: Seq<char>)
    requires
        blanks(pre),
        s.len() == 0 || !is_white(s[0]),
    ensures
        trim_start(pre + s, CharClass::White) == s,
    decreases pre.len(),
{
    if pre.len() == 0 {
        assert(pre + s =~= s);
    } else {
        assert(is_white(pre[0]));
        assert((pre + s)[0] == pre[0]);
        assert((pre + s).drop_first() =~= pre.drop_first() + s);
        assert forall|i: int| 0 <= i < pre.drop_first().len() implies is_white(
            #[trigger] pre.drop_first()[i],
        ) by {
            assert(pre.drop_first()[i] == pre[i + 1]);
        }
        lemma_start_trimmed(pre.drop_first(), s);
    }
}

proof fn lemma_end_trimmed(s: Seq<char>, post: Seq<char>)
    requires
        blanks(post),
        s.len() == 0 || !is_white(s.last()),
    ensures
        trim_end(s + post, CharClass::White) == s,
    decreases post.len(),
{
    if post.len() == 0 {
        assert(s + post =~= s);
    } else {
        assert(is_white(post[post.len() - 1]));
        assert((s + post).last() == post.last());
        assert((s + post).drop_last() =~= s + post.drop_last());
        assert forall|i: int| 0 <= i < post.drop_last().len() implies is_white(
            #[trigger] post.drop_last()[i],
        ) by {
            assert(post.drop_last()[i] == post[i]);
        }
        lemma_end_trimmed(s, post.drop_last());
    }
}

/// Trimming takes the blanks away at both ends, and nothing else.
pub proof fn law_trim(pre: Seq<char>, s: Seq<char>, post: Seq<char>)
    requires
        blanks(pre),
        blanks(post),
        s.len() > 0,
        !is_white(s[0]),
        !is_white(s.last()),
    ensures
        trim(pre + s + post) == s,
        trim(pre + post).len() == 0,
{
    assert(pre + s + post =~= pre + (s + post));
    assert((s + post)[0] == s[0]);
    lemma_start_trimmed(pre, s + post);
    lemma_end_trimmed(s, post);
    let none = Seq::<char>::empty();
    let all = pre + post;
    assert(blanks(all)) by {
        assert forall|i: int| 0 <= i < all.len() implies is_white(#[trigger] all[i]) by {
            if i < pre.len() {
                assert(all[i] == pre[i]);
            } else {
                assert(all[i] == post[i - pre.len()]);
            }
        }
    }
    lemma_start_trimmed(all, none);
    assert(all + none =~= all);
}

/// A text of lines without line feeds or carriage returns, with a line feed after each of
/// them, has those lines; and so it has where the last one is not empty and lacks its own.
pub proof fn law_lines(ls: Seq<Seq<char>>)
    requires
        forall|i: int|
            0 <= i < ls.len() ==> !(#[trigger] ls[i]).contains('\n') && !ls[i].contains('\r'),
        ls.len() > 0,
        ls.last().len() > 0,
    ensures
        lines(joined(ls, seq!['\n'])) == ls,
        lines(joined(ls, seq!['\n']).push('\n')) == ls,
{
    let s = joined(ls, seq!['\n']);
    lemma_split_lines(ls);
    let none = Seq::<char>::empty();
    assert(split(s, CharClass::Just('\n')) == ls);
    assert forall|l: Seq<char>| !l.contains('\r') implies #[trigger] strip_cr(l) == l by {
        if l.len() > 0 {
            assert(l[l.len() - 1] == l.last());
        }
    }
    let cut = |l: Seq<char>| strip_cr(l);
    assert(ls.drop_last().map_values(cut) =~= ls.drop_last()) by {
        assert forall|i: int| 0 <= i < ls.len() - 1 implies strip_cr(ls.drop_last()[i])
            == ls.drop_last()[i] by {
            assert(ls.drop_last()[i] == ls[i]);
        }
    }
    assert(ls.drop_last().push(ls.last()) =~= ls);
    let t = s.push('\n');
    assert(t.drop_last() =~= s);
    assert(split(t, CharClass::Just('\n')) == ls.push(none));
    assert(ls.push(none).drop_last() =~= ls);
    assert(ls.map_values(cut) =~= ls) by {
        assert forall|i: int| 0 <= i < ls.len() implies strip_cr(ls[i]) == ls[i] by {
            assert(!ls[i].contains('\r'));
        }
    }
}

proof fn lemma_split_lines(ls: Seq<Seq<char>>)
    requires
        forall|i: int| 0 <= i < ls.len() ==> !(#[trigger] ls[i]).contains('\n'),
        ls.len() > 0,
    ensures
        split(joined(ls, seq!['\n']), CharClass::Just('\n')) == ls,
    decreases ls.len(),
{
    let last = ls.last();
    assert(ls[ls.len() - 1] == last);
    lemma_one_line(last, '\n');
    if ls.len() == 1 {
        assert(seq![last] =~= ls);
    } else {
        let init = ls.drop_last();
        assert forall|i: int| 0 <= i < init.len() implies !(#[trigger] init[i]).contains('\n') by {
            assert(init[i] == ls[i]);
        }
        lemma_split_lines(init);
        lemma_split_joined(joined(init, seq!['\n']), last, '\n');
        assert(init + seq![last] =~= ls);
    }
}

/// Each occurrence is replaced: the first one after a stretch that holds none, and those
/// in what follows.
pub proof fn law_replace(a: Seq<char>, p: Seq<char>, b: Seq<char>, w: Seq<char>)
    requires
        p.len() > 0,
        forall|i: int| 0 <= i < a.len() ==> !p.is_prefix_of(#[trigger] (a + p + b).skip(i)),
    ensures
        replace(a + p + b, p, w) == a + w + replace(b, p, w),
    decreases a.len(),
{
    let s = a + p + b;
    if a.len() == 0 {
        assert(p =~= s.subrange(0, p.len() as int));
        assert(s.skip(p.len() as int) =~= b);
        assert(a + w =~= w);
    } else {
        assert(s.skip(0) =~= s);
        assert(!p.is_prefix_of(s.skip(0)));
        let rest = a.drop_first();
        assert(s.drop_first() =~= rest + p + b);
        assert forall|i: int| 0 <= i < rest.len() implies !p.is_prefix_of(
            #[trigger] (rest + p + b).skip(i),
        ) by {
            assert((rest + p + b).skip(i) =~= s.skip(i + 1));
            assert(!p.is_prefix_of(s.skip(i + 1)));
        }
        law_replace(rest, p, b, w);
        assert(s[0] == a[0]);
        assert(seq![a[0]] + (rest + w + replace(b, p, w)) =~= a + w + replace(b, p, w));
    }
}

/// A text that does not hold what is replaced stays as it is.
pub proof fn law_replace_nothing(s: Seq<char>, p: Seq<char>, w: Seq<char>)
    requires
        forall|i: int| 0 <= i < s.len() ==> !p.is_prefix_of(#[trigger] s.skip(i)),
    ensures
        replace(s, p, w) == s,
    decreases s.len(),
{
    if s.len() > 0 && p.len() > 0 {
        assert(s.skip(0) =~= s);
        assert(!p.is_prefix_of(s.skip(0)));
        let rest = s.drop_first();
        assert forall|i: int| 0 <= i < rest.len() implies !p.is_prefix_of(
            #[trigger] rest.skip(i),
        ) by {
            assert(rest.skip(i) =~= s.skip(i + 1));
            assert(!p.is_prefix_of(s.skip(i + 1)));
        }
        law_replace_nothing(rest, p, w);
        assert(seq![s[0]] + rest =~= s);
    }
}

} // verus!
