//! Text measured in terminal columns.
use vstd::prelude::*;

use crate::outside;
use crate::text;

verus! {

/// The columns of a character; none for a control character.
pub open spec fn columns(c: char) -> nat {
    match outside::char_columns(c) {
        Some(w) => w as nat,
        None => 0,
    }
}

/// The columns of a text.
pub open spec fn width(s: Seq<char>) -> nat
    decreases s.len(),
{
    if s.len() == 0 {
        0
    } else {
        width(s.drop_last()) + columns(s.last())
    }
}

/// The longest start of `s` that fits into `budget` columns.
pub open spec fn head(s: Seq<char>, budget: nat) -> Seq<char>
    decreases s.len(),
{
    if s.len() == 0 || columns(s[0]) > budget {
        seq![]
    } else {
        seq![s[0]] + head(s.drop_first(), (budget - columns(s[0])) as nat)
    }
}

/// The longest end of `s` that fits into `budget` columns.
pub open spec fn tail(s: Seq<char>, budget: nat) -> Seq<char>
    decreases s.len(),
{
    if s.len() == 0 || columns(s.last()) > budget {
        seq![]
    } else {
        tail(s.drop_last(), (budget - columns(s.last())) as nat).push(s.last())
    }
}

/// `s` cut in the middle so that it takes no more than `max` columns, one of
/// them for an ellipsis.
pub open spec fn truncated(s: Seq<char>, max: nat) -> Seq<char> {
    if max == 0 {
        seq![]
    } else if width(s) <= max {
        s
    } else if max == 1 {
        seq!['…']
    } else {
        let front = max / 2;
        head(s, front).push('…') + tail(s, (max - 1 - front) as nat)
    }
}

/// `s` cut, or followed by spaces, so that it takes `cols` columns.
pub open spec fn padded(s: Seq<char>, cols: nat) -> Seq<char> {
    let out = if width(s) > cols {
        truncated(s, cols)
    } else {
        s
    };
    out + text::blank(
        if width(out) < cols {
            (cols - width(out)) as nat
        } else {
            0
        },
    )
}

// ---------------------------------------------------------------------------
// Facts about widths
// ---------------------------------------------------------------------------
pub proof fn lemma_width_add(a: Seq<char>, b: Seq<char>)
    ensures
        width(a + b) == width(a) + width(b),
    decreases b.len(),
{
    if b.len() == 0 {
        assert(a + b =~= a);
    } else {
        lemma_width_add(a, b.drop_last());
        assert((a + b).drop_last() =~= a + b.drop_last());
    }
}

proof fn lemma_width_one(c: char)
    ensures
        width(seq![c]) == columns(c),
{
    assert(seq![c].drop_last() =~= seq![]);
    assert(width(seq![]) == 0);
}

proof fn lemma_head_fits(s: Seq<char>, budget: nat)
    ensures
        width(head(s, budget)) <= budget,
    decreases s.len(),
{
    if s.len() > 0 && columns(s[0]) <= budget {
        let rest = (budget - columns(s[0])) as nat;
        lemma_head_fits(s.drop_first(), rest);
        lemma_width_add(seq![s[0]], head(s.drop_first(), rest));
        lemma_width_one(s[0]);
    }
}

proof fn lemma_tail_fits(s: Seq<char>, budget: nat)
    ensures
        width(tail(s, budget)) <= budget,
    decreases s.len(),
{
    if s.len() > 0 && columns(s.last()) <= budget {
        let rest = (budget - columns(s.last())) as nat;
        lemma_tail_fits(s.drop_last(), rest);
        let t = tail(s.drop_last(), rest);
        assert(t.push(s.last()).drop_last() =~= t);
    }
}

proof fn lemma_blank_width(n: nat)
    requires
        columns(' ') == 1,
    ensures
        width(text::blank(n)) == n,
    decreases n,
{
    if n > 0 {
        lemma_blank_width((n - 1) as nat);
        assert(text::blank(n).drop_last() =~= text::blank((n - 1) as nat));
    }
}

/// The encoding of a text is as long as those of its parts.
proof fn lemma_encoding_add(a: Seq<char>, c: char)
    ensures
        vstd::utf8::encode_utf8(a.push(c)).len() == vstd::utf8::encode_utf8(a).len()
            + vstd::utf8::encode_utf8(seq![c]).len(),
    decreases a.len(),
{
    if a.len() == 0 {
        assert(a.push(c) =~= seq![c]);
    } else {
        lemma_encoding_add(a.drop_first(), c);
        assert(a.push(c).drop_first() =~= a.drop_first().push(c));
        assert(a.push(c)[0] == a[0]);
    }
}

proof fn lemma_encoding_prefix(s: Seq<char>, n: int)
    requires
        0 <= n <= s.len(),
    ensures
        vstd::utf8::encode_utf8(s.take(n)).len() <= vstd::utf8::encode_utf8(s).len(),
    decreases s.len() - n,
{
    if n == s.len() {
        assert(s.take(n) =~= s);
    } else {
        lemma_encoding_prefix(s, n + 1);
        lemma_encoding_add(s.take(n), s[n]);
        assert(s.take(n).push(s[n]) =~= s.take(n + 1));
    }
}

// ---------------------------------------------------------------------------
// Measuring and cutting
// ---------------------------------------------------------------------------
pub fn columns_of(c: char) -> (r: usize)
    ensures
        r == columns(c),
        r <= vstd::utf8::encode_utf8(seq![c]).len(),
        ' ' <= c <= '~' || c == '…' ==> r == 1,
{
    match outside::char_width(c) {
        Some(w) => w,
        None => 0,
    }
}

/// Terminal display width (CJK = 2 cols, emoji = 2 cols).
pub fn display_width(s: &str) -> (r: usize)
    ensures
        r == width(s@),
        r <= vstd::utf8::encode_utf8(s@).len(),
{
    let cs = text::chars_of(s);
    let bytes = s.as_bytes();
    let ghost size = vstd::utf8::encode_utf8(s@).len();
    assert(bytes@.len() == size);
    let limit: usize = bytes.len();
    let mut total: usize = 0;
    let mut i: usize = 0;
    assert(s@.take(0) =~= seq![]);
    assert(width(s@.take(0)) == 0);
    while i < cs.len()
        invariant
            cs@ == s@,
            i <= cs@.len(),
            size == vstd::utf8::encode_utf8(s@).len(),
            limit == size,
            total == width(s@.take(i as int)),
            total <= vstd::utf8::encode_utf8(s@.take(i as int)).len(),
        decreases cs@.len() - i,
    {
        let w = columns_of(cs[i]);
        assert(s@.take(i as int).push(s@[i as int]) =~= s@.take(i + 1));
        assert(s@.take(i + 1).drop_last() =~= s@.take(i as int));
        proof {
            lemma_encoding_add(s@.take(i as int), s@[i as int]);
            lemma_encoding_prefix(s@, i + 1);
        }
        total = total + w;
        i = i + 1;
    }
    assert(s@.take(i as int) =~= s@);
    total
}

fn head_of(s: &str, budget: usize) -> (r: String)
    ensures
        r@ == head(s@, budget as nat),
{
    let cs = text::chars_of(s);
    let mut left: usize = budget;
    let mut i: usize = 0;
    assert(s@.skip(0) =~= s@);
    assert(s@.take(0) + head(s@, budget as nat) =~= head(s@, budget as nat));
    while i < cs.len()
        invariant
            cs@ == s@,
            i <= cs@.len(),
            head(s@, budget as nat) == s@.take(i as int) + head(s@.skip(i as int), left as nat),
        decreases cs@.len() - i,
    {
        let w = columns_of(cs[i]);
        if w > left {
            assert(s@.take(i as int) + Seq::<char>::empty() =~= s@.take(i as int));
            return text::string_of(&cs, 0, i);
        }
        let ghost rest = head(s@.skip(i + 1), (left - w) as nat);
        assert(s@.skip(i as int).drop_first() =~= s@.skip(i + 1));
        assert(s@.take(i as int) + (seq![s@[i as int]] + rest) =~= s@.take(i + 1) + rest);
        left = left - w;
        i = i + 1;
    }
    assert(s@.take(i as int) + head(s@.skip(i as int), left as nat) =~= s@);
    s.to_owned()
}

fn tail_of(s: &str, budget: usize) -> (r: String)
    ensures
        r@ == tail(s@, budget as nat),
{
    let cs = text::chars_of(s);
    let mut left: usize = budget;
    let mut i: usize = cs.len();
    let ghost n = s@.len() as int;
    assert(s@.take(n) =~= s@);
    assert(tail(s@, budget as nat) + s@.skip(n) =~= tail(s@, budget as nat));
    while i > 0
        invariant
            cs@ == s@,
            n == s@.len(),
            i <= n,
            tail(s@, budget as nat) == tail(s@.take(i as int), left as nat) + s@.skip(i as int),
        decreases i,
    {
        let w = columns_of(cs[i - 1]);
        assert(s@.take(i as int).last() == s@[i - 1]);
        if w > left {
            assert(Seq::<char>::empty() + s@.skip(i as int) =~= s@.subrange(i as int, n));
            return text::string_of(&cs, i, cs.len());
        }
        let ghost rest = tail(s@.take(i - 1), (left - w) as nat);
        assert(s@.take(i as int).drop_last() =~= s@.take(i - 1));
        assert(rest.push(s@[i - 1]) + s@.skip(i as int) =~= rest + s@.skip(i - 1));
        left = left - w;
        i = i - 1;
    }
    assert(tail(s@.take(0), left as nat) + s@.skip(0) =~= s@);
    s.to_owned()
}

/// Truncate by display columns with a middle ellipsis so filenames never
/// overflow a column budget — a char-count-based truncation would be wrong
/// for CJK since each char takes 2 terminal cols.
pub fn truncate_cols(s: &str, max_cols: usize) -> (r: String)
    ensures
        r@ == truncated(s@, max_cols as nat),
        width(r@) <= max_cols,
{
    if max_cols == 0 {
        let r = String::new();
        assert(r@ =~= seq![]);
        return r;
    }
    if display_width(s) <= max_cols {
        return s.to_owned();
    }
    let mark = columns_of('…');
    proof {
        lemma_width_one('…');
    }
    if max_cols == 1 {
        let mut r = String::new();
        r.push('…');
        assert(r@ =~= seq!['…']);
        return r;
    }
    let front = max_cols / 2;
    let back = max_cols - mark - front;
    let mut r = head_of(s, front);
    let end = tail_of(s, back);
    proof {
        lemma_head_fits(s@, front as nat);
        lemma_tail_fits(s@, back as nat);
        let h = head(s@, front as nat);
        assert(h.push('…').drop_last() =~= h);
        lemma_width_add(h.push('…'), tail(s@, back as nat));
    }
    r.push('…');
    r.append(end.as_str());
    r
}

/// Pad with spaces (or middle-truncate) so the result is exactly `cols`
/// display columns wide.
pub fn pad_or_trunc(s: &str, cols: usize) -> (r: String)
    ensures
        r@ == padded(s@, cols as nat),
        width(r@) == cols,
{
    let mut out = if display_width(s) > cols {
        truncate_cols(s, cols)
    } else {
        s.to_owned()
    };
    let w = display_width(out.as_str());
    let _ = columns_of(' ');
    let ghost cut = out@;
    proof {
        lemma_blank_width((cols - w) as nat);
        lemma_width_add(cut, text::blank((cols - w) as nat));
    }
    let pad = text::spaces(cols - w);
    out.append(pad.as_str());
    out
}

// ---------------------------------------------------------------------------
// Laws
// ---------------------------------------------------------------------------
/// A text that fits is left whole; one that does not keeps its start and its end, with an
/// ellipsis between them.
pub proof fn law_cutting_keeps_both_ends(s: Seq<char>, max: nat)
    ensures
        0 < max && width(s) <= max ==> truncated(s, max) == s,
        1 < max < width(s) ==> exists|a: Seq<char>, b: Seq<char>|
            truncated(s, max) == #[trigger] (a.push('…') + b) && a.is_prefix_of(s) && b.len()
                <= s.len() && s.skip(s.len() - b.len()) == b && width(a) <= max / 2 && width(b)
                <= max - 1 - max / 2,
{
    let front = max / 2;
    let a = head(s, front);
    let b = tail(s, (max - 1 - front) as nat);
    lemma_head_fits(s, front);
    if 1 < max < width(s) {
        lemma_tail_fits(s, (max - 1 - front) as nat);
        lemma_head_is_start(s, front);
        lemma_tail_is_end(s, (max - 1 - front) as nat);
        assert(truncated(s, max) == a.push('…') + b);
    }
}

proof fn lemma_head_is_start(s: Seq<char>, budget: nat)
    ensures
        head(s, budget).is_prefix_of(s),
        head(s, budget).len() < s.len() ==> width(head(s, budget)) + columns(
            s[head(s, budget).len() as int],
        ) > budget,
    decreases s.len(),
{
    let h = head(s, budget);
    if s.len() > 0 && columns(s[0]) <= budget {
        let rest = (budget - columns(s[0])) as nat;
        let t = head(s.drop_first(), rest);
        lemma_head_is_start(s.drop_first(), rest);
        assert(h == seq![s[0]] + t);
        lemma_width_add(seq![s[0]], t);
        lemma_width_one(s[0]);
        assert(h =~= s.subrange(0, h.len() as int)) by {
            assert forall|i: int| 0 <= i < h.len() implies h[i] == s[i] by {
                if i > 0 {
                    assert(t[i - 1] == s.drop_first().subrange(0, t.len() as int)[i - 1]);
                }
            }
        }
        if h.len() < s.len() {
            assert(s.drop_first()[t.len() as int] == s[h.len() as int]);
        }
    } else {
        assert(h =~= s.subrange(0, 0));
    }
}

proof fn lemma_tail_is_end(s: Seq<char>, budget: nat)
    ensures
        tail(s, budget).len() <= s.len(),
        s.skip(s.len() - tail(s, budget).len()) == tail(s, budget),
    decreases s.len(),
{
    let t = tail(s, budget);
    if s.len() > 0 && columns(s.last()) <= budget {
        let rest = (budget - columns(s.last())) as nat;
        lemma_tail_is_end(s.drop_last(), rest);
        let u = tail(s.drop_last(), rest);
        assert(t == u.push(s.last()));
        assert(s.skip(s.len() - t.len()) =~= t) by {
            assert forall|i: int| 0 <= i < t.len() implies s.skip(s.len() - t.len())[i] == t[i] by {
                if i < u.len() {
                    assert(u[i] == s.drop_last().skip(s.len() - 1 - u.len())[i]);
                }
            }
        }
    } else {
        assert(s.skip(s.len() as int) =~= t);
    }
}

/// The start that is kept is as long as can be: one more character would not fit.
pub proof fn law_as_much_as_fits_is_kept(s: Seq<char>, budget: nat)
    ensures
        head(s, budget).len() < s.len() ==> width(
            head(s, budget).push(s[head(s, budget).len() as int]),
        ) > budget,
{
    lemma_head_is_start(s, budget);
    let h = head(s, budget);
    if h.len() < s.len() {
        assert(h.push(s[h.len() as int]).drop_last() =~= h);
    }
}

/// A text that is padded is followed by spaces only.
pub proof fn law_padding_is_blank(s: Seq<char>, cols: nat)
    requires
        width(s) <= cols,
    ensures
        s.is_prefix_of(padded(s, cols)),
        forall|i: int| s.len() <= i < padded(s, cols).len() ==> padded(s, cols)[i] == ' ',
        padded(s, cols).len() == s.len() + (cols - width(s)),
{
    assert(s =~= padded(s, cols).subrange(0, s.len() as int));
}

} // verus!
