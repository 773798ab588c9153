//! What the library takes from other crates and from parts of `std` that carry
//! no specification. Every item here is believed, not proved; the contracts say
//! only what the sources of those crates show.
use vstd::prelude::*;

use crate::app::types::Rect;
use crate::environment;
use crate::environment::{Environment, EnvironmentView};
use crate::text;
use crate::text::CharClass;
use crate::ui::style::Part;

verus! {

// ---------------------------------------------------------------------------
// shellexpand
// ---------------------------------------------------------------------------
/// `s` with a leading `~` (alone, or followed by a slash) replaced by `home`,
/// where there is one.
pub open spec fn tilde_form(s: Seq<char>, home: Option<Seq<char>>) -> Seq<char> {
    if s.len() > 0 && s[0] == '~' && (s.len() == 1 || s[1] == '/') {
        match home {
            Some(h) => h + s.skip(1),
            None => s,
        }
    } else {
        s
    }
}

/// Calls `shellexpand::tilde_with_context` with the given home directory. Claims
/// that the result is the argument with its leading tilde replaced by that
/// directory, or the argument itself where the tilde does not stand alone or no
/// home directory is known.
#[verifier::external_body]
pub(crate) fn expand_tilde(s: &str, home: Option<&str>) -> (r: String)
    ensures
        r@ == tilde_form(s@, text::opt_str(home)),
{
    shellexpand::tilde_with_context(s, || home).into_owned()
}

/// `s` with its variables and its leading `~` expanded as in a shell; an error
/// says which variable cannot be read, and why.
pub uninterp spec fn shell_form(
    s: Seq<char>,
    home: Option<Seq<char>>,
    vars: Seq<(Seq<char>, Result<Seq<char>, Seq<char>>)>,
) -> Result<Seq<char>, Seq<char>>;

/// A name of ASCII letters, digits and underscores.
pub open spec fn plain_name(name: Seq<char>) -> bool {
    &&& name.len() > 0
    &&& forall|i: int|
        0 <= i < name.len() ==> text::is_ascii_alphanumeric(#[trigger] name[i]) || name[i] == '_'
}

/// The variable that a path which starts with a dollar sign names: all up to the
/// first slash.
pub open spec fn variable_name(s: Seq<char>) -> Seq<char> {
    s.skip(1).take(text::until(s.skip(1), CharClass::Just('/')) as int)
}

pub open spec fn after_variable(s: Seq<char>) -> Seq<char> {
    s.skip(1).skip(text::until(s.skip(1), CharClass::Just('/')) as int)
}

/// A path that starts with a variable and holds no other.
pub open spec fn variable_path(s: Seq<char>) -> bool {
    &&& s.len() > 0
    &&& s[0] == '$'
    &&& plain_name(variable_name(s))
    &&& !after_variable(s).contains('$')
}

/// What such a path stands for, where reading its variable gives `value`. A tilde in
/// the value means nothing special.
pub open spec fn variable_form(
    s: Seq<char>,
    value: Result<Seq<char>, Seq<char>>,
) -> Result<Seq<char>, Seq<char>> {
    match value {
        Ok(v) => Ok(v + after_variable(s)),
        Err(e) => Err("error looking key '"@ + variable_name(s) + "' up: "@ + e),
    }
}

/// What `s` stands for on the machine described by `env`: without a dollar sign
/// only its tilde is expanded, and a variable in front of a path is replaced by its
/// value.
pub open spec fn shell_expanded(s: Seq<char>, env: EnvironmentView) -> Result<
    Seq<char>,
    Seq<char>,
> {
    if !s.contains('$') {
        Ok(tilde_form(s, env.home))
    } else if variable_path(s) {
        variable_form(s, environment::looked_up(env.vars, variable_name(s)))
    } else {
        shell_form(s, env.home, env.vars)
    }
}

/// Calls `shellexpand::full_with_context` with the home directory and the variables
/// of `env`; an error comes back as its text. Names the result, and claims that an
/// argument without a dollar sign never fails and only has its tilde expanded, and
/// that a variable in front of a path is replaced by its value, or fails where it
/// cannot be read.
#[verifier::external_body]
pub(crate) fn expand_shell(s: &str, env: &Environment) -> (r: Result<String, String>)
    ensures
        environment::outcome(r) == shell_form(s@, env@.home, env@.vars),
        environment::outcome(r) == shell_expanded(s@, env@),
{
    match shellexpand::full_with_context(s, || env.home_dir(), |name| env.var(name)) {
        Ok(v) => Ok(v.into_owned()),
        Err(e) => Err(e.to_string()),
    }
}

// ---------------------------------------------------------------------------
// shlex
// ---------------------------------------------------------------------------
/// The words that a POSIX shell would read in a line; none where a quotation
/// is left open or the line ends in a backslash.
pub uninterp spec fn shell_words(s: Seq<char>) -> Option<Seq<Seq<char>>>;

/// Characters that mean nothing special in the middle of a shell word.
pub open spec fn plain_in_word(c: char) -> bool {
    c != ' ' && c != '\t' && c != '\n' && c != '"' && c != '\'' && c != '\\'
}

/// One word without quotes, escapes, blanks or a comment sign in front.
pub open spec fn plain_word(s: Seq<char>) -> bool {
    &&& s.len() > 0
    &&& s[0] != '#'
    &&& forall|i: int| 0 <= i < s.len() ==> plain_in_word(#[trigger] s[i])
}

/// `s` with a backslash in front of each space.
pub open spec fn escape_spaces(s: Seq<char>) -> Seq<char>
    decreases s.len(),
{
    if s.len() == 0 {
        seq![]
    } else if s.last() == ' ' {
        escape_spaces(s.drop_last()) + seq!['\\', ' ']
    } else {
        escape_spaces(s.drop_last()).push(s.last())
    }
}

/// A word that is plain but for spaces.
pub open spec fn spaced_word(s: Seq<char>) -> bool {
    &&& s.len() > 0
    &&& s[0] != '#'
    &&& forall|i: int| 0 <= i < s.len() ==> #[trigger] s[i] == ' ' || plain_in_word(s[i])
}

/// A word that quotes `q` around it take as it is.
pub open spec fn quotable(w: Seq<char>, q: char) -> bool {
    ||| q == '"' && !w.contains('"') && !w.contains('\\')
    ||| q == '\'' && !w.contains('\'')
}

/// The words in quotes `q`, with a space between them.
pub open spec fn in_quotes(ws: Seq<Seq<char>>, q: char) -> Seq<char>
    decreases ws.len(),
{
    if ws.len() == 0 {
        seq![]
    } else {
        in_quotes(ws.drop_last(), q) + (if ws.len() == 1 {
            seq![]
        } else {
            seq![' ']
        }) + seq![q] + ws.last() + seq![q]
    }
}

/// Calls `shlex::split`. Names its result, and claims that a plain word is read
/// as itself, that a word whose spaces are escaped is read as that word, and that
/// words in quotes are read as those words.
#[verifier::external_body]
pub(crate) fn split_shell_words(s: &str) -> (r: Option<Vec<String>>)
    ensures
        r is Some == shell_words(s@) is Some,
        r is Some ==> text::strs(r->0@) == shell_words(s@)->0,
        plain_word(s@) ==> r is Some && text::strs(r->0@) == seq![s@],
        forall|w: Seq<char>| #[trigger] spaced_word(w) && s@ == escape_spaces(w) ==> r is Some
            && text::strs(r->0@) == seq![w],
        forall|ws: Seq<Seq<char>>, q: char|
            s@ == #[trigger] in_quotes(ws, q) && (forall|i: int|
                0 <= i < ws.len() ==> quotable(#[trigger] ws[i], q)) ==> r is Some && text::strs(
                r->0@,
            ) == ws,
{
    shlex::split(s)
}

// ---------------------------------------------------------------------------
// percent_encoding
// ---------------------------------------------------------------------------
/// What a string spells once its `%XX` sequences are read as bytes of UTF-8,
/// with replacement characters for what is no UTF-8.
pub uninterp spec fn percent_decoded(s: Seq<char>) -> Seq<char>;

/// Calls `percent_encoding::percent_decode_str` and `decode_utf8_lossy` on its
/// result. Names what comes back, and claims that a string without a percent
/// sign comes back as it is.
#[verifier::external_body]
pub(crate) fn decode_percent(s: &str) -> (r: String)
    ensures
        r@ == percent_decoded(s@),
        !s@.contains('%') ==> r@ == s@,
{
    percent_encoding::percent_decode_str(s).decode_utf8_lossy().into_owned()
}

// ---------------------------------------------------------------------------
// std
// ---------------------------------------------------------------------------
/// The lower-case form of a string by the Unicode rules.
pub uninterp spec fn lowercase(s: Seq<char>) -> Seq<char>;

/// The lower-case form of a string, the same for strings that differ only in the
/// case of the letters `A` to `Z`.
pub open spec fn caseless(s: Seq<char>) -> Seq<char> {
    lowercase(text::ascii_lowercase(s))
}

/// Calls `str::to_lowercase`. Names its result, and claims that on ASCII text
/// it changes the letters `A` to `Z` alone, and that on any text the case of
/// these letters makes no difference to it.
#[verifier::external_body]
pub(crate) fn to_lowercase(s: &str) -> (r: String)
    ensures
        r@ == lowercase(s@),
        (forall|i: int| 0 <= i < s@.len() ==> (#[trigger] s@[i] as u32) < 0x80) ==> r@
            == text::ascii_lowercase(s@),
        r@ == caseless(s@),
{
    s.to_lowercase()
}

/// Reads the system clock: whole seconds since the Unix epoch, or nothing for a
/// clock that stands before it (`SystemTime::now`, taken against `UNIX_EPOCH`).
/// Claims nothing of the reading.
#[verifier::external_body]
pub(crate) fn read_clock() -> (r: Option<u64>) {
    match std::time::SystemTime::now().duration_since(std::time::UNIX_EPOCH) {
        Ok(d) => Some(d.as_secs()),
        Err(_) => None,
    }
}

/// Bytes read as UTF-8, with replacement characters for what is no UTF-8.
pub uninterp spec fn utf8_lossy(bytes: Seq<u8>) -> Seq<char>;

/// Calls `String::from_utf8_lossy`. Names its result, and claims that the
/// encoding of a text is read as that text.
#[verifier::external_body]
pub(crate) fn decode_utf8(bytes: &Vec<u8>) -> (r: String)
    ensures
        r@ == utf8_lossy(bytes@),
        forall|s: Seq<char>| bytes@ == #[trigger] vstd::utf8::encode_utf8(s) ==> r@ == s,
{
    String::from_utf8_lossy(bytes).into_owned()
}

// ---------------------------------------------------------------------------
// regex
// ---------------------------------------------------------------------------
/// The groups of the first match of a pattern in a text, the whole match first;
/// none where the pattern does not match or is no pattern. A group that took no
/// part in the match is empty.
pub uninterp spec fn captures(pattern: Seq<char>, s: Seq<char>) -> Option<Seq<Option<Seq<char>>>>;

/// Calls `regex::Regex::new` and `captures` on its result. Names what comes back.
#[verifier::external_body]
pub(crate) fn capture_groups(pattern: &str, s: &str) -> (r: Option<Vec<Option<String>>>)
    ensures
        r is Some == captures(pattern@, s@) is Some,
        r is Some ==> text::opts(r->0@) == captures(pattern@, s@)->0,
{
    let re = regex::Regex::new(pattern).ok()?;
    let caps = re.captures(s)?;
    Some(caps.iter().map(|m| m.map(|m| m.as_str().to_owned())).collect())
}

// ---------------------------------------------------------------------------
// unicode_width
// ---------------------------------------------------------------------------
/// How many columns a character takes on a terminal; nothing for a control
/// character.
pub uninterp spec fn char_columns(c: char) -> Option<usize>;

/// Calls `unicode_width::UnicodeWidthChar::width`. Names its result, and claims
/// that printable ASCII characters and the ellipsis take one column, and that no
/// character takes more columns than it has bytes in UTF-8.
#[verifier::external_body]
pub(crate) fn char_width(c: char) -> (r: Option<usize>)
    ensures
        r == char_columns(c),
        ' ' <= c <= '~' ==> r == Some(1usize),
        c == '…' ==> r == Some(1usize),
        r matches Some(w) ==> w <= vstd::utf8::encode_utf8(seq![c]).len(),
{
    unicode_width::UnicodeWidthChar::width(c)
}

// ---------------------------------------------------------------------------
// ratatui
// ---------------------------------------------------------------------------
/// Where an area begins, from top to bottom or from left to right.
pub open spec fn start_of(r: Rect, vertical: bool) -> int {
    if vertical {
        r.y as int
    } else {
        r.x as int
    }
}

pub open spec fn extent_of(r: Rect, vertical: bool) -> int {
    if vertical {
        r.height as int
    } else {
        r.width as int
    }
}

pub open spec fn end_of(r: Rect, vertical: bool) -> int {
    start_of(r, vertical) + extent_of(r, vertical)
}

/// What lies across an area: its left edge and width, or its top and height.
pub open spec fn across(r: Rect, vertical: bool) -> (u16, u16) {
    if vertical {
        (r.x, r.width)
    } else {
        (r.y, r.height)
    }
}

/// The least room that parts without percentages ask for.
pub open spec fn asked(parts: Seq<Part>) -> int
    decreases parts.len(),
{
    if parts.len() == 0 {
        0
    } else {
        asked(parts.drop_last()) + match parts.last() {
            Part::Length(n) => n as int,
            Part::Min(n) => n as int,
            Part::Percentage(_) => 0,
        }
    }
}

/// The part at `k` may grow, all others have a fixed length.
pub open spec fn grows_at(parts: Seq<Part>, k: int) -> bool {
    &&& 0 <= k < parts.len()
    &&& parts[k] matches Part::Min(n) && n <= 0x7fff
    &&& forall|i: int| 0 <= i < parts.len() && i != k ==> (#[trigger] parts[i]) is Length
}

/// The areas follow each other without gaps, from one end of the whole to the
/// other.
pub open spec fn end_to_end(rs: Seq<Rect>, whole: Rect, vertical: bool) -> bool {
    &&& rs.len() > 0
    &&& start_of(rs[0], vertical) == start_of(whole, vertical)
    &&& end_of(rs.last(), vertical) == end_of(whole, vertical)
    &&& forall|i: int, j: int|
        0 <= i && j == i + 1 && j < rs.len() ==> start_of(#[trigger] rs[j], vertical) == end_of(
            #[trigger] rs[i],
            vertical,
        )
}

/// Calls `ratatui::layout::Layout::split` for a row of parts from top to bottom,
/// or from left to right where not `vertical`. Claims that there is one area for
/// each part, within the whole and just as wide (or high) as it is. Parts of which
/// one may grow and the others have fixed lengths follow each other without gaps
/// and get their lengths, where there is room for all; two percentages that make
/// up a hundred follow each other without gaps, the boundary rounded to the
/// nearest cell. How the space is shared out otherwise is left open: a solver
/// picks among the best solutions, and the one it comes upon first depends on the
/// order of its hash maps.
#[verifier::external_body]
pub(crate) fn split_area(area: Rect, vertical: bool, parts: &Vec<Part>) -> (r: Vec<Rect>)
    ensures
        r@.len() == parts@.len(),
        forall|i: int|
            0 <= i < r@.len() ==> across(#[trigger] r@[i], vertical) == across(area, vertical)
                && start_of(area, vertical) <= start_of(r@[i], vertical) && end_of(
                r@[i],
                vertical,
            ) <= end_of(area, vertical),
        end_of(area, vertical) <= u16::MAX && asked(parts@) <= extent_of(area, vertical) && (
        exists|k: int| grows_at(parts@, k)) ==> end_to_end(r@, area, vertical) && forall|i: int|
            0 <= i < r@.len() ==> (parts@[i] matches Part::Length(n) ==> extent_of(
                #[trigger] r@[i],
                vertical,
            ) == n),
        forall|p: u16, q: u16|
            p + q == 100 && end_of(area, vertical) <= u16::MAX && parts@ == #[trigger] seq![
                Part::Percentage(p),
                Part::Percentage(q),
            ] ==> end_to_end(r@, area, vertical) && extent_of(r@[0], vertical) == (extent_of(
                area,
                vertical,
            ) * p + 50) / 100,
{
    let constraint = |p: &Part| match p {
        Part::Length(n) => ratatui::layout::Constraint::Length(*n),
        Part::Min(n) => ratatui::layout::Constraint::Min(*n),
        Part::Percentage(n) => ratatui::layout::Constraint::Percentage(*n),
    };
    let layout = if vertical {
        ratatui::layout::Layout::vertical(parts.iter().map(constraint))
    } else {
        ratatui::layout::Layout::horizontal(parts.iter().map(constraint))
    };
    let Rect { x, y, width, height } = area;
    let rects = layout.split(ratatui::layout::Rect { x, y, width, height });
    rects.iter().map(|r| Rect { x: r.x, y: r.y, width: r.width, height: r.height }).collect()
}

} // verus!
