//! The render layer: display paths, decimal line numbers, and highlighted
//! renderings of matched text.

use vstd::prelude::*;
use crate::text::contains_seq;
use crate::text::find_first;
use crate::text::is_first_occurrence;
use crate::text::occurs_at;
use crate::text::opt_text;
use crate::text::starts_with_str;

verus! {

// ---------------------------------------------------------------------
// Decimal rendering of line numbers
// ---------------------------------------------------------------------

/// The decimal digit character for `d` in `0 .. 10`.
pub open spec fn digit_char(d: int) -> char {
    if d == 0 {
        '0'
    } else if d == 1 {
        '1'
    } else if d == 2 {
        '2'
    } else if d == 3 {
        '3'
    } else if d == 4 {
        '4'
    } else if d == 5 {
        '5'
    } else if d == 6 {
        '6'
    } else if d == 7 {
        '7'
    } else if d == 8 {
        '8'
    } else {
        '9'
    }
}

/// The decimal digits of `n >= 0`, most significant first.
pub open spec fn spec_digits(n: int) -> Seq<char>
    decreases n,
{
    if n < 10 {
        seq![digit_char(n)]
    } else {
        spec_digits(n / 10) + seq![digit_char(n % 10)]
    }
}

/// The one-character string for digit `d`.
fn digit_str(d: usize) -> (r: &'static str)
    requires
        d < 10,
    ensures
        r@ =~= seq![digit_char(d as int)],
{
    let r: &'static str = if d == 0 {
        "0"
    } else if d == 1 {
        "1"
    } else if d == 2 {
        "2"
    } else if d == 3 {
        "3"
    } else if d == 4 {
        "4"
    } else if d == 5 {
        "5"
    } else if d == 6 {
        "6"
    } else if d == 7 {
        "7"
    } else if d == 8 {
        "8"
    } else {
        "9"
    };
    proof {
        reveal_strlit("0");
        reveal_strlit("1");
        reveal_strlit("2");
        reveal_strlit("3");
        reveal_strlit("4");
        reveal_strlit("5");
        reveal_strlit("6");
        reveal_strlit("7");
        reveal_strlit("8");
        reveal_strlit("9");
    }
    r
}

/// Decimal rendering of `n`.
pub fn usize_to_string(n: usize) -> (r: String)
    ensures
        r@ == spec_digits(n as int),
    decreases n,
{
    if n < 10 {
        digit_str(n).to_owned()
    } else {
        let front = usize_to_string(n / 10);
        let r = front.concat(digit_str(n % 10));
        proof {
            assert(r@ =~= spec_digits(n as int));
        }
        r
    }
}

// ---------------------------------------------------------------------
// Display paths
// ---------------------------------------------------------------------

/// A path as shown to the user: a home-directory prefix becomes `~`, and a
/// leading `./` on the (possibly abbreviated) result is stripped.
/// The home-directory abbreviation alone.
pub open spec fn spec_abbrev_home(path: Seq<char>, home: Option<Seq<char>>) -> Seq<char> {
    match home {
        Some(h) => if occurs_at(path, h, 0) {
            seq!['~'] + path.skip(h.len() as int)
        } else {
            path
        },
        None => path,
    }
}

pub open spec fn spec_display_path(path: Seq<char>, home: Option<Seq<char>>) -> Seq<char> {
    let abbreviated = spec_abbrev_home(path, home);
    if occurs_at(abbreviated, "./"@, 0) {
        abbreviated.skip(2)
    } else {
        abbreviated
    }
}

/// Normalize a path for display, as [`spec_display_path`] describes.
pub fn format_filename(path: &str, home: &Option<String>) -> (r: String)
    ensures
        r@ == spec_display_path(path@, opt_text(*home)),
{
    let abbreviated: String = match home {
        Some(h) => {
            if starts_with_str(path, h.as_str()) {
                let tail = path.substring_char(h.as_str().unicode_len(), path.unicode_len());
                let r = "~".to_owned().concat(tail);
                proof {
                    reveal_strlit("~");
                    assert(r@ =~= seq!['~'] + path@.skip(h@.len() as int));
                }
                r
            } else {
                path.to_owned()
            }
        },
        None => path.to_owned(),
    };
    proof {
        reveal_strlit("./");
    }
    if starts_with_str(abbreviated.as_str(), "./") {
        let r = abbreviated.as_str().substring_char(2, abbreviated.as_str().unicode_len());
        proof {
            assert(r@ =~= abbreviated@.skip(2));
        }
        r.to_owned()
    } else {
        abbreviated
    }
}

// ---------------------------------------------------------------------
// Highlighting
// ---------------------------------------------------------------------

/// The terminal emphasis marker opening a highlighted span.
pub open spec fn emph_start() -> Seq<char> {
    "\u{1b}[1;31m"@
}

/// The terminal marker closing a highlighted span.
pub open spec fn emph_end() -> Seq<char> {
    "\u{1b}[0m"@
}

pub fn emph_start_str() -> (r: &'static str)
    ensures
        r@ == emph_start(),
{
    "\u{1b}[1;31m"
}

pub fn emph_end_str() -> (r: &'static str)
    ensures
        r@ == emph_end(),
{
    "\u{1b}[0m"
}

/// Somewhere in `t` a first occurrence of `q` exists whenever any
/// occurrence does.
pub proof fn lemma_first_occurrence_exists(t: Seq<char>, q: Seq<char>, j: int)
    requires
        occurs_at(t, q, j),
    ensures
        exists|i: int| is_first_occurrence(t, q, i),
    decreases j,
{
    if forall|k: int| 0 <= k < j ==> !occurs_at(t, q, k) {
        assert(is_first_occurrence(t, q, j));
    } else {
        let k = choose|k: int| 0 <= k < j && occurs_at(t, q, k);
        lemma_first_occurrence_exists(t, q, k);
    }
}

/// `t` with the first occurrence of `q`, if any, wrapped between the
/// emphasis markers; `t` unchanged when `q` does not occur.  (The wrap uses
/// the literal query text, so a pattern with metacharacters is generally
/// left unmarked even on lines the pattern matched: a documented limit of
/// the original design, kept as such.)
pub open spec fn spec_highlight(t: Seq<char>, q: Seq<char>) -> Seq<char> {
    if contains_seq(t, q) {
        let i = choose|i: int| is_first_occurrence(t, q, i);
        t.take(i) + emph_start() + q + emph_end() + t.skip(i + q.len() as int)
    } else {
        t
    }
}

/// Wrap the first occurrence of `q` inside `t` in the emphasis markers.
pub fn highlight_first(t: &str, q: &str) -> (r: String)
    ensures
        r@ == spec_highlight(t@, q@),
{
    match find_first(t, q) {
        None => t.to_owned(),
        Some(i) => {
            proof {
                lemma_first_occurrence_exists(t@, q@, i as int);
                let j = choose|j: int| is_first_occurrence(t@, q@, j);
                if j < i as int {
                    assert(occurs_at(t@, q@, j));
                } else if j > i as int {
                    assert(occurs_at(t@, q@, i as int));
                }
                assert(j == i as int);
            }
            let n = t.unicode_len();
            let m = q.unicode_len();
            let front = t.substring_char(0, i);
            let tail = t.substring_char(i + m, n);
            let r = front.to_owned().concat(emph_start_str()).concat(q).concat(
                emph_end_str(),
            ).concat(tail);
            proof {
                assert(front@ =~= t@.take(i as int));
                assert(tail@ =~= t@.skip(i + q@.len() as int));
                assert(r@ =~= spec_highlight(t@, q@));
            }
            r
        },
    }
}

// ---------------------------------------------------------------------
// The home directory
// ---------------------------------------------------------------------

/// Relies on `dirs::home_dir` to read the user's home directory from the
/// environment.  The result depends on the environment, so nothing is
/// assumed of it; callers state their contracts as functions of whatever
/// value came back.
#[verifier::external_body]
pub fn current_home() -> (r: Option<String>) {
    dirs::home_dir().and_then(|p| p.to_str().map(|s| s.to_string()))
}

// ---------------------------------------------------------------------
// Rendering a match as an output line
// ---------------------------------------------------------------------

/// The declaration-name segment of a rendered match.
pub open spec fn name_or_empty(m: crate::engine::MatchModel) -> Seq<char> {
    match m.decl_name {
        Some(n) => n,
        None => Seq::empty(),
    }
}

/// The output line a match renders to:
/// grep mode `path:line -> text`; scoped mode `path:line: name() -> text`;
/// name search `path:line: name(params):returnType -> text`.
pub open spec fn spec_render(m: crate::engine::MatchModel, mode: crate::query::SearchMode) -> Seq<
    char,
> {
    match mode {
        crate::query::SearchMode::Grep => m.file_path + ":"@ + spec_digits(m.line)
            + " \u{2192} "@ + m.text,
        crate::query::SearchMode::Basic => m.file_path + ":"@ + spec_digits(m.line) + ": "@
            + name_or_empty(m) + "() \u{2192} "@ + m.text,
        crate::query::SearchMode::NameSearch => m.file_path + ":"@ + spec_digits(m.line) + ": "@
            + name_or_empty(m) + m.params_text + ":"@ + m.return_type_text + " \u{2192} "@
            + m.text,
    }
}

/// Render one match as its output line, as [`spec_render`] describes.
pub fn render_match(m: &crate::engine::Match, mode: crate::query::SearchMode) -> (r: String)
    ensures
        r@ == spec_render(crate::engine::match_model(*m), mode),
{
    let line = usize_to_string(m.line);
    let name: &str = match &m.decl_name {
        Some(n) => n.as_str(),
        None => "",
    };
    proof {
        reveal_strlit("");
        assert(name@ == name_or_empty(crate::engine::match_model(*m)));
    }
    let r = match mode {
        crate::query::SearchMode::Grep => {
            m.file_path.clone().concat(":").concat(line.as_str()).concat(" \u{2192} ").concat(
                m.text.as_str(),
            )
        },
        crate::query::SearchMode::Basic => {
            m.file_path.clone().concat(":").concat(line.as_str()).concat(": ").concat(name)
                .concat("() \u{2192} ").concat(m.text.as_str())
        },
        crate::query::SearchMode::NameSearch => {
            m.file_path.clone().concat(":").concat(line.as_str()).concat(": ").concat(name)
                .concat(m.params_text.as_str()).concat(":").concat(
                m.return_type_text.as_str(),
            ).concat(" \u{2192} ").concat(m.text.as_str())
        },
    };
    proof {
        assert(r@ =~= spec_render(crate::engine::match_model(*m), mode));
    }
    r
}

} // verus!
