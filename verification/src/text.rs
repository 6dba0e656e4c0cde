//! Verified text utilities: substring search, trimming, splitting into
//! tokens and lines.  All contracts are stated over `Seq<char>` views.

use vstd::prelude::*;

verus! {

/// View of an optional string.
pub open spec fn opt_text(o: Option<String>) -> Option<Seq<char>> {
    match o {
        Some(s) => Some(s@),
        None => None,
    }
}

/// `q` occurs in `t` starting at position `i`.
pub open spec fn occurs_at(t: Seq<char>, q: Seq<char>, i: int) -> bool {
    0 <= i && i + q.len() <= t.len() && t.subrange(i, i + q.len() as int) == q
}

/// `q` occurs somewhere in `t` (substring containment).
pub open spec fn contains_seq(t: Seq<char>, q: Seq<char>) -> bool {
    exists|i: int| occurs_at(t, q, i)
}

/// `i` is the first position at which `q` occurs in `t`.
pub open spec fn is_first_occurrence(t: Seq<char>, q: Seq<char>, i: int) -> bool {
    occurs_at(t, q, i) && forall|j: int| 0 <= j < i ==> !occurs_at(t, q, j)
}

/// Characters treated as trimmable whitespace (the ASCII whitespace set).
pub open spec fn is_space(c: char) -> bool {
    c == ' ' || c == '\t' || c == '\n' || c == '\r' || c == '\u{b}' || c == '\u{c}'
}

/// Index of the first occurrence of `c` in `s`, or `s.len()` if absent.
pub open spec fn idx_of_char(s: Seq<char>, c: char) -> int
    decreases s.len(),
{
    if s.len() == 0 {
        0
    } else if s[0] == c {
        0
    } else {
        1 + idx_of_char(s.drop_first(), c)
    }
}

/// `idx_of_char` is the least index holding `c`, or the length if none does.
pub proof fn lemma_idx_of_char(s: Seq<char>, c: char)
    ensures
        0 <= idx_of_char(s, c) <= s.len(),
        forall|j: int| 0 <= j < idx_of_char(s, c) ==> s[j] != c,
        idx_of_char(s, c) < s.len() ==> s[idx_of_char(s, c)] == c,
    decreases s.len(),
{
    if s.len() != 0 && s[0] != c {
        lemma_idx_of_char(s.drop_first(), c);
        assert forall|j: int| 0 <= j < idx_of_char(s, c) implies s[j] != c by {
            if j > 0 {
                assert(s.drop_first()[j - 1] == s[j]);
            }
        }
    }
}

/// Number of occurrences of `c` in `s`.
pub open spec fn count_char(s: Seq<char>, c: char) -> int
    decreases s.len(),
{
    if s.len() == 0 {
        0
    } else {
        count_char(s.drop_first(), c) + if s[0] == c { 1int } else { 0int }
    }
}

pub proof fn lemma_count_char_nonneg(s: Seq<char>, c: char)
    ensures
        0 <= count_char(s, c) <= s.len(),
    decreases s.len(),
{
    if s.len() != 0 {
        lemma_count_char_nonneg(s.drop_first(), c);
    }
}

/// Length of the leading run of whitespace in `s`.
pub open spec fn leading_spaces(s: Seq<char>) -> int
    decreases s.len(),
{
    if s.len() == 0 || !is_space(s[0]) {
        0
    } else {
        1 + leading_spaces(s.drop_first())
    }
}

/// Length of `s` once trailing whitespace is dropped.
pub open spec fn trimmed_end_len(s: Seq<char>) -> int
    decreases s.len(),
{
    if s.len() == 0 || !is_space(s.last()) {
        s.len() as int
    } else {
        trimmed_end_len(s.drop_last())
    }
}

/// `s` with leading and trailing whitespace removed; empty when `s` is all
/// whitespace.
pub open spec fn spec_trim(s: Seq<char>) -> Seq<char> {
    if leading_spaces(s) == s.len() {
        Seq::empty()
    } else {
        s.subrange(leading_spaces(s), trimmed_end_len(s))
    }
}

pub proof fn lemma_leading_spaces(s: Seq<char>)
    ensures
        0 <= leading_spaces(s) <= s.len(),
        forall|j: int| 0 <= j < leading_spaces(s) ==> is_space(s[j]),
        leading_spaces(s) < s.len() ==> !is_space(s[leading_spaces(s)]),
    decreases s.len(),
{
    if s.len() != 0 && is_space(s[0]) {
        lemma_leading_spaces(s.drop_first());
        assert forall|j: int| 0 <= j < leading_spaces(s) implies is_space(s[j]) by {
            if j > 0 {
                assert(s.drop_first()[j - 1] == s[j]);
            }
        }
    }
}

pub proof fn lemma_trimmed_end_len(s: Seq<char>)
    ensures
        0 <= trimmed_end_len(s) <= s.len(),
        forall|j: int| trimmed_end_len(s) <= j < s.len() ==> is_space(s[j]),
        trimmed_end_len(s) > 0 ==> !is_space(s[trimmed_end_len(s) - 1]),
    decreases s.len(),
{
    if s.len() != 0 && is_space(s.last()) {
        lemma_trimmed_end_len(s.drop_last());
        assert forall|j: int| trimmed_end_len(s) <= j < s.len() implies is_space(s[j]) by {
            if j < s.len() - 1 {
                assert(s.drop_last()[j] == s[j]);
            }
        }
    }
}

/// When a non-space character exists, trimming keeps a non-empty middle.
pub proof fn lemma_trim_bounds(s: Seq<char>)
    requires
        leading_spaces(s) < s.len(),
    ensures
        leading_spaces(s) < trimmed_end_len(s) <= s.len(),
{
    lemma_leading_spaces(s);
    lemma_trimmed_end_len(s);
    let a = leading_spaces(s);
    if trimmed_end_len(s) <= a {
        assert(is_space(s[a]));
    }
}

/// `l` with one trailing carriage return removed, if present.
pub open spec fn strip_tail_cr(l: Seq<char>) -> Seq<char> {
    if l.len() > 0 && l.last() == '\r' {
        l.drop_last()
    } else {
        l
    }
}

/// The lines of `s`: maximal segments separated by `'\n'`, each with one
/// trailing `'\r'` removed; a final empty segment after a terminating
/// newline is not produced.
pub open spec fn spec_lines(s: Seq<char>) -> Seq<Seq<char>>
    decreases s.len(),
    via spec_lines_decreases
{
    if s.len() == 0 {
        Seq::empty()
    } else {
        let k = idx_of_char(s, '\n');
        if k == s.len() {
            seq![s]
        } else {
            seq![strip_tail_cr(s.subrange(0, k))] + spec_lines(
                s.subrange(k + 1, s.len() as int),
            )
        }
    }
}

#[via_fn]
proof fn spec_lines_decreases(s: Seq<char>) {
    lemma_idx_of_char(s, '\n');
}

/// Segments of `s` separated by `c`; a trailing separator yields a final
/// empty segment, and the empty input yields one empty segment.
pub open spec fn spec_split(s: Seq<char>, c: char) -> Seq<Seq<char>>
    decreases s.len(),
    via spec_split_decreases
{
    let k = idx_of_char(s, c);
    if k == s.len() {
        seq![s]
    } else {
        seq![s.subrange(0, k)] + spec_split(s.subrange(k + 1, s.len() as int), c)
    }
}

#[via_fn]
proof fn spec_split_decreases(s: Seq<char>, c: char) {
    lemma_idx_of_char(s, c);
}

/// There are never more lines than newlines plus one.
pub proof fn lemma_lines_count(s: Seq<char>)
    ensures
        spec_lines(s).len() <= count_char(s, '\n') + 1,
        count_char(s, '\n') >= 0,
    decreases s.len(),
{
    lemma_count_char_nonneg(s, '\n');
    if s.len() != 0 {
        let k = idx_of_char(s, '\n');
        lemma_idx_of_char(s, '\n');
        if k < s.len() {
            let rest = s.subrange(k + 1, s.len() as int);
            lemma_lines_count(rest);
            lemma_count_split(s, k, '\n');
        }
    }
}

/// Splitting at the first occurrence accounts for every later occurrence.
proof fn lemma_count_split(s: Seq<char>, k: int, c: char)
    requires
        0 <= k < s.len(),
        s[k] == c,
        forall|j: int| 0 <= j < k ==> s[j] != c,
    ensures
        count_char(s, c) == 1 + count_char(s.subrange(k + 1, s.len() as int), c),
    decreases s.len(),
{
    if k == 0 {
        assert(s.drop_first() =~= s.subrange(1, s.len() as int));
    } else {
        let t = s.drop_first();
        assert(forall|j: int| 0 <= j < k - 1 ==> t[j] != c);
        lemma_count_split(t, k - 1, c);
        assert(t.subrange(k, t.len() as int) =~= s.subrange(k + 1, s.len() as int));
    }
}

// ---------------------------------------------------------------------
// Executable counterparts
// ---------------------------------------------------------------------

/// Character-for-character string equality.
pub fn str_eq(a: &str, b: &str) -> (r: bool)
    ensures
        r == (a@ == b@),
{
    let n = a.unicode_len();
    let m = b.unicode_len();
    if n != m {
        return false;
    }
    let mut i: usize = 0;
    while i < n
        invariant
            n == a@.len(),
            n == b@.len(),
            0 <= i <= n,
            forall|j: int| 0 <= j < i ==> a@[j] == b@[j],
        decreases n - i,
    {
        if a.get_char(i) != b.get_char(i) {
            return false;
        }
        i = i + 1;
    }
    proof {
        assert(a@ =~= b@);
    }
    true
}

/// Index of the first occurrence of `c` in `s`, if any.
pub fn find_char(s: &str, c: char) -> (r: Option<usize>)
    ensures
        match r {
            Some(k) => k as int == idx_of_char(s@, c) && (k as int) < s@.len(),
            None => idx_of_char(s@, c) == s@.len(),
        },
{
    proof {
        lemma_idx_of_char(s@, c);
    }
    let n = s.unicode_len();
    let mut i: usize = 0;
    while i < n
        invariant
            n == s@.len(),
            0 <= i <= n,
            forall|j: int| 0 <= j < i ==> s@[j] != c,
            0 <= idx_of_char(s@, c) <= s@.len(),
            forall|j: int| 0 <= j < idx_of_char(s@, c) ==> s@[j] != c,
            idx_of_char(s@, c) < s@.len() ==> s@[idx_of_char(s@, c)] == c,
        decreases n - i,
    {
        if s.get_char(i) == c {
            proof {
                let k = idx_of_char(s@, c);
                if k < i {
                    assert(s@[k] != c);
                } else if k > i {
                    assert(s@[i as int] != c);
                }
            }
            return Some(i);
        }
        i = i + 1;
    }
    proof {
        let k = idx_of_char(s@, c);
        if k < s@.len() {
            assert(s@[k] != c);
        }
    }
    None
}

/// Does `q` occur in `t` starting at `i`?  (`i + q.len()` must stay in
/// bounds.)
fn matches_at(t: &str, q: &str, i: usize, n: usize, m: usize) -> (r: bool)
    requires
        n == t@.len(),
        m == q@.len(),
        i + m <= n,
    ensures
        r == occurs_at(t@, q@, i as int),
{
    let mut j: usize = 0;
    while j < m
        invariant
            n == t@.len(),
            m == q@.len(),
            i + m <= n,
            0 <= j <= m,
            forall|k: int| 0 <= k < j ==> t@[i + k] == q@[k],
        decreases m - j,
    {
        if t.get_char(i + j) != q.get_char(j) {
            proof {
                if occurs_at(t@, q@, i as int) {
                    assert(t@.subrange(i as int, i + m)[j as int] == q@[j as int]);
                }
            }
            return false;
        }
        j = j + 1;
    }
    proof {
        assert(t@.subrange(i as int, i + m) =~= q@);
    }
    true
}

/// Position of the first occurrence of `q` inside `t`, if any.
pub fn find_first(t: &str, q: &str) -> (r: Option<usize>)
    ensures
        match r {
            Some(i) => is_first_occurrence(t@, q@, i as int),
            None => !contains_seq(t@, q@),
        },
{
    let n = t.unicode_len();
    let m = q.unicode_len();
    if m > n {
        proof {
            assert forall|i: int| !occurs_at(t@, q@, i) by {}
        }
        return None;
    }
    let mut i: usize = 0;
    loop
        invariant
            n == t@.len(),
            m == q@.len(),
            m <= n,
            0 <= i <= n - m,
            forall|j: int| 0 <= j < i ==> !occurs_at(t@, q@, j),
        decreases n - m - i,
    {
        if matches_at(t, q, i, n, m) {
            return Some(i);
        }
        if i == n - m {
            proof {
                assert forall|j: int| !occurs_at(t@, q@, j) by {
                    if occurs_at(t@, q@, j) {
                        assert(0 <= j <= n - m);
                    }
                }
            }
            return None;
        }
        i = i + 1;
    }
}

/// Substring containment of `q` in `t`.
pub fn contains_sub(t: &str, q: &str) -> (r: bool)
    ensures
        r == contains_seq(t@, q@),
{
    match find_first(t, q) {
        Some(_) => true,
        None => false,
    }
}

/// Does `t` begin with `q`?
pub fn starts_with_str(t: &str, q: &str) -> (r: bool)
    ensures
        r == occurs_at(t@, q@, 0),
{
    let n = t.unicode_len();
    let m = q.unicode_len();
    if m > n {
        return false;
    }
    matches_at(t, q, 0, n, m)
}

/// Does `t` end with `q`?
pub fn ends_with_str(t: &str, q: &str) -> (r: bool)
    ensures
        r == (q@.len() <= t@.len() && occurs_at(t@, q@, t@.len() - q@.len())),
{
    let n = t.unicode_len();
    let m = q.unicode_len();
    if m > n {
        return false;
    }
    matches_at(t, q, n - m, n, m)
}

/// `s` with leading and trailing whitespace removed.
pub fn trim_str<'a>(s: &'a str) -> (r: &'a str)
    ensures
        r@ == spec_trim(s@),
{
    let n = s.unicode_len();
    proof {
        lemma_leading_spaces(s@);
        lemma_trimmed_end_len(s@);
    }
    let mut a: usize = 0;
    loop
        invariant
            n == s@.len(),
            0 <= a <= n,
            a <= leading_spaces(s@),
        ensures
            a as int == leading_spaces(s@),
        decreases n - a,
    {
        proof {
            lemma_leading_spaces(s@);
        }
        if a == n {
            break;
        }
        if !is_space_char(s.get_char(a)) {
            proof {
                if (a as int) < leading_spaces(s@) {
                    assert(is_space(s@[a as int]));
                }
            }
            break;
        }
        proof {
            if a as int == leading_spaces(s@) {
                assert(!is_space(s@[leading_spaces(s@)]));
            }
        }
        a = a + 1;
    }
    if a == n {
        let e = s.substring_char(n, n);
        proof {
            assert(e@ =~= spec_trim(s@));
        }
        return e;
    }
    let mut b: usize = n;
    loop
        invariant
            n == s@.len(),
            0 <= a < n,
            a as int == leading_spaces(s@),
            a <= b <= n,
            trimmed_end_len(s@) <= b,
        ensures
            b as int == trimmed_end_len(s@),
        decreases b,
    {
        proof {
            lemma_trimmed_end_len(s@);
            lemma_leading_spaces(s@);
            lemma_trim_bounds(s@);
        }
        if b == a {
            break;
        }
        if !is_space_char(s.get_char(b - 1)) {
            proof {
                if trimmed_end_len(s@) < b as int {
                    assert(is_space(s@[b - 1]));
                }
            }
            break;
        }
        proof {
            if b as int == trimmed_end_len(s@) {
                assert(!is_space(s@[trimmed_end_len(s@) - 1]));
            }
        }
        b = b - 1;
    }
    s.substring_char(a, b)
}

/// Executable form of [`is_space`].
pub fn is_space_char(c: char) -> (r: bool)
    ensures
        r == is_space(c),
{
    c == ' ' || c == '\t' || c == '\n' || c == '\r' || c == '\u{b}' || c == '\u{c}'
}

/// Split `s` at every occurrence of `c`.
pub fn split_char(s: &str, c: char) -> (r: Vec<String>)
    ensures
        r.deep_view() == spec_split(s@, c),
{
    let mut out: Vec<String> = Vec::new();
    let mut rest: &str = s;
    loop
        invariant
            spec_split(s@, c) =~= out.deep_view() + spec_split(rest@, c),
        decreases rest@.len(),
    {
        let n = rest.unicode_len();
        match find_char(rest, c) {
            None => {
                let ghost prev = out.deep_view();
                out.push(rest.to_owned());
                proof {
                    assert(out.deep_view() =~= prev.push(rest@));
                    assert(spec_split(rest@, c) =~= seq![rest@]);
                    assert(spec_split(s@, c) =~= out.deep_view());
                }
                return out;
            },
            Some(k) => {
                let piece = rest.substring_char(0, k);
                let next = rest.substring_char(k + 1, n);
                let ghost prev = out.deep_view();
                out.push(piece.to_owned());
                proof {
                    assert(out.deep_view() =~= prev.push(piece@));
                    assert(spec_split(rest@, c) =~= seq![rest@.subrange(0, k as int)]
                        + spec_split(rest@.subrange(k + 1, rest@.len() as int), c));
                    assert(next@ =~= rest@.subrange(k + 1, rest@.len() as int));
                    assert(out.deep_view() + spec_split(next@, c) =~= prev + spec_split(
                        rest@,
                        c,
                    ));
                }
                rest = next;
            },
        }
    }
}

/// Split `s` into its lines, as [`spec_lines`] describes.
pub fn split_lines(s: &str) -> (r: Vec<String>)
    ensures
        r.deep_view() == spec_lines(s@),
{
    let mut out: Vec<String> = Vec::new();
    let mut rest: &str = s;
    loop
        invariant
            spec_lines(s@) =~= out.deep_view() + spec_lines(rest@),
        decreases rest@.len(),
    {
        let n = rest.unicode_len();
        if n == 0 {
            proof {
                assert(spec_lines(s@) =~= out.deep_view());
            }
            return out;
        }
        match find_char(rest, '\n') {
            None => {
                let ghost prev = out.deep_view();
                out.push(rest.to_owned());
                proof {
                    assert(out.deep_view() =~= prev.push(rest@));
                    assert(spec_lines(rest@) =~= seq![rest@]);
                    assert(spec_lines(s@) =~= out.deep_view());
                }
                return out;
            },
            Some(k) => {
                let raw_line = rest.substring_char(0, k);
                let line = if k > 0 && rest.get_char(k - 1) == '\r' {
                    rest.substring_char(0, k - 1)
                } else {
                    raw_line
                };
                let next = rest.substring_char(k + 1, n);
                let ghost prev = out.deep_view();
                out.push(line.to_owned());
                proof {
                    assert(raw_line@ =~= rest@.subrange(0, k as int));
                    assert(line@ =~= strip_tail_cr(rest@.subrange(0, k as int)));
                    assert(out.deep_view() =~= prev.push(line@));
                    assert(spec_lines(rest@) =~= seq![strip_tail_cr(rest@.subrange(0, k as int))]
                        + spec_lines(rest@.subrange(k + 1, rest@.len() as int)));
                    assert(next@ =~= rest@.subrange(k + 1, rest@.len() as int));
                    assert(out.deep_view() + spec_lines(next@) =~= prev + spec_lines(rest@));
                }
                rest = next;
            },
        }
    }
}

} // verus!
