//! Path selection: the pruning predicate the directory walk applies before
//! descending, and the candidate filter on file names.

use vstd::prelude::*;
use crate::text::contains_seq;
use crate::text::contains_sub;
use crate::text::ends_with_str;
use crate::text::find_char;
use crate::text::idx_of_char;
use crate::text::lemma_idx_of_char;
use crate::text::occurs_at;
use crate::text::starts_with_str;

verus! {

/// One exclude token rejects a path when the path contains it anywhere,
/// when the path relative to the root starts with it, or when the path
/// ends with it.
pub open spec fn token_excludes(path: Seq<char>, rel: Seq<char>, t: Seq<char>) -> bool {
    contains_seq(path, t) || occurs_at(rel, t, 0) || (t.len() <= path.len() && occurs_at(
        path,
        t,
        path.len() - t.len(),
    ))
}

/// A walk entry is kept exactly when no exclude token rejects it.
pub open spec fn spec_keep(path: Seq<char>, rel: Seq<char>, ex: Seq<Seq<char>>) -> bool {
    forall|i: int| 0 <= i < ex.len() ==> !token_excludes(path, rel, ex[i])
}

/// Decide whether the walk may keep (and descend into) an entry, as
/// [`spec_keep`] describes.  Pruning with this predicate before descending
/// keeps every file under an excluded directory out of the walk.
pub fn keep_entry(path: &str, rel: &str, excludes: &Vec<String>) -> (r: bool)
    ensures
        r == spec_keep(path@, rel@, excludes.deep_view()),
{
    let len = excludes.len();
    let mut i: usize = 0;
    while i < len
        invariant
            len == excludes@.len(),
            0 <= i <= len,
            forall|j: int|
                0 <= j < i ==> !token_excludes(path@, rel@, excludes.deep_view()[j]),
        decreases len - i,
    {
        let t = &excludes[i];
        proof {
            assert(excludes@[i as int]@ == excludes.deep_view()[i as int]);
        }
        let hit = contains_sub(path, t.as_str()) || starts_with_str(rel, t.as_str())
            || ends_with_str(path, t.as_str());
        if hit {
            return false;
        }
        i = i + 1;
    }
    true
}

/// A token contained anywhere in a path rejects that path; in particular
/// every path below a directory whose name is an exclude token is
/// rejected, at any depth.
pub proof fn lemma_excluded_token(path: Seq<char>, rel: Seq<char>, ex: Seq<Seq<char>>, i: int)
    requires
        0 <= i < ex.len(),
        contains_seq(path, ex[i]),
    ensures
        !spec_keep(path, rel, ex),
{
    assert(token_excludes(path, rel, ex[i]));
}

// ---------------------------------------------------------------------
// Candidate files
// ---------------------------------------------------------------------

/// The final component of a path: what follows the last separator.
pub open spec fn spec_file_name(p: Seq<char>) -> Seq<char>
    decreases p.len(),
    via spec_file_name_decreases
{
    let k = idx_of_char(p, '/');
    if k == p.len() {
        p
    } else {
        spec_file_name(p.skip(k + 1))
    }
}

#[via_fn]
proof fn spec_file_name_decreases(p: Seq<char>) {
    lemma_idx_of_char(p, '/');
}

/// Index of the last occurrence of `c` in `s`, or `-1` if absent.
pub open spec fn last_idx_of(s: Seq<char>, c: char) -> int
    decreases s.len(),
{
    if s.len() == 0 {
        -1
    } else if s.last() == c {
        s.len() - 1
    } else {
        last_idx_of(s.drop_last(), c)
    }
}

pub proof fn lemma_last_idx_of(s: Seq<char>, c: char)
    ensures
        -1 <= last_idx_of(s, c) < s.len(),
        last_idx_of(s, c) >= 0 ==> s[last_idx_of(s, c)] == c,
        forall|j: int| last_idx_of(s, c) < j < s.len() ==> s[j] != c,
    decreases s.len(),
{
    if s.len() != 0 && s.last() != c {
        lemma_last_idx_of(s.drop_last(), c);
        assert forall|j: int| last_idx_of(s, c) < j < s.len() implies s[j] != c by {
            if j < s.len() - 1 {
                assert(s.drop_last()[j] == s[j]);
            }
        }
    }
}

/// The extension of a file name: what follows the final dot, absent when
/// there is no dot or the only dot starts a hidden name.
pub open spec fn spec_extension(fname: Seq<char>) -> Option<Seq<char>> {
    let k = last_idx_of(fname, '.');
    if k <= 0 {
        None
    } else {
        Some(fname.skip(k + 1))
    }
}

/// A path is a candidate exactly when its file name carries the `php`
/// extension and contains the configured name filter as a substring.
pub open spec fn spec_is_candidate(p: Seq<char>, filter: Seq<char>) -> bool {
    spec_extension(spec_file_name(p)) == Some("php"@) && contains_seq(spec_file_name(p), filter)
}

/// The final component of `p`.
pub fn file_name_of<'a>(p: &'a str) -> (r: &'a str)
    ensures
        r@ == spec_file_name(p@),
{
    let mut rest: &str = p;
    loop
        invariant
            spec_file_name(p@) == spec_file_name(rest@),
        decreases rest@.len(),
    {
        proof {
            lemma_idx_of_char(rest@, '/');
        }
        let n = rest.unicode_len();
        match find_char(rest, '/') {
            None => {
                return rest;
            },
            Some(k) => {
                let next = rest.substring_char(k + 1, n);
                proof {
                    assert(next@ =~= rest@.skip(k + 1));
                }
                rest = next;
            },
        }
    }
}

/// The extension of file name `f`, if any.
pub fn extension_of<'a>(f: &'a str) -> (r: Option<&'a str>)
    ensures
        match r {
            Some(e) => spec_extension(f@) == Some(e@),
            None => spec_extension(f@) is None,
        },
{
    proof {
        lemma_last_idx_of(f@, '.');
    }
    let n = f.unicode_len();
    let mut b: usize = n;
    loop
        invariant
            n == f@.len(),
            0 <= b <= n,
            last_idx_of(f@, '.') < b,
            forall|j: int| b <= j < n ==> f@[j] != '.',
            -1 <= last_idx_of(f@, '.') < f@.len(),
            last_idx_of(f@, '.') >= 0 ==> f@[last_idx_of(f@, '.')] == '.',
            forall|j: int| last_idx_of(f@, '.') < j < f@.len() ==> f@[j] != '.',
        ensures
            b as int == last_idx_of(f@, '.') + 1,
        decreases b,
    {
        if b == 0 {
            break;
        }
        if f.get_char(b - 1) == '.' {
            proof {
                if (b - 1) as int > last_idx_of(f@, '.') {
                    assert(f@[b - 1] != '.');
                }
            }
            break;
        }
        proof {
            if b as int == last_idx_of(f@, '.') + 1 {
                assert(f@[last_idx_of(f@, '.')] == '.');
            }
        }
        b = b - 1;
    }
    if b <= 1 {
        proof {
            assert(last_idx_of(f@, '.') <= 0);
        }
        None
    } else {
        let e = f.substring_char(b, n);
        proof {
            assert(e@ =~= f@.skip(last_idx_of(f@, '.') + 1));
        }
        Some(e)
    }
}

/// Decide whether a path is a candidate file, as [`spec_is_candidate`]
/// describes.
pub fn is_candidate_path(p: &str, filter: &str) -> (r: bool)
    ensures
        r == spec_is_candidate(p@, filter@),
{
    let fname = file_name_of(p);
    match extension_of(fname) {
        Some(e) => {
            if crate::text::str_eq(e, "php") {
                contains_sub(fname, filter)
            } else {
                proof {
                    assert(spec_extension(fname@) == Some(e@));
                }
                false
            }
        },
        None => false,
    }
}

} // verus!
