//! Queries, modes and option validation.
//!
//! A query is a raw pattern together with the knowledge that it compiles;
//! compilation failure aborts the whole run before any file is touched.
//! Pattern matching itself is delegated to the external matcher, used as a
//! boolean line predicate behind trusted wrappers.

use vstd::prelude::*;
use crate::text::contains_seq;
use crate::text::spec_split;
use crate::text::spec_trim;
use crate::text::split_char;
use crate::text::trim_str;

verus! {

/// The three mutually exclusive retrieval semantics.
#[derive(Clone, Copy, Debug, PartialEq, Eq, Structural)]
pub enum SearchMode {
    /// Scoped line search over declaration bodies.
    Basic,
    /// Flat, structure-unaware line search.
    Grep,
    /// Declaration-name search returning whole bodies.
    NameSearch,
}

/// A configuration fault; fatal, raised before any file is opened.
#[derive(Clone, Copy, Debug, PartialEq, Eq, Structural)]
pub enum ConfigError {
    /// The query was empty.
    EmptyQuery,
    /// The pattern did not compile.
    InvalidPattern,
    /// More than one exclusive mode flag was selected.
    ConflictingModes,
    /// The exclude list held an empty token.
    InvalidExcludeList,
}

/// Characters with a meaning of their own in the pattern language.
pub open spec fn is_regex_meta(c: char) -> bool {
    c == '.' || c == '^' || c == '$' || c == '*' || c == '+' || c == '?' || c == '(' || c == ')'
        || c == '[' || c == ']' || c == '{' || c == '}' || c == '|' || c == '\\'
}

/// A short, non-empty pattern of plain characters only.  Such a pattern
/// always compiles and matches a line exactly when it occurs in it as a
/// substring.  (The length bound keeps the compiled form far below the
/// matcher's size limit.)
pub open spec fn is_literal_pattern(p: Seq<char>) -> bool {
    0 < p.len() <= 1000 && (forall|i: int| 0 <= i < p.len() ==> !is_regex_meta(p[i]))
}

/// Whether a non-literal pattern compiles; a fact of the pattern text
/// alone, known only through the trusted wrapper below.
pub uninterp spec fn pattern_valid_opaque(p: Seq<char>) -> bool;

/// Whether the pattern compiles.
pub open spec fn pattern_valid(p: Seq<char>) -> bool {
    if is_literal_pattern(p) {
        true
    } else {
        pattern_valid_opaque(p)
    }
}

/// Whether a non-literal pattern matches somewhere in `l`; a fact of the
/// two texts alone, known only through the trusted wrapper below.
pub uninterp spec fn regex_match_opaque(p: Seq<char>, l: Seq<char>) -> bool;

/// Whether the compiled pattern `p` matches somewhere in `l`.  A literal
/// pattern matches exactly the lines containing it as a substring.
pub open spec fn regex_match(p: Seq<char>, l: Seq<char>) -> bool {
    if is_literal_pattern(p) {
        contains_seq(l, p)
    } else {
        regex_match_opaque(p, l)
    }
}

/// Relies on `regex::Regex::new`: whether a pattern compiles is a function
/// of the pattern text alone, and a short pattern of plain characters (no
/// metacharacter, hence no escape, class, repetition or group) always
/// compiles.
#[verifier::external_body]
fn compiles(pattern: &str) -> (r: bool)
    ensures
        r == pattern_valid(pattern@),
        !is_literal_pattern(pattern@) ==> r == pattern_valid_opaque(pattern@),
{
    regex::Regex::new(pattern).is_ok()
}

/// Relies on `regex::Regex::is_match` (with `regex::Regex::new` turning the
/// pattern text into a matcher): whether the pattern matches is a function
/// of pattern and haystack alone, and a pattern of plain characters matches
/// exactly the haystacks that contain it as a substring.
#[verifier::external_body]
pub(crate) fn regex_line_match(pattern: &str, line: &str) -> (r: bool)
    requires
        pattern_valid(pattern@),
    ensures
        r == regex_match(pattern@, line@),
        !is_literal_pattern(pattern@) ==> r == regex_match_opaque(pattern@, line@),
{
    match regex::Regex::new(pattern) {
        Ok(re) => re.is_match(line),
        Err(_) => false,
    }
}

/// A validated search query.
#[derive(Debug)]
pub struct Query {
    /// The raw pattern text.
    pub raw: String,
}

impl Query {
    /// The query is non-empty and its pattern compiles.
    pub open spec fn wf(self) -> bool {
        self.raw@.len() > 0 && pattern_valid(self.raw@)
    }

    /// Build a query, rejecting an empty or non-compiling pattern.
    pub fn new(raw: String) -> (r: Result<Query, ConfigError>)
        ensures
            raw@.len() == 0 ==> r == Result::<Query, ConfigError>::Err(ConfigError::EmptyQuery),
            raw@.len() > 0 && !pattern_valid(raw@) ==> r == Result::<Query, ConfigError>::Err(
                ConfigError::InvalidPattern,
            ),
            raw@.len() > 0 && pattern_valid(raw@) ==> (r matches Ok(q) && q.raw@ == raw@
                && q.wf()),
    {
        if raw.as_str().unicode_len() == 0 {
            return Err(ConfigError::EmptyQuery);
        }
        if !compiles(raw.as_str()) {
            return Err(ConfigError::InvalidPattern);
        }
        Ok(Query { raw })
    }
}

/// The mode the two exclusive flags select: grep wins, then name search,
/// then the default scoped search.
pub open spec fn spec_mode_of(grep: bool, name_search: bool) -> SearchMode {
    if grep {
        SearchMode::Grep
    } else if name_search {
        SearchMode::NameSearch
    } else {
        SearchMode::Basic
    }
}

pub fn mode_of(grep: bool, name_search: bool) -> (r: SearchMode)
    ensures
        r == spec_mode_of(grep, name_search),
{
    if grep {
        SearchMode::Grep
    } else if name_search {
        SearchMode::NameSearch
    } else {
        SearchMode::Basic
    }
}

/// The exclude tokens a raw comma-separated list yields: split on commas,
/// each token trimmed.
pub open spec fn exclude_tokens(ex: Seq<char>) -> Seq<Seq<char>> {
    spec_split(ex, ',').map_values(|t: Seq<char>| spec_trim(t))
}

/// A well-formed exclude list has no empty token.
pub open spec fn exclude_list_ok(ex: Seq<char>) -> bool {
    forall|i: int| 0 <= i < exclude_tokens(ex).len() ==> exclude_tokens(ex)[i].len() > 0
}

/// Parse a comma-separated exclude list into its trimmed tokens; an empty
/// token is a configuration error.
pub fn parse_exclude_set(ex: &str) -> (r: Result<Vec<String>, ConfigError>)
    ensures
        match r {
            Ok(v) => exclude_list_ok(ex@) && v.deep_view() == exclude_tokens(ex@),
            Err(e) => !exclude_list_ok(ex@) && e == ConfigError::InvalidExcludeList,
        },
{
    let parts = split_char(ex, ',');
    let mut out: Vec<String> = Vec::new();
    let mut i: usize = 0;
    let len = parts.len();
    while i < len
        invariant
            len == parts@.len(),
            0 <= i <= len,
            parts.deep_view() == spec_split(ex@, ','),
            out.deep_view() =~= exclude_tokens(ex@).take(i as int),
            forall|j: int| 0 <= j < i ==> exclude_tokens(ex@)[j].len() > 0,
        decreases len - i,
    {
        let t = trim_str(parts[i].as_str());
        if t.unicode_len() == 0 {
            proof {
                assert(exclude_tokens(ex@)[i as int].len() == 0);
            }
            return Err(ConfigError::InvalidExcludeList);
        }
        let ghost prev = out.deep_view();
        out.push(t.to_owned());
        proof {
            assert(out.deep_view() =~= prev.push(t@));
            assert(out.deep_view() =~= exclude_tokens(ex@).take(i + 1));
        }
        i = i + 1;
    }
    proof {
        assert(out.deep_view() =~= exclude_tokens(ex@));
    }
    Ok(out)
}

/// The result option validation yields, exactly: an empty query, then
/// conflicting flags, then a malformed exclude list, else success.
pub open spec fn spec_validate(
    q: Seq<char>,
    grep: bool,
    name_search: bool,
    print_body: bool,
    ex: Seq<char>,
) -> Result<(), ConfigError> {
    if q.len() == 0 {
        Err(ConfigError::EmptyQuery)
    } else if (grep && name_search) || (print_body && grep) || (print_body && name_search) {
        Err(ConfigError::ConflictingModes)
    } else if !exclude_list_ok(ex) {
        Err(ConfigError::InvalidExcludeList)
    } else {
        Ok(())
    }
}

/// Validate the option set before any file is opened: the query must be
/// non-empty, at most one mode flag may be selected (the whole-body
/// modifier counts only with the default mode), and the exclude list must
/// be well formed.
pub fn validate_options(
    query: &str,
    grep: bool,
    name_search: bool,
    print_body: bool,
    exclude_dirs: &str,
) -> (r: Result<(), ConfigError>)
    ensures
        r == spec_validate(query@, grep, name_search, print_body, exclude_dirs@),
{
    if query.unicode_len() == 0 {
        return Err(ConfigError::EmptyQuery);
    }
    if (grep && name_search) || (print_body && grep) || (print_body && name_search) {
        return Err(ConfigError::ConflictingModes);
    }
    match parse_exclude_set(exclude_dirs) {
        Ok(_) => Ok(()),
        Err(_) => Err(ConfigError::InvalidExcludeList),
    }
}

} // verus!
