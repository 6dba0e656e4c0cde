//! The match engine: given a query and either a whole file or the
//! declarations extracted from it, produce the sequence of matches under
//! one of three modes.
//!
//! * Scoped search scans each declaration's body text line by line; the
//!   absolute line of a hit is the body's first row plus the relative line
//!   index plus one (1-based).  With the whole-body modifier the rendered
//!   text is the whole body, once per matching line.
//! * Grep search scans the raw file lines with no parsing at all.
//! * Name search returns, for each declaration whose name contains the raw
//!   query as a substring, one match carrying the whole body text.

use vstd::prelude::*;
use crate::decl::DeclModel;
use crate::decl::Declaration;
use crate::decl::Warning;
use crate::decl::decl_model;
use crate::decl::decl_views;
use crate::decl::extract;
use crate::decl::extract_model;
use crate::decl::extract_warnings;
use crate::decl::lemma_extract_wf;
use crate::decl::wf_decl;
use crate::query::Query;
use crate::query::SearchMode;
use crate::query::regex_line_match;
use crate::query::regex_match;
use crate::render::highlight_first;
use crate::render::spec_highlight;
use crate::text::contains_seq;
use crate::text::contains_sub;
use crate::text::lemma_lines_count;
use crate::text::spec_lines;
use crate::text::spec_trim;
use crate::text::split_lines;
use crate::text::trim_str;
use crate::tree::node_model;
use crate::tree::NodeModel;
use crate::tree::parse_php;
use crate::tree::php_parse;

verus! {

/// One reported match.  Produced, rendered, and discarded; never cached.
#[derive(Clone, Debug, PartialEq, Eq)]
pub struct Match {
    /// The display path of the file the match was found in.
    pub file_path: String,
    /// Absolute 1-based line number of the match.
    pub line: usize,
    /// Name of the enclosing declaration, absent in grep mode.
    pub decl_name: Option<String>,
    /// Parameter list of the declaration, for name search.
    pub params_text: String,
    /// Return type of the declaration, for name search.
    pub return_type_text: String,
    /// The rendered payload: a trimmed line or body, highlighted where the
    /// mode asks for it.
    pub text: String,
}

/// Mathematical view of a [`Match`].
pub struct MatchModel {
    pub file_path: Seq<char>,
    pub line: int,
    pub decl_name: Option<Seq<char>>,
    pub params_text: Seq<char>,
    pub return_type_text: Seq<char>,
    pub text: Seq<char>,
}

pub open spec fn match_model(m: Match) -> MatchModel {
    MatchModel {
        file_path: m.file_path@,
        line: m.line as int,
        decl_name: match m.decl_name {
            Some(n) => Some(n@),
            None => None,
        },
        params_text: m.params_text@,
        return_type_text: m.return_type_text@,
        text: m.text@,
    }
}

pub open spec fn match_views(s: Seq<Match>) -> Seq<MatchModel> {
    s.map_values(|m: Match| match_model(m))
}

// ---------------------------------------------------------------------
// Scoped (basic) search
// ---------------------------------------------------------------------

/// The match reported for line `i` (relative to the body) of `d`.
pub open spec fn basic_match_at(
    d: DeclModel,
    q: Seq<char>,
    path: Seq<char>,
    print_body: bool,
    i: int,
) -> MatchModel {
    MatchModel {
        file_path: path,
        line: d.body_start_line + i + 1,
        decl_name: Some(d.name),
        params_text: Seq::empty(),
        return_type_text: Seq::empty(),
        text: if print_body {
            spec_highlight(spec_trim(d.body_text), q)
        } else {
            spec_highlight(spec_trim(spec_lines(d.body_text)[i]), q)
        },
    }
}

/// Matches of `d` from relative line `i` on.
pub open spec fn basic_decl_from(
    d: DeclModel,
    q: Seq<char>,
    path: Seq<char>,
    print_body: bool,
    i: int,
) -> Seq<MatchModel>
    decreases spec_lines(d.body_text).len() - i,
{
    let ls = spec_lines(d.body_text);
    if i < 0 || i >= ls.len() {
        Seq::empty()
    } else {
        (if regex_match(q, ls[i]) {
            seq![basic_match_at(d, q, path, print_body, i)]
        } else {
            Seq::empty()
        }) + basic_decl_from(d, q, path, print_body, i + 1)
    }
}

/// All matches of one declaration, in line order.
pub open spec fn basic_decl_matches(
    d: DeclModel,
    q: Seq<char>,
    path: Seq<char>,
    print_body: bool,
) -> Seq<MatchModel> {
    basic_decl_from(d, q, path, print_body, 0)
}

/// All matches of a declaration sequence, declaration by declaration.
pub open spec fn basic_decls_matches(
    ds: Seq<DeclModel>,
    q: Seq<char>,
    path: Seq<char>,
    print_body: bool,
) -> Seq<MatchModel>
    decreases ds,
{
    if ds.len() == 0 {
        Seq::empty()
    } else {
        basic_decl_matches(ds[0], q, path, print_body) + basic_decls_matches(
            ds.drop_first(),
            q,
            path,
            print_body,
        )
    }
}

// ---------------------------------------------------------------------
// Grep search
// ---------------------------------------------------------------------

pub open spec fn grep_match_at(q: Seq<char>, path: Seq<char>, line_text: Seq<char>, i: int) -> MatchModel {
    MatchModel {
        file_path: path,
        line: i + 1,
        decl_name: None,
        params_text: Seq::empty(),
        return_type_text: Seq::empty(),
        text: spec_highlight(spec_trim(line_text), q),
    }
}

pub open spec fn grep_from(ls: Seq<Seq<char>>, q: Seq<char>, path: Seq<char>, i: int) -> Seq<
    MatchModel,
>
    decreases ls.len() - i,
{
    if i < 0 || i >= ls.len() {
        Seq::empty()
    } else {
        (if regex_match(q, ls[i]) {
            seq![grep_match_at(q, path, ls[i], i)]
        } else {
            Seq::empty()
        }) + grep_from(ls, q, path, i + 1)
    }
}

/// All grep matches of a file: the 1-based lines the pattern matches, in
/// order.
pub open spec fn spec_grep(content: Seq<char>, q: Seq<char>, path: Seq<char>) -> Seq<MatchModel> {
    grep_from(spec_lines(content), q, path, 0)
}

// ---------------------------------------------------------------------
// Name search
// ---------------------------------------------------------------------

/// The single match a declaration yields when its name contains the raw
/// query as a substring: the whole body, reported at the body's first row.
pub open spec fn name_decl_match(d: DeclModel, q: Seq<char>, path: Seq<char>) -> Seq<MatchModel> {
    if contains_seq(d.name, q) {
        seq![
            MatchModel {
                file_path: path,
                line: d.body_start_line + 1,
                decl_name: Some(d.name),
                params_text: d.params_text,
                return_type_text: d.return_type_text,
                text: spec_trim(d.body_text),
            },
        ]
    } else {
        Seq::empty()
    }
}

pub open spec fn name_decls_matches(ds: Seq<DeclModel>, q: Seq<char>, path: Seq<char>) -> Seq<
    MatchModel,
>
    decreases ds,
{
    if ds.len() == 0 {
        Seq::empty()
    } else {
        name_decl_match(ds[0], q, path) + name_decls_matches(ds.drop_first(), q, path)
    }
}

// ---------------------------------------------------------------------
// Whole-file semantics
// ---------------------------------------------------------------------

/// Does the pattern match any line of the file?  (The scoped mode's
/// pre-check: a file without one is never parsed.)
pub open spec fn any_line_matches(content: Seq<char>, q: Seq<char>) -> bool {
    exists|i: int|
        0 <= i < spec_lines(content).len() && regex_match(q, spec_lines(content)[i])
}

/// Everything one file yields under a mode, given what parsing the file
/// yields (`parsed`).  Scoped and name search first run their file-level
/// pre-check and parse only when it passes.
pub open spec fn spec_file_matches(
    mode: SearchMode,
    content: Seq<char>,
    q: Seq<char>,
    path: Seq<char>,
    print_body: bool,
    parsed: Option<NodeModel>,
) -> Seq<MatchModel> {
    match mode {
        SearchMode::Grep => spec_grep(content, q, path),
        SearchMode::Basic => if !any_line_matches(content, q) {
            Seq::empty()
        } else {
            match parsed {
                None => Seq::empty(),
                Some(root) => basic_decls_matches(extract_model(root), q, path, print_body),
            }
        },
        SearchMode::NameSearch => if !contains_seq(content, q) {
            Seq::empty()
        } else {
            match parsed {
                None => Seq::empty(),
                Some(root) => name_decls_matches(extract_model(root), q, path),
            }
        },
    }
}

/// The warnings one file yields under a mode.
pub open spec fn spec_file_warnings(
    mode: SearchMode,
    content: Seq<char>,
    q: Seq<char>,
    parsed: Option<NodeModel>,
) -> Seq<Warning> {
    match mode {
        SearchMode::Grep => Seq::empty(),
        SearchMode::Basic => if !any_line_matches(content, q) {
            Seq::empty()
        } else {
            match parsed {
                None => seq![Warning::ParseFailed],
                Some(root) => extract_warnings(root),
            }
        },
        SearchMode::NameSearch => if !contains_seq(content, q) {
            Seq::empty()
        } else {
            match parsed {
                None => seq![Warning::ParseFailed],
                Some(root) => extract_warnings(root),
            }
        },
    }
}

// ---------------------------------------------------------------------
// Executable engine
// ---------------------------------------------------------------------

/// Scan one declaration's body, appending a match per matching line.
fn basic_one_decl(d: &Declaration, q: &Query, path: &str, print_body: bool, out: &mut Vec<Match>)
    requires
        q.wf(),
        wf_decl(decl_model(*d)),
    ensures
        match_views(final(out)@) == match_views(old(out)@) + basic_decl_matches(
            decl_model(*d),
            q.raw@,
            path@,
            print_body,
        ),
{
    let ghost dm = decl_model(*d);
    let lines = split_lines(d.body_text.as_str());
    proof {
        lemma_lines_count(d.body_text@);
    }
    let len = lines.len();
    let mut i: usize = 0;
    while i < len
        invariant
            q.wf(),
            wf_decl(dm),
            dm == decl_model(*d),
            lines.deep_view() == spec_lines(dm.body_text),
            len == lines@.len(),
            0 <= i <= len,
            len <= dm.body_end_line - dm.body_start_line + 1,
            match_views(out@) + basic_decl_from(dm, q.raw@, path@, print_body, i as int)
                =~= match_views(old(out)@) + basic_decl_matches(dm, q.raw@, path@, print_body),
        decreases len - i,
    {
        proof {
            assert(lines@[i as int]@ == lines.deep_view()[i as int]);
        }
        if regex_line_match(q.raw.as_str(), lines[i].as_str()) {
            let line_no = d.body_start_line + i + 1;
            let text = if print_body {
                highlight_first(trim_str(d.body_text.as_str()), q.raw.as_str())
            } else {
                highlight_first(trim_str(lines[i].as_str()), q.raw.as_str())
            };
            let m = Match {
                file_path: path.to_owned(),
                line: line_no,
                decl_name: Some(d.name.clone()),
                params_text: String::new(),
                return_type_text: String::new(),
                text,
            };
            let ghost prev = match_views(out@);
            out.push(m);
            proof {
                assert(match_views(out@) =~= prev.push(
                    basic_match_at(dm, q.raw@, path@, print_body, i as int),
                ));
            }
        }
        i = i + 1;
    }
}

/// Scan every declaration in order.
pub fn basic_decls_search(ds: &Vec<Declaration>, q: &Query, path: &str, print_body: bool) -> (r:
    Vec<Match>)
    requires
        q.wf(),
        forall|k: int| 0 <= k < ds@.len() ==> wf_decl(#[trigger] decl_views(ds@)[k]),
    ensures
        match_views(r@) == basic_decls_matches(decl_views(ds@), q.raw@, path@, print_body),
{
    let mut out: Vec<Match> = Vec::new();
    let ghost dms = decl_views(ds@);
    let len = ds.len();
    let mut i: usize = 0;
    proof {
        assert(dms.skip(0) =~= dms);
        assert(match_views(out@) =~= Seq::<MatchModel>::empty());
    }
    while i < len
        invariant
            q.wf(),
            len == ds@.len(),
            0 <= i <= len,
            dms == decl_views(ds@),
            dms.len() == len,
            forall|k: int| 0 <= k < len ==> wf_decl(#[trigger] dms[k]),
            match_views(out@) + basic_decls_matches(dms.skip(i as int), q.raw@, path@, print_body)
                =~= basic_decls_matches(dms, q.raw@, path@, print_body),
        decreases len - i,
    {
        proof {
            assert(dms[i as int] == decl_model(ds@[i as int]));
        }
        basic_one_decl(&ds[i], q, path, print_body, &mut out);
        proof {
            assert(dms.skip(i as int)[0] == dms[i as int]);
            assert(dms.skip(i as int).drop_first() =~= dms.skip(i + 1));
        }
        i = i + 1;
    }
    proof {
        assert(dms.skip(len as int) =~= Seq::<DeclModel>::empty());
    }
    out
}

/// Scan the raw lines of a file.
pub fn grep_search_file(content: &str, q: &Query, path: &str) -> (r: Vec<Match>)
    requires
        q.wf(),
    ensures
        match_views(r@) == spec_grep(content@, q.raw@, path@),
{
    let lines = split_lines(content);
    let ghost ls = spec_lines(content@);
    let mut out: Vec<Match> = Vec::new();
    let len = lines.len();
    let mut i: usize = 0;
    proof {
        assert(match_views(out@) =~= Seq::<MatchModel>::empty());
    }
    while i < len
        invariant
            q.wf(),
            len == lines@.len(),
            0 <= i <= len,
            lines.deep_view() == ls,
            ls == spec_lines(content@),
            match_views(out@) + grep_from(ls, q.raw@, path@, i as int) =~= spec_grep(
                content@,
                q.raw@,
                path@,
            ),
        decreases len - i,
    {
        proof {
            assert(lines@[i as int]@ == lines.deep_view()[i as int]);
        }
        if regex_line_match(q.raw.as_str(), lines[i].as_str()) {
            let text = highlight_first(trim_str(lines[i].as_str()), q.raw.as_str());
            let m = Match {
                file_path: path.to_owned(),
                line: i + 1,
                decl_name: None,
                params_text: String::new(),
                return_type_text: String::new(),
                text,
            };
            let ghost prev = match_views(out@);
            out.push(m);
            proof {
                assert(match_views(out@) =~= prev.push(
                    grep_match_at(q.raw@, path@, ls[i as int], i as int),
                ));
            }
        }
        i = i + 1;
    }
    out
}

/// Report every declaration whose name contains the query.
pub fn name_decls_search(ds: &Vec<Declaration>, q: &Query, path: &str) -> (r: Vec<Match>)
    requires
        q.wf(),
        forall|k: int| 0 <= k < ds@.len() ==> wf_decl(#[trigger] decl_views(ds@)[k]),
    ensures
        match_views(r@) == name_decls_matches(decl_views(ds@), q.raw@, path@),
{
    let mut out: Vec<Match> = Vec::new();
    let ghost dms = decl_views(ds@);
    let len = ds.len();
    let mut i: usize = 0;
    proof {
        assert(dms.skip(0) =~= dms);
        assert(match_views(out@) =~= Seq::<MatchModel>::empty());
    }
    while i < len
        invariant
            q.wf(),
            len == ds@.len(),
            0 <= i <= len,
            dms == decl_views(ds@),
            dms.len() == len,
            forall|k: int| 0 <= k < len ==> wf_decl(#[trigger] dms[k]),
            match_views(out@) + name_decls_matches(dms.skip(i as int), q.raw@, path@)
                =~= name_decls_matches(dms, q.raw@, path@),
        decreases len - i,
    {
        proof {
            assert(dms[i as int] == decl_model(ds@[i as int]));
        }
        let d = &ds[i];
        if contains_sub(d.name.as_str(), q.raw.as_str()) {
            let m = Match {
                file_path: path.to_owned(),
                line: d.body_start_line + 1,
                decl_name: Some(d.name.clone()),
                params_text: d.params_text.clone(),
                return_type_text: d.return_type_text.clone(),
                text: trim_str(d.body_text.as_str()).to_owned(),
            };
            let ghost prev = match_views(out@);
            out.push(m);
            proof {
                assert(match_views(out@) =~= prev + name_decl_match(
                    dms[i as int],
                    q.raw@,
                    path@,
                ));
            }
        }
        proof {
            assert(dms.skip(i as int)[0] == dms[i as int]);
            assert(dms.skip(i as int).drop_first() =~= dms.skip(i + 1));
        }
        i = i + 1;
    }
    proof {
        assert(dms.skip(len as int) =~= Seq::<DeclModel>::empty());
    }
    out
}

/// Does the pattern match any line of the file?
fn any_line_match(content: &str, q: &Query) -> (r: bool)
    requires
        q.wf(),
    ensures
        r == any_line_matches(content@, q.raw@),
{
    let lines = split_lines(content);
    let ghost ls = spec_lines(content@);
    let len = lines.len();
    let mut i: usize = 0;
    while i < len
        invariant
            q.wf(),
            len == lines@.len(),
            lines.deep_view() == ls,
            ls == spec_lines(content@),
            0 <= i <= len,
            forall|j: int| 0 <= j < i ==> !regex_match(q.raw@, ls[j]),
        decreases len - i,
    {
        proof {
            assert(lines@[i as int]@ == lines.deep_view()[i as int]);
        }
        if regex_line_match(q.raw.as_str(), lines[i].as_str()) {
            return true;
        }
        i = i + 1;
    }
    false
}

/// Search one file: run the mode's pre-check, parse when the mode needs a
/// tree, extract declarations and match.  Returns the matches and the
/// warnings in order.
pub fn search_file(
    content: &str,
    q: &Query,
    mode: SearchMode,
    print_body: bool,
    display_path: &str,
) -> (r: (Vec<Match>, Vec<Warning>))
    requires
        q.wf(),
    ensures
        match_views(r.0@) == spec_file_matches(
            mode,
            content@,
            q.raw@,
            display_path@,
            print_body,
            php_parse(content@),
        ),
        r.1@ == spec_file_warnings(mode, content@, q.raw@, php_parse(content@)),
{
    match mode {
        SearchMode::Grep => {
            let ms = grep_search_file(content, q, display_path);
            let ws: Vec<Warning> = Vec::new();
            proof {
                assert(ws@ =~= Seq::<Warning>::empty());
            }
            (ms, ws)
        },
        SearchMode::Basic => {
            if !any_line_match(content, q) {
                let r = (Vec::<Match>::new(), Vec::<Warning>::new());
                proof {
                    assert(match_views(r.0@) =~= Seq::<MatchModel>::empty());
                    assert(r.1@ =~= Seq::<Warning>::empty());
                }
                return r;
            }
            match parse_php(content) {
                None => {
                    let mut w: Vec<Warning> = Vec::new();
                    w.push(Warning::ParseFailed);
                    let r = (Vec::<Match>::new(), w);
                    proof {
                        assert(match_views(r.0@) =~= Seq::<MatchModel>::empty());
                        assert(r.1@ =~= seq![Warning::ParseFailed]);
                    }
                    r
                },
                Some(root) => {
                    proof {
                        assert(php_parse(content@) == Some(node_model(root)));
                        lemma_extract_wf(node_model(root));
                    }
                    let (ds, warns) = extract(&root);
                    let ms = basic_decls_search(&ds, q, display_path, print_body);
                    (ms, warns)
                },
            }
        },
        SearchMode::NameSearch => {
            if !contains_sub(content, q.raw.as_str()) {
                let r = (Vec::<Match>::new(), Vec::<Warning>::new());
                proof {
                    assert(match_views(r.0@) =~= Seq::<MatchModel>::empty());
                    assert(r.1@ =~= Seq::<Warning>::empty());
                }
                return r;
            }
            match parse_php(content) {
                None => {
                    let mut w: Vec<Warning> = Vec::new();
                    w.push(Warning::ParseFailed);
                    let r = (Vec::<Match>::new(), w);
                    proof {
                        assert(match_views(r.0@) =~= Seq::<MatchModel>::empty());
                        assert(r.1@ =~= seq![Warning::ParseFailed]);
                    }
                    r
                },
                Some(root) => {
                    proof {
                        assert(php_parse(content@) == Some(node_model(root)));
                        lemma_extract_wf(node_model(root));
                    }
                    let (ds, warns) = extract(&root);
                    let ms = name_decls_search(&ds, q, display_path);
                    (ms, warns)
                },
            }
        },
    }
}

// ---------------------------------------------------------------------
// Laws of the engine
// ---------------------------------------------------------------------

proof fn lemma_grep_from_lines(ls: Seq<Seq<char>>, q: Seq<char>, path: Seq<char>, i: int)
    requires
        0 <= i,
    ensures
        forall|k: int|
            0 <= k < grep_from(ls, q, path, i).len() ==> {
                let m = #[trigger] grep_from(ls, q, path, i)[k];
                i + 1 <= m.line <= ls.len() && regex_match(q, ls[m.line - 1])
            },
        forall|j: int|
            i <= j < ls.len() && regex_match(q, #[trigger] ls[j]) ==> exists|k: int|
                0 <= k < grep_from(ls, q, path, i).len() && #[trigger] grep_from(
                    ls,
                    q,
                    path,
                    i,
                )[k].line == j + 1,
        forall|k1: int, k2: int|
            0 <= k1 < k2 < grep_from(ls, q, path, i).len() ==> (#[trigger] grep_from(
                ls,
                q,
                path,
                i,
            )[k1]).line < (#[trigger] grep_from(ls, q, path, i)[k2]).line,
    decreases ls.len() - i,
{
    if i < ls.len() {
        lemma_grep_from_lines(ls, q, path, i + 1);
        let whole = grep_from(ls, q, path, i);
        let rest = grep_from(ls, q, path, i + 1);
        let head: Seq<MatchModel> = if regex_match(q, ls[i]) {
            seq![grep_match_at(q, path, ls[i], i)]
        } else {
            Seq::empty()
        };
        assert(whole == head + rest);
        assert forall|k: int|
            0 <= k < whole.len() implies i + 1 <= (#[trigger] whole[k]).line <= ls.len()
                && regex_match(q, ls[whole[k].line - 1]) by {
            if k < head.len() {
                assert(whole[k] == head[k]);
            } else {
                assert(whole[k] == rest[k - head.len()]);
            }
        }
        assert forall|j: int| i <= j < ls.len() && regex_match(q, ls[j]) implies exists|k: int|
            0 <= k < whole.len() && whole[k].line == j + 1 by {
            if j == i {
                assert(whole[0] == head[0]);
                assert(whole[0].line == i + 1);
            } else {
                let k0 = choose|k0: int|
                    0 <= k0 < rest.len() && rest[k0].line == j + 1;
                assert(whole[k0 + head.len()] == rest[k0]);
            }
        }
        assert forall|k1: int, k2: int| 0 <= k1 < k2 < whole.len() implies (#[trigger] whole[k1]).line
            < (#[trigger] whole[k2]).line by {
            if k1 < head.len() {
                assert(whole[k1] == head[0]);
                assert(whole[k2] == rest[k2 - head.len()]);
            } else {
                assert(whole[k1] == rest[k1 - head.len()]);
                assert(whole[k2] == rest[k2 - head.len()]);
            }
        }
    }
}

/// For a non-empty pattern of plain characters, grep mode reports exactly
/// the set of 1-based lines whose text contains the pattern as a
/// substring: every reported line number names such a line, every such
/// line is reported, and the reported line numbers are strictly
/// increasing, so no line is reported twice.
pub proof fn lemma_grep_literal_exact(content: Seq<char>, q: Seq<char>, path: Seq<char>)
    requires
        crate::query::is_literal_pattern(q),
    ensures
        forall|k: int|
            0 <= k < spec_grep(content, q, path).len() ==> {
                let m = #[trigger] spec_grep(content, q, path)[k];
                1 <= m.line <= spec_lines(content).len() && contains_seq(
                    spec_lines(content)[m.line - 1],
                    q,
                )
            },
        forall|i: int|
            0 <= i < spec_lines(content).len() && contains_seq(
                #[trigger] spec_lines(content)[i],
                q,
            ) ==> exists|k: int|
                0 <= k < spec_grep(content, q, path).len() && #[trigger] spec_grep(
                    content,
                    q,
                    path,
                )[k].line == i + 1,
        forall|k1: int, k2: int|
            0 <= k1 < k2 < spec_grep(content, q, path).len() ==> (#[trigger] spec_grep(
                content,
                q,
                path,
            )[k1]).line < (#[trigger] spec_grep(content, q, path)[k2]).line,
{
    lemma_grep_from_lines(spec_lines(content), q, path, 0);
}

proof fn lemma_basic_from_bounds(
    d: DeclModel,
    q: Seq<char>,
    path: Seq<char>,
    pb: bool,
    i: int,
)
    requires
        0 <= i,
    ensures
        forall|k: int|
            0 <= k < basic_decl_from(d, q, path, pb, i).len() ==> exists|j: int|
                i <= j < spec_lines(d.body_text).len() && #[trigger] basic_decl_from(
                    d,
                    q,
                    path,
                    pb,
                    i,
                )[k].line == d.body_start_line + j + 1 && regex_match(
                    q,
                    spec_lines(d.body_text)[j],
                ),
    decreases spec_lines(d.body_text).len() - i,
{
    let ls = spec_lines(d.body_text);
    if i < ls.len() {
        lemma_basic_from_bounds(d, q, path, pb, i + 1);
        let whole = basic_decl_from(d, q, path, pb, i);
        let rest = basic_decl_from(d, q, path, pb, i + 1);
        let head: Seq<MatchModel> = if regex_match(q, ls[i]) {
            seq![basic_match_at(d, q, path, pb, i)]
        } else {
            Seq::empty()
        };
        assert(whole == head + rest);
        assert forall|k: int| 0 <= k < whole.len() implies exists|j: int|
            i <= j < ls.len() && (#[trigger] whole[k]).line == d.body_start_line + j + 1
                && regex_match(q, #[trigger] ls[j]) by {
            if k < head.len() {
                assert(whole[k] == head[0]);
                assert(i <= i < ls.len() && whole[k].line == d.body_start_line + i + 1
                    && regex_match(q, ls[i]));
            } else {
                assert(whole[k] == rest[k - head.len()]);
                let j0 = choose|j0: int|
                    i + 1 <= j0 < spec_lines(d.body_text).len() && rest[k - head.len()].line
                        == d.body_start_line + j0 + 1 && regex_match(
                        q,
                        spec_lines(d.body_text)[j0],
                    );
                assert(i <= j0 < ls.len() && whole[k].line == d.body_start_line + j0 + 1
                    && regex_match(q, ls[j0]));
            }
        }
    }
}

/// The absolute line of every match the scoped mode reports for a
/// declaration equals `bodyStartLine + relativeIndex + 1` for a matching
/// relative line index, and falls within the 1-based rows
/// `[bodyStartLine + 1, bodyEndLine + 1]` that the body covers.
pub proof fn lemma_basic_line_bounds(d: DeclModel, q: Seq<char>, path: Seq<char>, pb: bool)
    requires
        wf_decl(d),
    ensures
        forall|k: int|
            0 <= k < basic_decl_matches(d, q, path, pb).len() ==> exists|j: int|
                0 <= j < spec_lines(d.body_text).len() && #[trigger] basic_decl_matches(
                    d,
                    q,
                    path,
                    pb,
                )[k].line == d.body_start_line + j + 1 && regex_match(
                    q,
                    spec_lines(d.body_text)[j],
                ),
        forall|k: int|
            0 <= k < basic_decl_matches(d, q, path, pb).len() ==> d.body_start_line + 1 <= (
            #[trigger] basic_decl_matches(d, q, path, pb)[k]).line <= d.body_end_line + 1,
{
    lemma_basic_from_bounds(d, q, path, pb, 0);
    lemma_lines_count(d.body_text);
    assert forall|k: int| 0 <= k < basic_decl_matches(d, q, path, pb).len() implies d.body_start_line
        + 1 <= (#[trigger] basic_decl_matches(d, q, path, pb)[k]).line <= d.body_end_line + 1 by {
        let j = choose|j: int|
            0 <= j < spec_lines(d.body_text).len() && basic_decl_matches(d, q, path, pb)[k].line
                == d.body_start_line + j + 1 && regex_match(q, spec_lines(d.body_text)[j]);
        assert(spec_lines(d.body_text).len() <= d.body_end_line - d.body_start_line + 1);
    }
}

/// Name search never yields a match for a declaration whose name does not
/// contain the raw query as a substring (case-sensitive); each match
/// carries the declaration's name.
pub proof fn lemma_name_search_contains(ds: Seq<DeclModel>, q: Seq<char>, path: Seq<char>)
    ensures
        forall|k: int|
            0 <= k < name_decls_matches(ds, q, path).len() ==> {
                let m = #[trigger] name_decls_matches(ds, q, path)[k];
                m.decl_name matches Some(n) && contains_seq(n, q)
            },
    decreases ds,
{
    if ds.len() != 0 {
        lemma_name_search_contains(ds.drop_first(), q, path);
        let whole = name_decls_matches(ds, q, path);
        let head = name_decl_match(ds[0], q, path);
        let rest = name_decls_matches(ds.drop_first(), q, path);
        assert(whole == head + rest);
        assert forall|k: int|
            0 <= k < whole.len() implies ((#[trigger] whole[k]).decl_name matches Some(n)
                && contains_seq(n, q)) by {
            if k < head.len() {
                assert(whole[k] == head[k]);
            } else {
                assert(whole[k] == rest[k - head.len()]);
            }
        }
    }
}

/// Searching the same file twice with the same query, mode and options
/// yields the same matches and warnings: the engine's result is a function
/// of its inputs alone.  (Across a whole run the order of files follows
/// the directory walk, which lies outside the library.)
pub proof fn lemma_search_idempotent(
    mode: SearchMode,
    content: Seq<char>,
    q: Seq<char>,
    path: Seq<char>,
    pb: bool,
    m1: Seq<MatchModel>,
    w1: Seq<Warning>,
    m2: Seq<MatchModel>,
    w2: Seq<Warning>,
)
    requires
        m1 == spec_file_matches(mode, content, q, path, pb, php_parse(content)),
        w1 == spec_file_warnings(mode, content, q, php_parse(content)),
        m2 == spec_file_matches(mode, content, q, path, pb, php_parse(content)),
        w2 == spec_file_warnings(mode, content, q, php_parse(content)),
    ensures
        m1 == m2,
        w1 == w2,
{
}

} // verus!
