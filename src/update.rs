//! Decisions of the update command: which repositories hold the scheme and
//! template lists, and what those lists name. Cloning happens outside.

use vstd::prelude::*;
use vstd::string::StringExecFns;
use crate::config::ExtraSource;
use crate::names::{sort_names, sorted, string_views};
use crate::splice::{lines_of, split_lines, views};
use crate::text::{is_whitespace, push_char, push_str, string_of, without_white_space};

verus! {

pub const DEFAULT_SCHEMES_SOURCE: &'static str =
    "https://github.com/chriskempson/base16-schemes-source.git";

pub const DEFAULT_TEMPLATES_SOURCE: &'static str =
    "https://github.com/chriskempson/base16-templates-source.git";

/// What to update.
#[derive(Clone, Copy, Debug, PartialEq, Eq, Structural)]
pub enum UpdateOperation {
    Lists,
    Schemes,
    Templates,
    All,
}

/// The index of the first `c` in `s` at or after `from`, or the length of
/// `s` when there is none.
pub open spec fn index_of(s: Seq<char>, c: char, from: int) -> int
    decreases s.len() - from,
{
    if from < 0 || from >= s.len() {
        s.len() as int
    } else if s[from] == c {
        from
    } else {
        index_of(s, c, from + 1)
    }
}

/// The name before the first `:` of a `name: repository` line (the whole
/// line when there is none), and the text after it without white space.
pub open spec fn yml_line(line: Seq<char>) -> (Seq<char>, Seq<char>) {
    let k = index_of(line, ':', 0);
    (
        line.take(k),
        if k < line.len() {
            without_white_space(line.skip(k + 1))
        } else {
            seq![]
        },
    )
}

proof fn lemma_index_of_bounds(s: Seq<char>, c: char, from: int)
    requires
        0 <= from,
    ensures
        from <= index_of(s, c, from) <= s.len() || (from > s.len() && index_of(s, c, from)
            == s.len()),
        index_of(s, c, from) < s.len() ==> s[index_of(s, c, from)] == c,
    decreases s.len() - from,
{
    if from < s.len() && s[from] != c {
        lemma_index_of_bounds(s, c, from + 1);
    }
}

/// Splits a `name: repository` line.
pub fn parse_yml_line(line: &str) -> (r: (String, String))
    ensures
        (r.0@, r.1@) == yml_line(line@),
{
    let cs = crate::text::chars_of(line);
    let n = cs.len();
    let mut k: usize = 0;
    while k < n && cs[k] != ':'
        invariant
            cs@ == line@,
            n == cs@.len(),
            k <= n,
            index_of(line@, ':', 0) == index_of(line@, ':', k as int),
        decreases n - k,
    {
        k = k + 1;
    }
    let name = string_of(&cs, 0, k);
    assert(cs@.subrange(0, k as int) =~= line@.take(k as int));
    let mut repo = String::new();
    if k < n {
        let ghost rest = line@.skip(k + 1);
        for i in k + 1..n
            invariant
                cs@ == line@,
                n == cs@.len(),
                k < n,
                rest == line@.skip(k + 1),
                repo@ == without_white_space(rest.take(i - k - 1)),
        {
            assert(rest.take(i - k).drop_last() =~= rest.take(i - k - 1));
            assert(rest.take(i - k).last() == cs@[i as int]);
            if !is_whitespace(cs[i]) {
                push_char(&mut repo, cs[i]);
            }
        }
        assert(rest.take(n - k - 1) =~= rest);
    } else {
        assert(index_of(line@, ':', k as int) == n);
    }
    (name, repo)
}

/// Reads an update operation's name.
pub fn parse_operation(op: &str) -> (r: Option<UpdateOperation>)
    ensures
        r == (if op@ == "lists"@ {
            Some(UpdateOperation::Lists)
        } else if op@ == "schemes"@ {
            Some(UpdateOperation::Schemes)
        } else if op@ == "templates"@ {
            Some(UpdateOperation::Templates)
        } else if op@ == "all"@ {
            Some(UpdateOperation::All)
        } else {
            None
        }),
{
    let o = String::from_str(op);
    if o == String::from_str("lists") {
        Some(UpdateOperation::Lists)
    } else if o == String::from_str("schemes") {
        Some(UpdateOperation::Schemes)
    } else if o == String::from_str("templates") {
        Some(UpdateOperation::Templates)
    } else if o == String::from_str("all") {
        Some(UpdateOperation::All)
    } else {
        None
    }
}

pub open spec fn or_default(o: Option<String>, d: Seq<char>) -> Seq<char> {
    match o {
        Some(s) => s@,
        None => d,
    }
}

/// The scheme and template list repositories: the configured ones win;
/// otherwise the last `schemes:` and `templates:` lines of the sources file;
/// otherwise the defaults.
pub open spec fn sources_spec(
    ls: Seq<Seq<char>>,
    schemes: Option<String>,
    templates: Option<String>,
) -> (Seq<char>, Seq<char>)
    decreases ls.len(),
{
    if ls.len() == 0 {
        (or_default(schemes, DEFAULT_SCHEMES_SOURCE@), or_default(templates, DEFAULT_TEMPLATES_SOURCE@))
    } else {
        let prev = sources_spec(ls.drop_last(), schemes, templates);
        let line = yml_line(ls.last());
        if line.0 == "schemes"@ && schemes is None {
            (line.1, prev.1)
        } else if line.0 == "templates"@ && templates is None {
            (prev.0, line.1)
        } else {
            prev
        }
    }
}

/// The repositories of the scheme and template lists, from the
/// configuration and the text of the sources file (none when it is missing).
pub fn resolve_sources(schemes: &Option<String>, templates: &Option<String>, file: &Option<String>) -> (r:
    (String, String))
    ensures
        (r.0@, r.1@) == sources_spec(
            match file {
                Some(f) => lines_of(f@),
                None => seq![],
            },
            *schemes,
            *templates,
        ),
{
    let mut s_repo = match schemes {
        Some(s) => s.clone(),
        None => String::from_str(DEFAULT_SCHEMES_SOURCE),
    };
    let mut t_repo = match templates {
        Some(t) => t.clone(),
        None => String::from_str(DEFAULT_TEMPLATES_SOURCE),
    };
    let lines = match file {
        Some(f) => split_lines(f.as_str()),
        None => Vec::new(),
    };
    let ghost ls = views(lines@);
    assert(ls =~= match file {
        Some(f) => lines_of(f@),
        None => seq![],
    });
    let key_schemes = String::from_str("schemes");
    let key_templates = String::from_str("templates");
    for i in 0..lines.len()
        invariant
            ls == views(lines@),
            key_schemes@ == "schemes"@,
            key_templates@ == "templates"@,
            (s_repo@, t_repo@) == sources_spec(ls.take(i as int), *schemes, *templates),
    {
        assert(ls.take(i + 1).drop_last() =~= ls.take(i as int));
        let line = string_of(&lines[i], 0, lines[i].len());
        assert(lines@[i as int]@.subrange(0, lines@[i as int]@.len() as int) =~= ls.take(i + 1).last());
        let (name, repo) = parse_yml_line(line.as_str());
        if name == key_schemes && schemes.is_none() {
            s_repo = repo;
        } else if name == key_templates && templates.is_none() {
            t_repo = repo;
        }
    }
    assert(ls.take(ls.len() as int) =~= ls);
    (s_repo, t_repo)
}

/// The text of the sources file.
pub fn sources_text(s_repo: &str, t_repo: &str) -> (r: String)
    ensures
        r@ == "schemes: "@ + s_repo@ + "\ntemplates: "@ + t_repo@,
{
    let mut out = String::new();
    push_str(&mut out, "schemes: ");
    push_str(&mut out, s_repo);
    push_str(&mut out, "\ntemplates: ");
    push_str(&mut out, t_repo);
    out
}

/// The entries of a repository list, in order: each line's name and
/// repository, for lines whose name is neither empty nor a `#` comment.
pub open spec fn repo_list_spec(ls: Seq<Seq<char>>) -> Seq<(Seq<char>, Seq<char>)>
    decreases ls.len(),
{
    if ls.len() == 0 {
        seq![]
    } else {
        let line = yml_line(ls.last());
        if line.0.len() > 0 && line.0[0] != '#' {
            repo_list_spec(ls.drop_last()).push(line)
        } else {
            repo_list_spec(ls.drop_last())
        }
    }
}

/// Reads a repository list.
pub fn parse_repo_list(contents: &str) -> (r: Vec<(String, String)>)
    ensures
        r@.map_values(|p: (String, String)| (p.0@, p.1@)) == repo_list_spec(lines_of(contents@)),
{
    let lines = split_lines(contents);
    let ghost ls = views(lines@);
    let mut out: Vec<(String, String)> = Vec::new();
    for i in 0..lines.len()
        invariant
            ls == views(lines@),
            ls == lines_of(contents@),
            out@.map_values(|p: (String, String)| (p.0@, p.1@)) == repo_list_spec(ls.take(i as int)),
    {
        assert(ls.take(i + 1).drop_last() =~= ls.take(i as int));
        let line = string_of(&lines[i], 0, lines[i].len());
        assert(lines@[i as int]@.subrange(0, lines@[i as int]@.len() as int) =~= ls.take(i + 1).last());
        let (name, repo) = parse_yml_line(line.as_str());
        let name_chars = crate::text::chars_of(name.as_str());
        if name_chars.len() > 0 && name_chars[0] != '#' {
            let ghost before = out@;
            out.push((name, repo));
            assert(out@.map_values(|p: (String, String)| (p.0@, p.1@)) =~= before.map_values(
                |p: (String, String)| (p.0@, p.1@),
            ).push((name@, repo@)));
        }
    }
    assert(ls.take(ls.len() as int) =~= ls);
    out
}


/// The list line of a further repository.
pub open spec fn extra_line(e: ExtraSource) -> Seq<char> {
    e.name@ + ": "@ + e.source@
}

/// The list lines of further repositories, in order.
pub open spec fn extra_lines(extras: Seq<ExtraSource>) -> Seq<Seq<char>> {
    Seq::new(extras.len(), |i: int| extra_line(extras[i]))
}

/// A repository list with further repositories added: its lines and one
/// `name: source` line per addition, sorted, none dropped.
pub fn list_with_extras(contents: &str, extras: &Vec<ExtraSource>) -> (r: Vec<String>)
    ensures
        sorted(string_views(r@)),
        string_views(r@).to_multiset() == (lines_of(contents@) + extra_lines(
            extras@,
        )).to_multiset(),
{
    let lines = split_lines(contents);
    let mut all: Vec<String> = Vec::new();
    for i in 0..lines.len()
        invariant
            views(lines@) == lines_of(contents@),
            string_views(all@) == views(lines@).take(i as int),
    {
        let ghost before = string_views(all@);
        let l = string_of(&lines[i], 0, lines[i].len());
        assert(l@ =~= lines@[i as int]@);
        all.push(l);
        assert(string_views(all@) =~= before.push(lines@[i as int]@));
        assert(views(lines@).take(i + 1) =~= views(lines@).take(i as int).push(lines@[i as int]@));
    }
    assert(views(lines@).take(lines@.len() as int) =~= lines_of(contents@));
    let ghost base = string_views(all@);
    for j in 0..extras.len()
        invariant
            base == lines_of(contents@),
            string_views(all@) == base + extra_lines(extras@).take(j as int),
    {
        let e = &extras[j];
        let mut line = String::new();
        push_str(&mut line, e.name.as_str());
        push_str(&mut line, ": ");
        push_str(&mut line, e.source.as_str());
        let ghost before = string_views(all@);
        all.push(line);
        assert(string_views(all@) =~= before.push(extra_line(extras@[j as int])));
        assert(extra_lines(extras@).take(j + 1) =~= extra_lines(extras@).take(j as int).push(
            extra_line(extras@[j as int]),
        ));
        assert(string_views(all@) =~= base + extra_lines(extras@).take(j + 1));
    }
    assert(extra_lines(extras@).take(extras@.len() as int) =~= extra_lines(extras@));
    sort_names(all)
}

} // verus!
