//! Where the code and its specification lie.
use vstd::prelude::*;
use crate::chars;
use crate::chars::trim;
use crate::text;
use crate::text::{cat, cat3, ends_with, replace, same, split, starts_with};

verus! {

// ---------------------------------------------------------------------------
// Paths
// ---------------------------------------------------------------------------
/// A path below another one. An absolute path stands for itself.
pub open spec fn joined_path(dir: Seq<char>, name: Seq<char>) -> Seq<char> {
    if text::starts(name, "/"@) || dir.len() == 0 {
        name
    } else if text::ends(dir, "/"@) {
        dir + name
    } else {
        dir + "/"@ + name
    }
}

/// A path below another one.
pub fn join_path(dir: &str, name: &str) -> (r: String)
    ensures
        r@ == joined_path(dir@, name@),
{
    proof {
        reveal_strlit("");
        assert(dir@.len() == 0 ==> dir@ =~= ""@);
    }
    if starts_with(name, "/") || same(dir, "") {
        name.to_owned()
    } else if ends_with(dir, "/") {
        cat(dir, name)
    } else {
        cat3(dir, "/", name)
    }
}

/// The first `n` texts without space around them, as far as they are not empty then.
pub open spec fn trimmed_texts(parts: Seq<Seq<char>>, n: int) -> Seq<Seq<char>>
    decreases n,
{
    if n <= 0 || n > parts.len() {
        seq![]
    } else {
        let t = chars::trimmed(parts[n - 1]);
        if t.len() > 0 {
            trimmed_texts(parts, n - 1).push(t)
        } else {
            trimmed_texts(parts, n - 1)
        }
    }
}

/// The paths in a list with commas or colons between them.
pub open spec fn listed(list: Seq<char>) -> Seq<Seq<char>> {
    let parts = text::parts(text::replaced(list, ":"@, ","@), ","@);
    trimmed_texts(parts, parts.len() as int)
}

/// The paths in a list with commas or colons between them.
#[verifier::loop_isolation(false)]
pub fn split_list(list: &str) -> (r: Vec<String>)
    ensures
        text::views(r@) == listed(list@),
{
    proof {
        reveal_strlit(":");
        reveal_strlit(",");
        reveal_strlit("");
    }
    let one = replace(list, ":", ",");
    let parts = split(one.as_str(), ",");
    let ghost pv = text::views(parts@);
    let mut out: Vec<String> = Vec::new();
    let mut i: usize = 0;
    proof {
        assert(text::views(out@) =~= seq![]);
        assert(pv.len() == parts@.len());
    }
    while i < parts.len()
        invariant
            i <= parts@.len(),
            text::views(out@) == trimmed_texts(pv, i as int),
        decreases parts@.len() - i,
    {
        let ghost had = out@;
        proof {
            assert(pv[i as int] == parts@[i as int]@);
        }
        let t = trim(parts[i].as_str());
        proof {
            assert(t@.len() == 0 ==> t@ =~= ""@);
        }
        if !same(t.as_str(), "") {
            out.push(t);
            proof {
                assert(text::views(out@) =~= text::views(had).push(t@));
            }
        }
        i += 1;
    }
    out
}

/// The paths of the specification: those that are given, or else those in the list, where there is one.
pub fn resolve_spec_paths(spec_paths: Vec<String>, list: Option<&str>) -> (r: Vec<String>)
    ensures
        text::views(r@) == if spec_paths@.len() > 0 {
            text::views(spec_paths@)
        } else {
            match list {
                Some(s) => listed(s@),
                None => seq![],
            }
        },
{
    if spec_paths.len() > 0 {
        return spec_paths;
    }
    match list {
        Some(s) => split_list(s),
        None => {
            let none: Vec<String> = Vec::new();
            proof {
                assert(text::views(none@) =~= seq![]);
            }
            none
        },
    }
}

/// The path of the code: the one that is given, or else that of the environment, or else the current
/// directory, where it is known.
pub fn resolve_crate_path(given: Option<String>, named: Option<String>, current: Option<String>) -> (r:
    String)
    ensures
        r@ == match (given, named, current) {
            (Some(p), _, _) => p@,
            (None, Some(p), _) => p@,
            (None, None, Some(p)) => p@,
            (None, None, None) => "."@,
        },
{
    match given {
        Some(p) => p,
        None => match named {
            Some(p) => p,
            None => match current {
                Some(p) => p,
                None => ".".to_owned(),
            },
        },
    }
}

// ---------------------------------------------------------------------------
// The files of a specification
// ---------------------------------------------------------------------------
/// Which files of a specification a directory has.
#[derive(Clone, Copy, Debug, PartialEq, Eq, Structural)]
pub struct SpecFiles {
    pub protocol: bool,
    pub architecture: bool,
    /// The one that holds both.
    pub umbrella: bool,
}

/// The files of the specification in a directory: the two parts where both are there, or else the one
/// that holds both.
pub open spec fn files_in(dir: Seq<char>, f: SpecFiles) -> Option<Seq<Seq<char>>> {
    if f.protocol && f.architecture {
        Some(seq![joined_path(dir, "PROTOCOL.md"@), joined_path(dir, "ARCHITECTURE.md"@)])
    } else if f.umbrella {
        Some(seq![joined_path(dir, "THE_ORANGE_PAPER.md"@)])
    } else {
        None
    }
}

/// Paths that may be missing, as mathematical values.
pub open spec fn paths_view(p: Option<Vec<String>>) -> Option<Seq<Seq<char>>> {
    match p {
        Some(v) => Some(text::views(v@)),
        None => None,
    }
}

/// The files of the specification in a directory.
pub fn spec_files_in(dir: &str, f: SpecFiles) -> (r: Option<Vec<String>>)
    ensures
        paths_view(r) == files_in(dir@, f),
{
    let mut out: Vec<String> = Vec::new();
    if f.protocol && f.architecture {
        out.push(join_path(dir, "PROTOCOL.md"));
        out.push(join_path(dir, "ARCHITECTURE.md"));
    } else if f.umbrella {
        out.push(join_path(dir, "THE_ORANGE_PAPER.md"));
    } else {
        return None;
    }
    proof {
        assert(text::views(out@) =~= files_in(dir@, f)->0);
    }
    Some(out)
}

/// The files of the specification for code in a directory: in its own copy, or else in the directory
/// beside it.
pub open spec fn orange_paper_paths(dir: Seq<char>, own: SpecFiles, beside: SpecFiles) -> Option<
    Seq<Seq<char>>,
> {
    match files_in(joined_path(dir, "blvm-spec"@), own) {
        Some(v) => Some(v),
        None => files_in(joined_path(dir, "../blvm-spec"@), beside),
    }
}

/// The files of the specification for code in a directory, by which files its own copy and the
/// directory beside it have.
pub fn resolve_orange_paper_paths(manifest_dir: &str, own: SpecFiles, beside: SpecFiles) -> (r: Option<
    Vec<String>,
>)
    ensures
        paths_view(r) == orange_paper_paths(manifest_dir@, own, beside),
{
    let inner = join_path(manifest_dir, "blvm-spec");
    match spec_files_in(inner.as_str(), own) {
        Some(v) => Some(v),
        None => {
            let outer = join_path(manifest_dir, "../blvm-spec");
            spec_files_in(outer.as_str(), beside)
        },
    }
}

/// The files that drift is looked for in where none are given: the two parts where one of them is
/// there, or else the one that holds both, whether it is there or not.
pub open spec fn usual_paths(dir: Seq<char>, f: SpecFiles) -> Seq<Seq<char>> {
    if f.protocol || f.architecture {
        seq![
            joined_path(dir, "../blvm-spec/PROTOCOL.md"@),
            joined_path(dir, "../blvm-spec/ARCHITECTURE.md"@),
        ]
    } else {
        seq![joined_path(dir, "../blvm-spec/THE_ORANGE_PAPER.md"@)]
    }
}

/// What is said where the file that holds both parts is taken.
pub open spec fn usual_warning(f: SpecFiles) -> Option<Seq<char>> {
    if f.protocol || f.architecture {
        None
    } else if f.umbrella {
        Some(
            "warning: using THE_ORANGE_PAPER.md fallback; prefer split PROTOCOL.md + ARCHITECTURE.md to match CI."@,
        )
    } else {
        Some(
            "warning: no spec files found at default paths (PROTOCOL.md, ARCHITECTURE.md, THE_ORANGE_PAPER.md). Pass --spec-path explicitly."@,
        )
    }
}

/// The files that drift is looked for in where none are given, and what is said of them.
pub fn default_spec_paths(workspace_root: &str, f: SpecFiles) -> (r: (
    Vec<String>,
    Option<&'static str>,
))
    ensures
        text::views(r.0@) == usual_paths(workspace_root@, f),
        match r.1 {
            Some(s) => usual_warning(f) == Some(s@),
            None => usual_warning(f) is None,
        },
{
    let mut out: Vec<String> = Vec::new();
    if f.protocol || f.architecture {
        out.push(join_path(workspace_root, "../blvm-spec/PROTOCOL.md"));
        out.push(join_path(workspace_root, "../blvm-spec/ARCHITECTURE.md"));
        proof {
            assert(text::views(out@) =~= usual_paths(workspace_root@, f));
        }
        return (out, None);
    }
    out.push(join_path(workspace_root, "../blvm-spec/THE_ORANGE_PAPER.md"));
    proof {
        assert(text::views(out@) =~= usual_paths(workspace_root@, f));
    }
    if f.umbrella {
        (
            out,
            Some(
                "warning: using THE_ORANGE_PAPER.md fallback; prefer split PROTOCOL.md + ARCHITECTURE.md to match CI.",
            ),
        )
    } else {
        (
            out,
            Some(
                "warning: no spec files found at default paths (PROTOCOL.md, ARCHITECTURE.md, THE_ORANGE_PAPER.md). Pass --spec-path explicitly.",
            ),
        )
    }
}

// ---------------------------------------------------------------------------
// Laws
// ---------------------------------------------------------------------------
/// No path in a list is empty.
pub proof fn law_listed_paths_are_not_empty(parts: Seq<Seq<char>>, n: int, i: int)
    requires
        0 <= n <= parts.len(),
        0 <= i < trimmed_texts(parts, n).len(),
    ensures
        trimmed_texts(parts, n)[i].len() > 0,
    decreases n,
{
    if n > 0 {
        if i < trimmed_texts(parts, n - 1).len() {
            law_listed_paths_are_not_empty(parts, n - 1, i);
        }
    }
}

} // verus!
