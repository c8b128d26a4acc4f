//! The shared candidate probe and the top-level import resolution order.
//!
//! A candidate path resolves to a file by trying, in order: the candidate
//! itself; the candidate with each supported extension appended; and, when
//! the candidate is a directory, an `index` file with each extension inside
//! it. Relative imports, alias resolution and workspace resolution all go
//! through this probe.

use crate::fileset::{first_existing, spec_first_existing, FileSet};
use crate::pathstr::{
    normalize_path, parent_dir, join_path, spec_join_path, spec_normalize_path, spec_parent_dir,
    str_concat,
};
use vstd::prelude::*;

verus! {

/// The supported source-file extensions, in probe priority order.
pub open spec fn spec_extensions() -> Seq<Seq<char>> {
    seq![".tsx"@, ".ts"@, ".jsx"@, ".js"@, ".cjs"@, ".mjs"@]
}

/// The supported source-file extensions, highest priority first.
pub fn extension_list() -> (r: Vec<String>)
    ensures
        r.deep_view() == spec_extensions(),
{
    let mut r: Vec<String> = Vec::new();
    r.push(String::from_str(".tsx"));
    r.push(String::from_str(".ts"));
    r.push(String::from_str(".jsx"));
    r.push(String::from_str(".js"));
    r.push(String::from_str(".cjs"));
    r.push(String::from_str(".mjs"));
    proof {
        assert(r.deep_view() =~= spec_extensions());
    }
    r
}

/// The candidates tried for a path: the path itself, then the path with
/// each extension appended.
pub open spec fn spec_file_candidates(cand: Seq<char>) -> Seq<Seq<char>> {
    seq![cand] + spec_extensions().map_values(|e: Seq<char>| cand + e)
}

/// The `index` files tried inside a directory candidate.
pub open spec fn spec_index_candidates(cand: Seq<char>) -> Seq<Seq<char>> {
    spec_extensions().map_values(|e: Seq<char>| cand + "/index"@ + e)
}

/// What the probe returns for a candidate path: the normalized candidate if
/// it is a file, else the first extension variant that is a file, else the
/// first `index` file if the candidate is a directory.
pub open spec fn spec_probe(fs: &FileSet, raw: Seq<char>) -> Option<Seq<char>> {
    let cand = spec_normalize_path(raw);
    match spec_first_existing(fs, spec_file_candidates(cand)) {
        Some(p) => Some(p),
        None => if fs.spec_is_dir(cand) {
            spec_first_existing(fs, spec_index_candidates(cand))
        } else {
            None
        },
    }
}

/// Probes a candidate path against the file set, trying the path itself,
/// extension variants, and directory `index` files, in that order.
pub fn probe(fs: &FileSet, raw: &String) -> (r: Option<String>)
    ensures
        match r {
            Some(p) => Some(p@) == spec_probe(fs, raw@),
            None => spec_probe(fs, raw@) == None::<Seq<char>>,
        },
{
    let cand = normalize_path(raw);
    let exts = extension_list();
    let mut cands: Vec<String> = Vec::new();
    cands.push(cand.clone());
    let mut i: usize = 0;
    while i < exts.len()
        invariant
            i <= exts.len(),
            exts.deep_view() == spec_extensions(),
            cand@ == spec_normalize_path(raw@),
            cands.deep_view() == seq![cand@] + spec_extensions().map_values(
                |e: Seq<char>| cand@ + e,
            ).take(i as int),
        decreases exts.len() - i,
    {
        let ghost old_cands = cands.deep_view();
        let ghost f = |e: Seq<char>| cand@ + e;
        cands.push(str_concat(&cand, &exts[i]));
        proof {
            let m = spec_extensions().map_values(f);
            assert(exts.deep_view()[i as int] == spec_extensions()[i as int]);
            assert(cands.deep_view() =~= old_cands.push(cand@ + spec_extensions()[i as int]));
            assert(m[i as int] == cand@ + spec_extensions()[i as int]);
            assert(m.take(i + 1) =~= m.take(i as int).push(m[i as int]));
            assert((seq![cand@] + m.take(i as int)).push(m[i as int]) =~= seq![cand@] + m.take(
                i + 1,
            ));
        }
        i = i + 1;
    }
    proof {
        assert(spec_extensions().map_values(|e: Seq<char>| cand@ + e).take(6)
            =~~= spec_extensions().map_values(|e: Seq<char>| cand@ + e));
        assert(cands.deep_view() =~~= spec_file_candidates(cand@));
    }
    match first_existing(fs, &cands) {
        Some(p) => Some(p),
        None => {
            if fs.is_dir(&cand) {
                let idx = String::from_str("/index");
                let base = str_concat(&cand, &idx);
                proof {
                    reveal_strlit("/index");
                }
                let mut icands: Vec<String> = Vec::new();
                let mut j: usize = 0;
                while j < exts.len()
                    invariant
                        j <= exts.len(),
                        exts.deep_view() == spec_extensions(),
                        base@ == cand@ + "/index"@,
                        icands.deep_view() == spec_extensions().map_values(
                            |e: Seq<char>| cand@ + "/index"@ + e,
                        ).take(j as int),
                    decreases exts.len() - j,
                {
                    let ghost old_icands = icands.deep_view();
                    let ghost g = |e: Seq<char>| cand@ + "/index"@ + e;
                    icands.push(str_concat(&base, &exts[j]));
                    proof {
                        let m = spec_extensions().map_values(g);
                        assert(exts.deep_view()[j as int] == spec_extensions()[j as int]);
                        assert(base@ + spec_extensions()[j as int] =~= cand@ + "/index"@
                            + spec_extensions()[j as int]);
                        assert(icands.deep_view() =~= old_icands.push(cand@ + "/index"@
                            + spec_extensions()[j as int]));
                        assert(m[j as int] == cand@ + "/index"@ + spec_extensions()[j as int]);
                        assert(m.take(j + 1) =~= m.take(j as int).push(m[j as int]));
                    }
                    j = j + 1;
                }
                proof {
                    assert(icands.deep_view() =~~= spec_index_candidates(cand@));
                }
                first_existing(fs, &icands)
            } else {
                None
            }
        },
    }
}

/// Resolution order for one specifier: a specifier starting with `.` is
/// resolved relative to the importing file's directory, and only so; any
/// other specifier goes through the alias table when one is configured,
/// then through the workspace when one is configured. An unresolved
/// specifier is not an error: it yields no edge.
#[verifier::opaque]
pub open spec fn spec_resolve_import(
    fs: &FileSet,
    base_file: Seq<char>,
    specifier: Seq<char>,
    aliases: Option<crate::tsconfig::PathAliasesView>,
    workspace: Option<crate::workspace::WorkspaceView>,
) -> Option<Seq<char>> {
    if specifier.len() > 0 && specifier[0] == '.' {
        spec_probe(fs, spec_join_path(spec_parent_dir(base_file), specifier))
    } else {
        let via_alias = match aliases {
            Some(a) => crate::tsconfig::spec_alias_resolve(fs, a, specifier),
            None => None,
        };
        match via_alias {
            Some(p) => Some(p),
            None => match workspace {
                Some(w) => crate::workspace::spec_workspace_resolve(fs, w, specifier),
                None => None,
            },
        }
    }
}

/// Resolves an import specifier found in `base_file`: relative resolution,
/// then alias resolution, then workspace resolution; the first success
/// wins.
pub fn resolve_import(
    fs: &FileSet,
    base_file: &String,
    specifier: &String,
    aliases: &Option<crate::tsconfig::PathAliases>,
    workspace: &Option<crate::workspace::Workspace>,
) -> (r: Option<String>)
    ensures
        match r {
            Some(p) => Some(p@) == spec_resolve_import(
                fs,
                base_file@,
                specifier@,
                view_opt_aliases(aliases),
                view_opt_workspace(workspace),
            ),
            None => spec_resolve_import(
                fs,
                base_file@,
                specifier@,
                view_opt_aliases(aliases),
                view_opt_workspace(workspace),
            ) == None::<Seq<char>>,
        },
{
    proof {
        reveal(spec_resolve_import);
    }
    let slen = specifier.as_str().unicode_len();
    if slen > 0 && specifier.as_str().get_char(0) == '.' {
        let dir = parent_dir(base_file);
        let cand = join_path(&dir, specifier);
        return probe(fs, &cand);
    }
    if let Some(a) = aliases {
        if let Some(p) = a.resolve(specifier, fs) {
            return Some(p);
        }
    }
    if let Some(w) = workspace {
        return w.resolve(specifier, fs);
    }
    None
}

/// The ghost shape of an optional alias table.
pub open spec fn view_opt_aliases(a: &Option<crate::tsconfig::PathAliases>) -> Option<
    crate::tsconfig::PathAliasesView,
> {
    match a {
        Some(ref x) => Some(x@),
        None => None,
    }
}

/// The ghost shape of an optional workspace.
pub open spec fn view_opt_workspace(w: &Option<crate::workspace::Workspace>) -> Option<
    crate::workspace::WorkspaceView,
> {
    match w {
        Some(ref x) => Some(x@),
        None => None,
    }
}

} // verus!
