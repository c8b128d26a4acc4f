//! One analysis run over plain values, and the decisions the caller's watch
//! loop and file collection make through this crate.

use crate::config::AllowedCycle;
use crate::cycles::{get_unique_cycles, spec_unique_cycles, CycleInfo};
use crate::output::spec_filter_allowed;
use crate::fileset::FileSet;
use crate::graph::{build_dependency_graph, spec_all_edges, spec_edge_pairs, is_scc_partition};
use crate::output::{compute_cycles_hash, filter_allowed_cycles, spec_cycles_hash};
use crate::pathstr::{find_last, split_on_char};
use crate::records::ImportRecord;
use crate::resolver::{view_opt_aliases, view_opt_workspace};
use crate::tsconfig::PathAliases;
use crate::workspace::Workspace;
use vstd::prelude::*;

verus! {

/// Whether a file name carries one of the analyzed source extensions.
pub open spec fn spec_has_source_extension(p: Seq<char>) -> bool {
    let name = p.skip(find_last(p, '/') + 1);
    let di = find_last(name, '.');
    di > 0 && {
        let ext = name.skip(di + 1);
        ext == "ts"@ || ext == "tsx"@ || ext == "js"@ || ext == "jsx"@ || ext == "cjs"@ || ext
            == "mjs"@
    }
}

/// Tests whether a path names an analyzable source file.
pub fn has_source_extension(p: &String) -> (r: bool)
    ensures
        r == spec_has_source_extension(p@),
{
    let plen = p.as_str().unicode_len();
    proof {
        crate::pathstr::lemma_find_last_range(p@, '/');
    }
    let name_start: usize = match crate::pathstr::find_last_char(p, '/') {
        None => 0,
        Some(i) => i + 1,
    };
    let name = crate::pathstr::substr_string(p, name_start, plen);
    proof {
        assert(name@ =~= p@.skip(find_last(p@, '/') + 1));
        crate::pathstr::lemma_find_last_range(name@, '.');
    }
    let nlen = name.as_str().unicode_len();
    match crate::pathstr::find_last_char(&name, '.') {
        None => false,
        Some(0) => false,
        Some(d) => {
            let ext = crate::pathstr::substr_string(&name, d + 1, nlen);
            proof {
                assert(ext@ =~= name@.skip(find_last(name@, '.') + 1));
            }
            crate::pathstr::str_eq(&ext, &String::from_str("ts")) || crate::pathstr::str_eq(
                &ext,
                &String::from_str("tsx"),
            ) || crate::pathstr::str_eq(&ext, &String::from_str("js")) || crate::pathstr::str_eq(
                &ext,
                &String::from_str("jsx"),
            ) || crate::pathstr::str_eq(&ext, &String::from_str("cjs")) || crate::pathstr::str_eq(
                &ext,
                &String::from_str("mjs"),
            )
        },
    }
}

/// Whether some component of the path names an excluded directory.
pub open spec fn spec_in_excluded(p: Seq<char>, excludes: Seq<Seq<char>>) -> bool {
    exists|i: int|
        0 <= i < split_on_char(p, '/').len() && excludes.contains(
            #[trigger] split_on_char(p, '/')[i],
        )
}

/// The watch-mode decision for one changed path: a change matters exactly
/// when the file has a source extension and no component of its path is an
/// excluded directory.
pub fn is_relevant_change(p: &String, excludes: &Vec<String>) -> (r: bool)
    ensures
        r == (spec_has_source_extension(p@) && !spec_in_excluded(p@, excludes.deep_view())),
{
    if !has_source_extension(p) {
        return false;
    }
    let comps = crate::pathstr::split_char(p, '/');
    let mut i: usize = 0;
    while i < comps.len()
        invariant
            i <= comps@.len(),
            comps.deep_view() == split_on_char(p@, '/'),
            comps.deep_view().len() == comps@.len(),
            forall|j: int|
                0 <= j < i ==> !excludes.deep_view().contains(#[trigger] comps.deep_view()[j]),
        decreases comps@.len() - i,
    {
        if crate::cycles::contains_string(excludes, &comps[i]) {
            proof {
                assert(excludes.deep_view().contains(comps.deep_view()[i as int]));
            }
            return false;
        }
        i = i + 1;
    }
    proof {
        if spec_in_excluded(p@, excludes.deep_view()) {
            let j = choose|j: int|
                0 <= j < split_on_char(p@, '/').len() && excludes.deep_view().contains(
                    #[trigger] split_on_char(p@, '/')[j],
                );
            assert(false);
        }
    }
    true
}

/// The total number of extracted import records, from file `i` on.
pub open spec fn total_records(imports: Seq<Vec<ImportRecord>>, i: int) -> int
    decreases imports.len() - i,
{
    if i < 0 || i >= imports.len() {
        0
    } else {
        imports[i]@.len() + total_records(imports, i + 1)
    }
}

/// Filtering keeps at most as many records.
proof fn lemma_kept_records_len(s: Seq<ImportRecord>, ignore: bool)
    ensures
        crate::records::spec_kept_records(s, ignore).len() <= s.len(),
    decreases s.len(),
{
    if s.len() > 0 {
        lemma_kept_records_len(s.drop_last(), ignore);
    }
}

/// One file contributes at most one edge per kept record.
proof fn lemma_edges_of_file_len(
    fs: &FileSet,
    nodes: Seq<String>,
    fidx: int,
    recs: Seq<ImportRecord>,
    k: int,
    aliases: Option<crate::tsconfig::PathAliasesView>,
    ws: Option<crate::workspace::WorkspaceView>,
)
    ensures
        crate::graph::spec_edges_of_file(fs, nodes, fidx, recs, k, aliases, ws).len() <= recs.len()
            - k || crate::graph::spec_edges_of_file(fs, nodes, fidx, recs, k, aliases, ws).len()
            == 0,
    decreases recs.len() - k,
{
    if 0 <= k < recs.len() && 0 <= fidx < nodes.len() {
        lemma_edges_of_file_len(fs, nodes, fidx, recs, k + 1, aliases, ws);
    }
}

/// The graph holds at most one edge per import record.
proof fn lemma_all_edges_len(
    fs: &FileSet,
    nodes: Seq<String>,
    imports: Seq<Vec<ImportRecord>>,
    fidx: int,
    ignore: bool,
    aliases: Option<crate::tsconfig::PathAliasesView>,
    ws: Option<crate::workspace::WorkspaceView>,
)
    requires
        fidx >= 0,
    ensures
        spec_all_edges(fs, nodes, imports, fidx, ignore, aliases, ws).len() <= total_records(
            imports,
            fidx,
        ),
    decreases imports.len() - fidx,
{
    if fidx < imports.len() {
        lemma_all_edges_len(fs, nodes, imports, fidx + 1, ignore, aliases, ws);
        let kept = crate::records::spec_kept_records(imports[fidx]@, ignore);
        lemma_kept_records_len(imports[fidx]@, ignore);
        lemma_edges_of_file_len(fs, nodes, fidx, kept, 0, aliases, ws);
    }
}

/// The result of one analysis run: the cycles left after allow-list
/// filtering, the aggregate hash computed before filtering, and how many
/// files were analyzed.
pub struct AnalysisResult {
    pub cycles: Vec<CycleInfo>,
    pub cycles_hash: String,
    pub total_files: usize,
}

/// Runs one analysis over plain values: builds the dependency graph from
/// the files and their extracted import records, finds and deduplicates the
/// cycles, computes the aggregate hash before filtering (so the accepted
/// baseline cannot change it), and removes cycles on the accepted baseline.
/// A file set with no resolved imports yields no cycles.
#[verifier::loop_isolation(false)]
pub fn run_analysis(
    root: &String,
    files: &Vec<String>,
    imports: &Vec<Vec<ImportRecord>>,
    ignore_type_imports: bool,
    aliases: &Option<PathAliases>,
    workspace: &Option<Workspace>,
    fs: &FileSet,
    allowed: &Vec<AllowedCycle>,
) -> (r: AnalysisResult)
    requires
        files@.len() == imports@.len(),
        files@.len() < 0xFFFF_FFF0,
        total_records(imports@, 0) < 0xFFFF_FFF0,
    ensures
        r.total_files == files@.len(),
        exists|parts: Seq<Seq<usize>>|
            #![trigger is_scc_partition(files@.len() as nat, spec_edge_pairs(spec_all_edges(fs, files@, imports@, 0, ignore_type_imports, view_opt_aliases(aliases), view_opt_workspace(workspace))), parts)]
            {
                let edges = spec_all_edges(
                    fs,
                    files@,
                    imports@,
                    0,
                    ignore_type_imports,
                    view_opt_aliases(aliases),
                    view_opt_workspace(workspace),
                );
                let unique = spec_unique_cycles(files@, edges, root@, parts);
                &&& is_scc_partition(files@.len() as nat, spec_edge_pairs(edges), parts)
                &&& r.cycles.deep_view() == spec_filter_allowed(
                    unique,
                    allowed.deep_view(),
                    root@,
                    0,
                )
                &&& r.cycles_hash@ == spec_cycles_hash(unique)
            },
        spec_all_edges(
            fs,
            files@,
            imports@,
            0,
            ignore_type_imports,
            view_opt_aliases(aliases),
            view_opt_workspace(workspace),
        ).len() == 0 ==> r.cycles.deep_view().len() == 0,
{
    let g = build_dependency_graph(files, imports, ignore_type_imports, aliases, workspace, fs);
    proof {
        lemma_all_edges_len(
            fs,
            files@,
            imports@,
            0,
            ignore_type_imports,
            view_opt_aliases(aliases),
            view_opt_workspace(workspace),
        );
    }
    let unique = get_unique_cycles(&g, root);
    let cycles_hash = compute_cycles_hash(&unique);
    let filtered = filter_allowed_cycles(unique, allowed, root);
    AnalysisResult { cycles: filtered, cycles_hash, total_files: files.len() }
}

} // verus!
