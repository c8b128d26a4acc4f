//! The file-dependency graph and its strongly connected components.
//!
//! Nodes are the analyzed files, one per file, in input order; edges carry
//! the import record that caused them, and several imports between the same
//! pair of files yield several edges. Strongly connected components are
//! computed by an outside crate whose result is trusted to be the SCC
//! partition; everything before and after that call is verified.

use crate::fileset::FileSet;
use crate::records::{spec_kept_records, filter_type_only, ImportRecord};
use crate::resolver::{
    resolve_import, spec_resolve_import, view_opt_aliases, view_opt_workspace,
};
use crate::tsconfig::PathAliases;
use crate::workspace::Workspace;
use vstd::prelude::*;

verus! {

/// One directed edge: importing file, imported file, and the record that
/// caused the edge, all by node index.
pub struct GraphEdge {
    pub from: usize,
    pub to: usize,
    pub record: ImportRecord,
}

impl Clone for GraphEdge {
    fn clone(&self) -> (r: Self)
        ensures
            r == *self,
    {
        GraphEdge { from: self.from, to: self.to, record: self.record.clone() }
    }
}

/// The dependency graph: one node per analyzed file, in input order, and
/// the resolved import edges in the order they were added.
pub struct DepGraph {
    pub nodes: Vec<String>,
    pub edges: Vec<GraphEdge>,
}

impl DepGraph {
    /// Every edge endpoint names a node.
    pub open spec fn wf(&self) -> bool {
        forall|k: int|
            0 <= k < self.edges@.len() ==> (#[trigger] self.edges@[k]).from < self.nodes@.len()
                && self.edges@[k].to < self.nodes@.len()
    }
}

/// The first node whose path is `p`.
pub open spec fn spec_find_node(nodes: Seq<String>, p: Seq<char>, i: int) -> Option<int>
    decreases nodes.len() - i,
{
    if i < 0 || i >= nodes.len() {
        None
    } else if nodes[i]@ == p {
        Some(i)
    } else {
        spec_find_node(nodes, p, i + 1)
    }
}

/// The edges contributed by the records of one file, from record `k` on:
/// each record whose specifier resolves to an analyzed file yields one
/// edge.
pub open spec fn spec_edges_of_file(
    fs: &FileSet,
    nodes: Seq<String>,
    fidx: int,
    recs: Seq<ImportRecord>,
    k: int,
    aliases: Option<crate::tsconfig::PathAliasesView>,
    ws: Option<crate::workspace::WorkspaceView>,
) -> Seq<GraphEdge>
    decreases recs.len() - k,
{
    if k < 0 || k >= recs.len() || fidx < 0 || fidx >= nodes.len() {
        Seq::<GraphEdge>::empty()
    } else {
        let rest = spec_edges_of_file(fs, nodes, fidx, recs, k + 1, aliases, ws);
        match spec_resolve_import(fs, nodes[fidx]@, recs[k].source@, aliases, ws) {
            None => rest,
            Some(t) => match spec_find_node(nodes, t, 0) {
                None => rest,
                Some(j) => seq![
                    GraphEdge { from: fidx as usize, to: j as usize, record: recs[k] },
                ] + rest,
            },
        }
    }
}

/// The edges of the whole graph: the files in input order, each file's kept
/// records in their order.
pub open spec fn spec_all_edges(
    fs: &FileSet,
    nodes: Seq<String>,
    imports: Seq<Vec<ImportRecord>>,
    fidx: int,
    ignore_type_imports: bool,
    aliases: Option<crate::tsconfig::PathAliasesView>,
    ws: Option<crate::workspace::WorkspaceView>,
) -> Seq<GraphEdge>
    decreases imports.len() - fidx,
{
    if fidx < 0 || fidx >= imports.len() {
        Seq::<GraphEdge>::empty()
    } else {
        spec_edges_of_file(
            fs,
            nodes,
            fidx,
            spec_kept_records(imports[fidx]@, ignore_type_imports),
            0,
            aliases,
            ws,
        ) + spec_all_edges(fs, nodes, imports, fidx + 1, ignore_type_imports, aliases, ws)
    }
}

/// Finds the node holding path `p`.
fn find_node(nodes: &Vec<String>, p: &String) -> (r: Option<usize>)
    ensures
        match r {
            Some(j) => Some(j as int) == spec_find_node(nodes@, p@, 0) && j < nodes@.len(),
            None => spec_find_node(nodes@, p@, 0) == None::<int>,
        },
{
    let mut i: usize = 0;
    while i < nodes.len()
        invariant
            i <= nodes.len(),
            spec_find_node(nodes@, p@, 0) == spec_find_node(nodes@, p@, i as int),
        decreases nodes.len() - i,
    {
        if crate::pathstr::str_eq(&nodes[i], p) {
            return Some(i);
        }
        i = i + 1;
    }
    None
}

/// Builds the dependency graph: one node per input file, in input order;
/// then, file by file and record by record, each specifier that resolves to
/// an analyzed file adds one edge carrying its record. Unresolved
/// specifiers add nothing.
#[verifier::rlimit(100)]
#[verifier::loop_isolation(false)]
pub fn build_dependency_graph(
    files: &Vec<String>,
    imports: &Vec<Vec<ImportRecord>>,
    ignore_type_imports: bool,
    aliases: &Option<PathAliases>,
    workspace: &Option<Workspace>,
    fs: &FileSet,
) -> (g: DepGraph)
    requires
        files@.len() == imports@.len(),
    ensures
        g.nodes@ == files@,
        g.wf(),
        g.edges@ == spec_all_edges(
            fs,
            files@,
            imports@,
            0,
            ignore_type_imports,
            view_opt_aliases(aliases),
            view_opt_workspace(workspace),
        ),
{
    let ghost av = view_opt_aliases(aliases);
    let ghost wv = view_opt_workspace(workspace);
    let nodes: Vec<String> = files.clone();
    proof {
        assert forall|i: int| 0 <= i < files@.len() implies nodes@[i]@ == files@[i]@ by {
            assert(cloned::<String>(files@[i], nodes@[i]));
        }
        assert(nodes.deep_view() =~= files.deep_view());
    }
    let mut edges: Vec<GraphEdge> = Vec::new();
    let mut fidx: usize = 0;
    proof {
        assert(edges@ + spec_all_edges(fs, files@, imports@, 0, ignore_type_imports, av, wv)
            =~= spec_all_edges(fs, files@, imports@, 0, ignore_type_imports, av, wv));
    }
    while fidx < files.len()
        invariant
            fidx <= files.len(),
            files@.len() == imports@.len(),
            nodes@ == files@,
            forall|k: int|
                0 <= k < edges@.len() ==> (#[trigger] edges@[k]).from < files@.len()
                    && edges@[k].to < files@.len(),
            edges@ + spec_all_edges(fs, files@, imports@, fidx as int, ignore_type_imports, av, wv)
                == spec_all_edges(fs, files@, imports@, 0, ignore_type_imports, av, wv),
        decreases files.len() - fidx,
    {
        let kept = filter_type_only(&imports[fidx], ignore_type_imports);
        let mut k: usize = 0;
        while k < kept.len()
            invariant
                k <= kept.len(),
                fidx < files.len(),
                files@.len() == imports@.len(),
                nodes@ == files@,
                kept@ == spec_kept_records(imports@[fidx as int]@, ignore_type_imports),
                forall|k2: int|
                    0 <= k2 < edges@.len() ==> (#[trigger] edges@[k2]).from < files@.len()
                        && edges@[k2].to < files@.len(),
                edges@ + spec_edges_of_file(fs, files@, fidx as int, kept@, k as int, av, wv)
                    + spec_all_edges(
                    fs,
                    files@,
                    imports@,
                    fidx as int + 1,
                    ignore_type_imports,
                    av,
                    wv,
                ) == spec_all_edges(fs, files@, imports@, 0, ignore_type_imports, av, wv),
            decreases kept.len() - k,
        {
            let ghost old_edges = edges@;
            match resolve_import(fs, &files[fidx], &kept[k].source, aliases, workspace) {
                None => {
                    proof {
                        assert(spec_edges_of_file(fs, files@, fidx as int, kept@, k as int, av, wv)
                            == spec_edges_of_file(fs, files@, fidx as int, kept@, k + 1, av, wv));
                    }
                },
                Some(t) => {
                    match find_node(&nodes, &t) {
                        None => {
                            proof {
                                assert(spec_edges_of_file(
                                    fs,
                                    files@,
                                    fidx as int,
                                    kept@,
                                    k as int,
                                    av,
                                    wv,
                                ) == spec_edges_of_file(
                                    fs,
                                    files@,
                                    fidx as int,
                                    kept@,
                                    k + 1,
                                    av,
                                    wv,
                                ));
                            }
                        },
                        Some(j) => {
                            edges.push(GraphEdge { from: fidx, to: j, record: kept[k].clone() });
                            proof {
                                let e = GraphEdge { from: fidx, to: j, record: kept@[k as int] };
                                assert(edges@ =~= old_edges.push(e));
                                assert(spec_edges_of_file(
                                    fs,
                                    files@,
                                    fidx as int,
                                    kept@,
                                    k as int,
                                    av,
                                    wv,
                                ) == seq![e] + spec_edges_of_file(
                                    fs,
                                    files@,
                                    fidx as int,
                                    kept@,
                                    k + 1,
                                    av,
                                    wv,
                                ));
                                assert(old_edges + (seq![e] + spec_edges_of_file(
                                    fs,
                                    files@,
                                    fidx as int,
                                    kept@,
                                    k + 1,
                                    av,
                                    wv,
                                )) =~= edges@ + spec_edges_of_file(
                                    fs,
                                    files@,
                                    fidx as int,
                                    kept@,
                                    k + 1,
                                    av,
                                    wv,
                                ));
                            }
                        },
                    }
                },
            }
            k = k + 1;
        }
        proof {
            assert(spec_edges_of_file(fs, files@, fidx as int, kept@, kept@.len() as int, av, wv)
                =~= Seq::<GraphEdge>::empty());
            assert(edges@ + Seq::<GraphEdge>::empty() =~= edges@);
        }
        fidx = fidx + 1;
    }
    proof {
        assert(spec_all_edges(fs, files@, imports@, files@.len() as int, ignore_type_imports, av, wv)
            =~= Seq::<GraphEdge>::empty());
        assert(edges@ + Seq::<GraphEdge>::empty() =~= edges@);
    }
    DepGraph { nodes, edges }
}

/// A path through the directed edges: at least one node, each consecutive
/// pair connected by an edge.
pub open spec fn is_path(pairs: Seq<(usize, usize)>, p: Seq<usize>) -> bool {
    p.len() >= 1 && forall|k: int| 0 <= k < p.len() - 1 ==> pairs.contains((#[trigger] p[k], p[k + 1]))
}

/// `b` is reachable from `a`, in zero or more steps.
#[verifier::opaque]
pub open spec fn reaches(pairs: Seq<(usize, usize)>, a: usize, b: usize) -> bool {
    exists|p: Seq<usize>| is_path(pairs, p) && p.first() == a && p.last() == b
}

/// `a` and `b` lie on a common directed cycle (or are equal).
pub open spec fn in_same_scc(pairs: Seq<(usize, usize)>, a: usize, b: usize) -> bool {
    reaches(pairs, a, b) && reaches(pairs, b, a)
}

/// `parts` is the partition of the nodes `0 .. n` into strongly connected
/// components: every part is nonempty; every node occurs exactly once;
/// nodes sharing a part are mutually reachable; and a part holds every node
/// mutually reachable with its members.
/// Node `x` occurs somewhere in the partition.
pub open spec fn appears_in(parts: Seq<Seq<usize>>, x: usize) -> bool {
    exists|i: int, j: int| 0 <= i < parts.len() && 0 <= j < parts[i].len() && #[trigger] parts[i][j] == x
}

pub open spec fn is_scc_partition(n: nat, pairs: Seq<(usize, usize)>, parts: Seq<Seq<usize>>) -> bool {
    &&& forall|i: int| 0 <= i < parts.len() ==> (#[trigger] parts[i]).len() >= 1
    &&& forall|i: int, j: int|
        0 <= i < parts.len() && 0 <= j < parts[i].len() ==> (#[trigger] parts[i][j]) < n
    &&& forall|x: usize| x < n ==> #[trigger] appears_in(parts, x)
    &&& forall|i1: int, j1: int, i2: int, j2: int|
        0 <= i1 < parts.len() && 0 <= j1 < parts[i1].len() && 0 <= i2 < parts.len() && 0 <= j2
            < parts[i2].len() && #[trigger] parts[i1][j1] == #[trigger] parts[i2][j2] ==> i1 == i2
            && j1 == j2
    &&& forall|i: int, j1: int, j2: int|
        0 <= i < parts.len() && 0 <= j1 < parts[i].len() && 0 <= j2 < parts[i].len()
            ==> in_same_scc(pairs, #[trigger] parts[i][j1], #[trigger] parts[i][j2])
    &&& forall|i: int, j: int, x: usize|
        0 <= i < parts.len() && 0 <= j < parts[i].len() && x < n && #[trigger] in_same_scc(
            pairs,
            parts[i][j],
            x,
        ) ==> parts[i].contains(x)
}

/// The edge endpoints, in edge order.
pub open spec fn spec_edge_pairs(edges: Seq<GraphEdge>) -> Seq<(usize, usize)> {
    edges.map_values(|e: GraphEdge| (e.from, e.to))
}

/// Relies on `petgraph::algo::kosaraju_scc`: the returned groups are the
/// strongly connected components of the directed graph with nodes
/// `0 .. n_nodes` and the given edges, each node in exactly one group.
#[verifier::external_body]
pub(crate) fn kosaraju_scc_indices(n_nodes: usize, edges: &Vec<(usize, usize)>) -> (r: Vec<Vec<usize>>)
    requires
        forall|i: int|
            0 <= i < edges@.len() ==> (#[trigger] edges@[i]).0 < n_nodes && edges@[i].1 < n_nodes,
        n_nodes < 0xFFFF_FFF0usize,
        edges@.len() < 0xFFFF_FFF0,
    ensures
        is_scc_partition(n_nodes as nat, edges@, r.deep_view()),
{
    let mut g = petgraph::graph::DiGraph::<(), ()>::new();
    let mut idx = Vec::with_capacity(n_nodes);
    for _ in 0..n_nodes {
        idx.push(g.add_node(()));
    }
    for e in edges.iter() {
        g.add_edge(idx[e.0], idx[e.1], ());
    }
    petgraph::algo::kosaraju_scc(&g)
        .into_iter()
        .map(|comp| comp.into_iter().map(|x| x.index()).collect())
        .collect()
}

/// Whether node `x` has an edge to itself.
pub open spec fn spec_has_self_edge(edges: Seq<GraphEdge>, x: usize) -> bool {
    exists|k: int| 0 <= k < edges.len() && (#[trigger] edges[k]).from == x && edges[k].to == x
}

/// Tests whether node `x` has an edge to itself.
pub(crate) fn has_self_edge(edges: &Vec<GraphEdge>, x: usize) -> (r: bool)
    ensures
        r == spec_has_self_edge(edges@, x),
{
    let mut k: usize = 0;
    while k < edges.len()
        invariant
            k <= edges.len(),
            forall|k2: int|
                0 <= k2 < k ==> !((#[trigger] edges@[k2]).from == x && edges@[k2].to == x),
        decreases edges.len() - k,
    {
        if edges[k].from == x && edges[k].to == x {
            return true;
        }
        k = k + 1;
    }
    proof {
        if spec_has_self_edge(edges@, x) {
            let k2 = choose|k2: int|
                0 <= k2 < edges@.len() && (#[trigger] edges@[k2]).from == x && edges@[k2].to == x;
            assert(false);
        }
    }
    false
}

/// The cyclic components among the partition's parts, as lists of node
/// paths: a part of two or more nodes is a cycle; a singleton is a cycle
/// exactly when its node has a self-edge.
pub open spec fn spec_cyclic_components(
    nodes: Seq<String>,
    edges: Seq<GraphEdge>,
    parts: Seq<Seq<usize>>,
    i: int,
) -> Seq<Seq<Seq<char>>>
    decreases parts.len() - i,
{
    if i < 0 || i >= parts.len() {
        Seq::<Seq<Seq<char>>>::empty()
    } else {
        let rest = spec_cyclic_components(nodes, edges, parts, i + 1);
        let comp = parts[i];
        if comp.len() > 1 {
            seq![comp.map_values(|x: usize| nodes[x as int]@)] + rest
        } else if comp.len() == 1 && spec_has_self_edge(edges, comp[0]) {
            seq![seq![nodes[comp[0] as int]@]] + rest
        } else {
            rest
        }
    }
}

impl DepGraph {
    /// Finds all cyclic strongly connected components: each part with two
    /// or more nodes, and each single node with a self-edge, listed as node
    /// paths. There is some SCC partition of this graph for which the
    /// result is exactly its cyclic components, in partition order.
    #[verifier::rlimit(100)]
    #[verifier::loop_isolation(false)]
    pub fn find_all_cycles(&self) -> (r: Vec<Vec<String>>)
        requires
            self.wf(),
            self.nodes@.len() < 0xFFFF_FFF0,
            self.edges@.len() < 0xFFFF_FFF0,
        ensures
            exists|parts: Seq<Seq<usize>>|
                is_scc_partition(self.nodes@.len() as nat, spec_edge_pairs(self.edges@), parts)
                    && r.deep_view() == spec_cyclic_components(self.nodes@, self.edges@, parts, 0),
    {
        let mut pairs: Vec<(usize, usize)> = Vec::new();
        let mut k: usize = 0;
        proof {
            assert(pairs@ =~= spec_edge_pairs(self.edges@.take(0)));
        }
        while k < self.edges.len()
            invariant
                k <= self.edges@.len(),
                pairs@ == spec_edge_pairs(self.edges@.take(k as int)),
                forall|i: int|
                    0 <= i < pairs@.len() ==> (#[trigger] pairs@[i]).0 < self.nodes@.len()
                        && pairs@[i].1 < self.nodes@.len(),
            decreases self.edges@.len() - k,
        {
            pairs.push((self.edges[k].from, self.edges[k].to));
            proof {
                assert(self.edges@.take(k + 1).drop_last() =~= self.edges@.take(k as int));
                assert(pairs@ =~= spec_edge_pairs(self.edges@.take(k + 1)));
            }
            k = k + 1;
        }
        proof {
            assert(self.edges@.take(self.edges@.len() as int) =~= self.edges@);
        }
        let sccs = kosaraju_scc_indices(self.nodes.len(), &pairs);
        let ghost parts = sccs.deep_view();
        let mut r: Vec<Vec<String>> = Vec::new();
        let mut i: usize = 0;
        proof {
            assert(spec_cyclic_components(self.nodes@, self.edges@, parts, 0)
                == Seq::<Seq<Seq<char>>>::empty() + spec_cyclic_components(
                self.nodes@,
                self.edges@,
                parts,
                0,
            ));
            assert(r.deep_view() =~= Seq::<Seq<Seq<char>>>::empty());
        }
        while i < sccs.len()
            invariant
                i <= sccs.len(),
                parts == sccs.deep_view(),
                parts.len() == sccs.len(),
                is_scc_partition(self.nodes@.len() as nat, spec_edge_pairs(self.edges@), parts),
                r.deep_view() + spec_cyclic_components(self.nodes@, self.edges@, parts, i as int)
                    == spec_cyclic_components(self.nodes@, self.edges@, parts, 0),
            decreases sccs.len() - i,
        {
            proof {
                assert(parts[i as int] == sccs@[i as int].deep_view());
                assert(forall|j: int|
                    0 <= j < sccs@[i as int]@.len() ==> parts[i as int][j] == sccs@[i as int]@[j]);
            }
            let comp = &sccs[i];
            let ghost old_r = r.deep_view();
            if comp.len() > 1 {
                let mut names: Vec<String> = Vec::new();
                let mut j: usize = 0;
                while j < comp.len()
                    invariant
                        j <= comp@.len(),
                        i < sccs.len(),
                        parts == sccs.deep_view(),
                        comp == &sccs@[i as int],
                        is_scc_partition(
                            self.nodes@.len() as nat,
                            spec_edge_pairs(self.edges@),
                            parts,
                        ),
                        names.deep_view() == parts[i as int].map_values(
                            |x: usize| self.nodes@[x as int]@,
                        ).take(j as int),
                    decreases comp@.len() - j,
                {
                    proof {
                        assert(parts[i as int][j as int] == comp@[j as int]);
                        assert(parts[i as int][j as int] < self.nodes@.len());
                    }
                    names.push(self.nodes[comp[j]].clone());
                    proof {
                        let m = parts[i as int].map_values(|x: usize| self.nodes@[x as int]@);
                        assert(m.take(j + 1) =~= m.take(j as int).push(m[j as int]));
                        assert(names.deep_view() =~= m.take(j as int).push(m[j as int]));
                    }
                    j = j + 1;
                }
                proof {
                    let m = parts[i as int].map_values(|x: usize| self.nodes@[x as int]@);
                    assert(m.take(m.len() as int) =~= m);
                }
                r.push(names);
                proof {
                    assert(r.deep_view() =~= old_r.push(
                        parts[i as int].map_values(|x: usize| self.nodes@[x as int]@),
                    ));
                    assert(old_r + (seq![
                        parts[i as int].map_values(|x: usize| self.nodes@[x as int]@),
                    ] + spec_cyclic_components(self.nodes@, self.edges@, parts, i + 1))
                        =~= r.deep_view() + spec_cyclic_components(
                        self.nodes@,
                        self.edges@,
                        parts,
                        i + 1,
                    ));
                }
            } else if comp.len() == 1 && has_self_edge(&self.edges, comp[0]) {
                proof {
                    assert(parts[i as int][0] == comp@[0]);
                    assert(parts[i as int][0] < self.nodes@.len());
                }
                let mut names: Vec<String> = Vec::new();
                names.push(self.nodes[comp[0]].clone());
                proof {
                    assert(names.deep_view() =~= seq![self.nodes@[comp@[0] as int]@]);
                }
                r.push(names);
                proof {
                    assert(r.deep_view() =~= old_r.push(seq![self.nodes@[comp@[0] as int]@]));
                    assert(old_r + (seq![seq![self.nodes@[parts[i as int][0] as int]@]]
                        + spec_cyclic_components(self.nodes@, self.edges@, parts, i + 1))
                        =~= r.deep_view() + spec_cyclic_components(
                        self.nodes@,
                        self.edges@,
                        parts,
                        i + 1,
                    ));
                }
            } else {
                proof {
                    assert(parts[i as int].len() == comp@.len());
                    assert(spec_cyclic_components(self.nodes@, self.edges@, parts, i as int)
                        == spec_cyclic_components(self.nodes@, self.edges@, parts, i + 1));
                }
            }
            i = i + 1;
        }
        proof {
            assert(spec_cyclic_components(self.nodes@, self.edges@, parts, parts.len() as int)
                =~= Seq::<Seq<Seq<char>>>::empty());
            assert(r.deep_view() + Seq::<Seq<Seq<char>>>::empty() =~= r.deep_view());
            assert(is_scc_partition(self.nodes@.len() as nat, spec_edge_pairs(self.edges@), parts)
                && r.deep_view() == spec_cyclic_components(self.nodes@, self.edges@, parts, 0));
        }
        r
    }
}

} // verus!
