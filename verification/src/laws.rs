//! Properties that hold across the library's functions, stated and proved
//! over the same specification functions the functions' own contracts use.

use crate::cycles::{spec_cycle_hash, spec_canonical_key, spec_rotate, spec_min_idx};
use crate::pathstr::{
    lemma_lex_asym, lemma_lex_lt_trans, lemma_lex_total, lex_le, lex_lt, spec_join_path,
    spec_relative_path,
};
use vstd::prelude::*;

verus! {

/// `lex_le` in both directions means equality.
proof fn lemma_lex_antisym(a: Seq<char>, b: Seq<char>)
    requires
        lex_le(a, b),
        lex_le(b, a),
    ensures
        a == b,
{
    if a != b {
        lemma_lex_asym(a, b);
    }
}

/// `x <= y` and `y < z` give `x < z`.
proof fn lemma_lex_le_lt_trans(x: Seq<char>, y: Seq<char>, z: Seq<char>)
    requires
        lex_le(x, y),
        lex_lt(y, z),
    ensures
        lex_lt(x, z),
{
    if lex_lt(x, y) {
        lemma_lex_lt_trans(x, y, z);
    }
}

/// The scan `spec_min_idx` lands on an index whose element is a lower bound
/// for the current best and everything at or after `k`.
proof fn lemma_min_idx_min(s: Seq<Seq<char>>, k: int, besti: int)
    requires
        0 <= besti < s.len(),
        0 <= k,
    ensures
        0 <= spec_min_idx(s, k, besti) < s.len(),
        lex_le(s[spec_min_idx(s, k, besti)], s[besti]),
        forall|j: int| k <= j < s.len() ==> lex_le(s[spec_min_idx(s, k, besti)], #[trigger] s[j]),
    decreases s.len() - k,
{
    if k >= s.len() {
    } else {
        let r = spec_min_idx(s, k, besti);
        if lex_lt(s[k], s[besti]) {
            lemma_min_idx_min(s, k + 1, k);
            assert(r == spec_min_idx(s, k + 1, k));
            assert(lex_le(s[r], s[k]));
            if lex_lt(s[r], s[k]) {
                lemma_lex_lt_trans(s[r], s[k], s[besti]);
            }
            assert(lex_le(s[r], s[besti]));
            assert forall|j: int| k <= j < s.len() implies lex_le(s[r], #[trigger] s[j]) by {
                if j > k {
                    assert(lex_le(s[r], s[j]));
                }
            }
        } else {
            lemma_min_idx_min(s, k + 1, besti);
            assert forall|j: int| k <= j < s.len() implies lex_le(s[r], #[trigger] s[j]) by {
                if j == k {
                    if !lex_lt(s[besti], s[k]) && s[besti] != s[k] {
                        lemma_lex_total(s[besti], s[k]);
                    }
                    assert(lex_le(s[besti], s[k]));
                    if s[besti] == s[k] {
                        assert(lex_le(s[r], s[k]));
                    } else {
                        lemma_lex_le_lt_trans(s[r], s[besti], s[k]);
                        assert(lex_le(s[r], s[k]));
                    }
                }
            }
        }
    }
}

/// A rotation of a duplicate-free sequence is duplicate-free, and its
/// elements are the originals, shifted.
proof fn lemma_rotate_index(s: Seq<Seq<char>>, k: int, i: int)
    requires
        0 <= k <= s.len(),
        0 <= i < s.len(),
    ensures
        spec_rotate(s, k)[i] == if i < s.len() - k {
            s[i + k]
        } else {
            s[i - (s.len() - k)]
        },
{
}

/// The same underlying cycle, discovered from a different start node, is a
/// rotation of the same relative-path sequence, and both rotations carry
/// one canonical key; deduplication therefore collapses them. The paths of
/// one cycle are pairwise distinct, as a traversal visits no file twice.
pub proof fn lemma_rotation_same_canonical_key(rels: Seq<Seq<char>>, k: int)
    requires
        0 <= k <= rels.len(),
        rels.no_duplicates(),
    ensures
        spec_canonical_key(spec_rotate(rels, k)) == spec_canonical_key(rels),
{
    let n = rels.len();
    let r = spec_rotate(rels, k);
    assert(r.len() == n);
    if n == 0 {
        assert(r =~= rels);
    } else {
        assert forall|i: int| 0 <= i < n implies r[i] == (if i < n - k {
            rels[i + k]
        } else {
            rels[i - (n - k)]
        }) by {
            lemma_rotate_index(rels, k, i);
        }
        lemma_min_idx_min(rels, 1, 0);
        let m = spec_min_idx(rels, 1, 0);
        assert(forall|j: int| 0 <= j < n ==> lex_le(rels[m], #[trigger] rels[j]));
        lemma_min_idx_min(r, 1, 0);
        let mr = spec_min_idx(r, 1, 0);
        assert(forall|j: int| 0 <= j < n ==> lex_le(r[mr], #[trigger] r[j]));
        let mp: int = if m >= k {
            m - k
        } else {
            m + (n - k)
        };
        assert(0 <= mp < n);
        assert(r[mp] == rels[m]);
        let g: int = if mr < n - k {
            mr + k
        } else {
            mr - (n - k)
        };
        assert(0 <= g < n);
        assert(r[mr] == rels[g]);
        assert(lex_le(rels[m], rels[g]));
        assert(lex_le(r[mr], r[mp]));
        lemma_lex_antisym(rels[g], rels[m]);
        assert(rels[g] == rels[m]);
        assert(g == m);
        assert(mr == mp);
        assert(spec_rotate(r, mp) =~= spec_rotate(rels, m)) by {
            assert forall|i: int| 0 <= i < n implies spec_rotate(r, mp)[i] == spec_rotate(
                rels,
                m,
            )[i] by {
                lemma_rotate_index(r, mp, i);
                lemma_rotate_index(rels, m, i);
            }
        }
        assert(spec_canonical_key(r) == spec_canonical_key(rels));
    }
}

/// A graph of one file with an edge to itself reports exactly one cycle,
/// of exactly one edge, whatever partition the component search returned.
pub proof fn lemma_self_loop_single_cycle(
    nodes: Seq<String>,
    edges: Seq<crate::graph::GraphEdge>,
    root: Seq<char>,
    parts: Seq<Seq<usize>>,
)
    requires
        nodes.len() == 1,
        edges.len() == 1,
        edges[0].from == 0,
        edges[0].to == 0,
        crate::graph::is_scc_partition(1, crate::graph::spec_edge_pairs(edges), parts),
    ensures
        crate::cycles::spec_unique_cycles(nodes, edges, root, parts).len() == 1,
        crate::cycles::spec_unique_cycles(nodes, edges, root, parts)[0].edges.len() == 1,
        crate::cycles::spec_unique_cycles(nodes, edges, root, parts)[0].edges[0].from_file
            == nodes[0]@,
{
    reveal(crate::cycles::spec_materialize);
    // the only valid partition of one node is one part holding that node
    assert(crate::graph::appears_in(parts, 0usize));
    let (pi, pj) = choose|pi: int, pj: int|
        0 <= pi < parts.len() && 0 <= pj < parts[pi].len() && parts[pi][pj] == 0usize;
    assert(parts.len() == 1) by {
        if parts.len() > 1 {
            let a = if pi == 0 {
                1int
            } else {
                0int
            };
            assert(parts[a].len() >= 1);
            assert(parts[a][0] < 1);
            assert(parts[pi][pj] == parts[a][0]);
        }
    }
    assert(parts[0].len() == 1) by {
        if parts[0].len() > 1 {
            assert(parts[0][0] < 1 && parts[0][1] < 1);
            assert(parts[0][0] == parts[0][1]);
        }
    }
    assert(parts[0][0] == 0usize);
    let comp = parts[0];
    assert(comp =~= seq![0usize]);
    // the component qualifies: its node has a self-edge
    assert(crate::graph::spec_has_self_edge(edges, 0usize));
    // its edge set is exactly the one edge
    let es = crate::cycles::spec_comp_edges(edges, comp, 0);
    assert(comp.contains(edges[0].from));
    assert(crate::cycles::spec_comp_edges(edges, comp, 1) =~= Seq::<
        crate::graph::GraphEdge,
    >::empty());
    assert(es =~= seq![edges[0]]);
    // the walk closes immediately with the self-edge
    let start = crate::cycles::spec_min_from(nodes, root, es, 1, es[0].from);
    assert(start == 0usize);
    let visited = seq![0usize];
    assert(visited.contains(es[0].to));
    assert(crate::cycles::spec_first_unvisited(es, 0usize, visited, 0) == crate::cycles::spec_first_unvisited(
        es,
        0usize,
        visited,
        1,
    ));
    assert(crate::cycles::spec_first_unvisited(es, 0usize, visited, 0) == None::<int>);
    assert(crate::cycles::spec_first_closing(es, 0usize, 0usize, 0) == Some(0int));
    let path = crate::cycles::spec_walk(es, 0usize, 0usize, visited, comp.len() + 1);
    assert(path =~= seq![edges[0]]);
    let c = crate::cycles::spec_materialize(nodes, edges, comp, root);
    assert(c is Some);
    assert(c->0.edges.len() == 1);
    assert(c->0.edges[0].from_file == nodes[0]@) by {
        assert(crate::cycles::spec_cycle_edges(nodes, path)[0].from_file == nodes[
            path[0].from as int
        ]@);
    }
    // the pipeline reports that one cycle, and deduplication keeps it
    assert(crate::cycles::spec_pipeline(nodes, edges, root, parts, 1) =~= Seq::<
        crate::cycles::CycleInfoView,
    >::empty());
    let pipe = crate::cycles::spec_pipeline(nodes, edges, root, parts, 0);
    assert(pipe =~= seq![c->0]);
    let deduped = crate::cycles::spec_dedup(pipe, root, 0, Seq::<Seq<char>>::empty());
    assert(!Seq::<Seq<char>>::empty().contains(
        crate::cycles::spec_cycle_key(pipe[0], root),
    ));
    assert(crate::cycles::spec_dedup(pipe, root, 1, Seq::<Seq<char>>::empty().push(
        crate::cycles::spec_cycle_key(pipe[0], root),
    )) =~= Seq::<crate::cycles::CycleInfoView>::empty());
    assert(deduped =~= seq![c->0]);
}

/// Sorting a pair does not depend on the order it is given in.
proof fn lemma_sort_pair_commutes(x: Seq<char>, y: Seq<char>)
    ensures
        crate::pathstr::spec_sort_lex(seq![x, y]) == crate::pathstr::spec_sort_lex(seq![y, x]),
{
    let a = seq![x, y];
    let b = seq![y, x];
    let empty = Seq::<Seq<char>>::empty();
    assert(a.drop_last() =~= seq![x] && a.last() == y);
    assert(seq![x].drop_last() =~= empty && seq![x].last() == x);
    assert(seq![x].drop_first() =~= empty);
    assert(seq![y].drop_first() =~= empty);
    assert(b.drop_last() =~= seq![y] && b.last() == x);
    assert(seq![y].drop_last() =~= empty && seq![y].last() == y);
    assert(crate::pathstr::spec_sort_lex(empty) =~= empty);
    assert(crate::pathstr::spec_insert_sorted(x, empty) =~= seq![x]);
    assert(crate::pathstr::spec_insert_sorted(y, empty) =~= seq![y]);
    assert(crate::pathstr::spec_sort_lex(seq![x]) == seq![x]);
    assert(crate::pathstr::spec_sort_lex(seq![y]) == seq![y]);
    assert(crate::pathstr::spec_sort_lex(a) == crate::pathstr::spec_insert_sorted(y, seq![x]));
    assert(crate::pathstr::spec_sort_lex(b) == crate::pathstr::spec_insert_sorted(x, seq![y]));
    if !lex_le(y, x) && !lex_le(x, y) {
        lemma_lex_total(x, y);
    }
    if lex_le(y, x) && lex_le(x, y) {
        lemma_lex_antisym(x, y);
        assert(a =~= b);
    } else if lex_le(y, x) {
        assert(crate::pathstr::spec_insert_sorted(y, seq![x]) =~= seq![y] + seq![x]);
        assert(crate::pathstr::spec_insert_sorted(x, seq![y]) =~= seq![y] + seq![x]);
    } else {
        assert(crate::pathstr::spec_insert_sorted(y, seq![x]) =~= seq![x] + seq![y]);
        assert(crate::pathstr::spec_insert_sorted(x, seq![y]) =~= seq![x] + seq![y]);
    }
}

/// With an edge each way, the two nodes are mutually reachable.
proof fn lemma_mutual_reach(pairs: Seq<(usize, usize)>)
    requires
        pairs.len() == 2,
        pairs[0] == (0usize, 1usize),
        pairs[1] == (1usize, 0usize),
    ensures
        crate::graph::in_same_scc(pairs, 0usize, 1usize),
{
    reveal(crate::graph::reaches);
    assert(crate::graph::reaches(pairs, 0usize, 1usize)) by {
        let p = seq![0usize, 1usize];
        assert(pairs.contains((p[0], p[1])));
        assert(crate::graph::is_path(pairs, p) && p.first() == 0usize && p.last() == 1usize);
    }
    assert(crate::graph::reaches(pairs, 1usize, 0usize)) by {
        let p = seq![1usize, 0usize];
        assert(pairs.contains((p[0], p[1])));
        assert(crate::graph::is_path(pairs, p) && p.first() == 1usize && p.last() == 0usize);
    }
}

/// In a two-node graph with edges both ways, any valid partition is one
/// part holding both nodes.
#[verifier::rlimit(100)]
#[verifier::spinoff_prover]
proof fn lemma_two_node_partition(edges: Seq<crate::graph::GraphEdge>, parts: Seq<Seq<usize>>)
    requires
        edges.len() == 2,
        edges[0].from == 0,
        edges[0].to == 1,
        edges[1].from == 1,
        edges[1].to == 0,
        crate::graph::is_scc_partition(2, crate::graph::spec_edge_pairs(edges), parts),
    ensures
        parts.len() == 1,
        parts[0].len() == 2,
        parts[0].contains(0usize),
        parts[0].contains(1usize),
{
    let pairs = crate::graph::spec_edge_pairs(edges);
    assert(pairs[0] == (0usize, 1usize) && pairs[1] == (1usize, 0usize));
    lemma_mutual_reach(pairs);
    assert(crate::graph::appears_in(parts, 0usize));
    let (pi, pj) = choose|pi: int, pj: int|
        0 <= pi < parts.len() && 0 <= pj < parts[pi].len() && parts[pi][pj] == 0usize;
    assert(crate::graph::in_same_scc(pairs, parts[pi][pj], 1usize));
    assert(parts[pi].contains(1usize));
    let qj = choose|qj: int| 0 <= qj < parts[pi].len() && parts[pi][qj] == 1usize;
    assert(parts.len() == 1) by {
        if parts.len() > 1 {
            let a = if pi == 0 {
                1int
            } else {
                0int
            };
            assert(parts[a].len() >= 1);
            assert(parts[a][0] < 2);
            if parts[a][0] == 0usize {
                assert(parts[pi][pj] == parts[a][0]);
            } else {
                assert(parts[pi][qj] == parts[a][0]);
            }
        }
    }
    assert(pi == 0);
    assert(parts[0].len() == 2) by {
        if parts[0].len() > 2 {
            assert(parts[0][0] < 2 && parts[0][1] < 2 && parts[0][2] < 2);
            assert(parts[0][0] == parts[0][1] || parts[0][0] == parts[0][2] || parts[0][1]
                == parts[0][2]);
        }
    }
}

/// Materializing the two-node mutual component: a closed two-edge path,
/// hashed over the sorted pair of relative paths.
#[verifier::rlimit(100)]
#[verifier::spinoff_prover]
proof fn lemma_mutual_materialize(
    nodes: Seq<String>,
    edges: Seq<crate::graph::GraphEdge>,
    root: Seq<char>,
    comp: Seq<usize>,
)
    requires
        nodes.len() == 2,
        edges.len() == 2,
        edges[0].from == 0,
        edges[0].to == 1,
        edges[1].from == 1,
        edges[1].to == 0,
        comp.len() == 2,
        comp.contains(0usize),
        comp.contains(1usize),
    ensures
        crate::cycles::spec_materialize(nodes, edges, comp, root) is Some,
        crate::cycles::spec_materialize(nodes, edges, comp, root)->0.edges.len() == 2,
        crate::cycles::spec_materialize(nodes, edges, comp, root)->0.hash
            == crate::cycles::spec_cycle_hash(
            seq![spec_relative_path(nodes[0]@, root), spec_relative_path(nodes[1]@, root)],
        ),
{
    let es = crate::cycles::spec_comp_edges(edges, comp, 0);
    assert(crate::cycles::spec_comp_edges(edges, comp, 2) =~= Seq::<
        crate::graph::GraphEdge,
    >::empty());
    assert(crate::cycles::spec_comp_edges(edges, comp, 1) =~= seq![edges[1]]);
    assert(es =~= seq![edges[0], edges[1]]);
    let rel0 = spec_relative_path(nodes[0]@, root);
    let rel1 = spec_relative_path(nodes[1]@, root);
    let start = crate::cycles::spec_min_from(nodes, root, es, 1, es[0].from);
    let path = crate::cycles::spec_walk(es, start, start, seq![start], comp.len() + 1);
    assert(crate::cycles::spec_min_from(nodes, root, es, 2, 0usize) == 0usize);
    assert(crate::cycles::spec_min_from(nodes, root, es, 2, 1usize) == 1usize);
    if lex_lt(rel1, rel0) {
        assert(start == 1usize);
        let v1 = seq![1usize];
        assert(!v1.contains(0usize));
        assert(crate::cycles::spec_first_unvisited(es, 1usize, v1, 1) == Some(1int));
        assert(crate::cycles::spec_first_unvisited(es, 1usize, v1, 0)
            == crate::cycles::spec_first_unvisited(es, 1usize, v1, 1));
        let v2 = v1.push(0usize);
        assert(v2[0] == 1usize && v2[1] == 0usize && v2.len() == 2);
        assert(v2.contains(0usize) && v2.contains(1usize));
        assert(crate::cycles::spec_first_unvisited(es, 0usize, v2, 2) == None::<int>);
        assert(crate::cycles::spec_first_unvisited(es, 0usize, v2, 1)
            == crate::cycles::spec_first_unvisited(es, 0usize, v2, 2));
        assert(crate::cycles::spec_first_unvisited(es, 0usize, v2, 0)
            == crate::cycles::spec_first_unvisited(es, 0usize, v2, 1));
        assert(crate::cycles::spec_first_closing(es, 0usize, 1usize, 0) == Some(0int));
        assert(crate::cycles::spec_walk(es, 1usize, 0usize, v2, 2) =~= seq![es[0]]);
        assert(path =~= seq![es[1]] + crate::cycles::spec_walk(es, 1usize, 0usize, v2, 2));
        assert(path =~= seq![edges[1], edges[0]]);
        assert(crate::cycles::spec_rel_froms(nodes, root, path) =~= seq![rel1, rel0]);
        lemma_sort_pair_commutes(rel1, rel0);
    } else {
        assert(start == 0usize);
        let v1 = seq![0usize];
        assert(!v1.contains(1usize));
        assert(crate::cycles::spec_first_unvisited(es, 0usize, v1, 0) == Some(0int));
        let v2 = v1.push(1usize);
        assert(v2[0] == 0usize && v2[1] == 1usize && v2.len() == 2);
        assert(v2.contains(0usize) && v2.contains(1usize));
        assert(crate::cycles::spec_first_unvisited(es, 1usize, v2, 2) == None::<int>);
        assert(crate::cycles::spec_first_unvisited(es, 1usize, v2, 1)
            == crate::cycles::spec_first_unvisited(es, 1usize, v2, 2));
        assert(crate::cycles::spec_first_unvisited(es, 1usize, v2, 0)
            == crate::cycles::spec_first_unvisited(es, 1usize, v2, 1));
        assert(crate::cycles::spec_first_closing(es, 1usize, 0usize, 2) == None::<int>);
        assert(crate::cycles::spec_first_closing(es, 1usize, 0usize, 1) == Some(1int));
        assert(crate::cycles::spec_first_closing(es, 1usize, 0usize, 0)
            == crate::cycles::spec_first_closing(es, 1usize, 0usize, 1));
        assert(crate::cycles::spec_walk(es, 0usize, 1usize, v2, 2) =~= seq![es[1]]);
        assert(path =~= seq![es[0]] + crate::cycles::spec_walk(es, 0usize, 1usize, v2, 2));
        assert(path =~= seq![edges[0], edges[1]]);
        assert(crate::cycles::spec_rel_froms(nodes, root, path) =~= seq![rel0, rel1]);
    }
    let cv = crate::cycles::CycleInfoView {
        edges: crate::cycles::spec_cycle_edges(nodes, path),
        hash: crate::cycles::spec_cycle_hash(crate::cycles::spec_rel_froms(nodes, root, path)),
    };
    assert(crate::cycles::spec_materialize(nodes, edges, comp, root) == Some(cv)) by {
        reveal(crate::cycles::spec_materialize);
    }
    assert(cv.edges.len() == 2);
}

/// A graph of two files that import each other reports exactly one cycle,
/// of two edges, whatever partition the component search returned; its hash
/// is over the sorted pair of relative paths, so listing the files in the
/// other order gives the same hash.
#[verifier::rlimit(100)]
#[verifier::spinoff_prover]
pub proof fn lemma_mutual_import_single_cycle(
    nodes: Seq<String>,
    edges: Seq<crate::graph::GraphEdge>,
    root: Seq<char>,
    parts: Seq<Seq<usize>>,
)
    requires
        nodes.len() == 2,
        edges.len() == 2,
        edges[0].from == 0,
        edges[0].to == 1,
        edges[1].from == 1,
        edges[1].to == 0,
        crate::graph::is_scc_partition(2, crate::graph::spec_edge_pairs(edges), parts),
    ensures
        crate::cycles::spec_unique_cycles(nodes, edges, root, parts).len() == 1,
        crate::cycles::spec_unique_cycles(nodes, edges, root, parts)[0].edges.len() == 2,
        crate::cycles::spec_unique_cycles(nodes, edges, root, parts)[0].hash
            == crate::cycles::spec_cycle_hash(
            seq![spec_relative_path(nodes[0]@, root), spec_relative_path(nodes[1]@, root)],
        ),
{
    lemma_two_node_partition(edges, parts);
    let comp = parts[0];
    lemma_mutual_materialize(nodes, edges, root, comp);
    let c = crate::cycles::spec_materialize(nodes, edges, comp, root);
    assert(crate::cycles::spec_pipeline(nodes, edges, root, parts, 1) =~= Seq::<
        crate::cycles::CycleInfoView,
    >::empty());
    let pipe = crate::cycles::spec_pipeline(nodes, edges, root, parts, 0);
    assert(pipe =~= seq![c->0]);
    let deduped = crate::cycles::spec_dedup(pipe, root, 0, Seq::<Seq<char>>::empty());
    assert(!Seq::<Seq<char>>::empty().contains(crate::cycles::spec_cycle_key(pipe[0], root)));
    assert(crate::cycles::spec_dedup(pipe, root, 1, Seq::<Seq<char>>::empty().push(
        crate::cycles::spec_cycle_key(pipe[0], root),
    )) =~= Seq::<crate::cycles::CycleInfoView>::empty());
    assert(deduped =~= seq![c->0]);
}

/// A path assembled as `root/suffix` is `suffix` again relative to `root`,
/// whatever the root is.
pub proof fn lemma_relative_path_of_join(root: Seq<char>, sfx: Seq<char>)
    ensures
        spec_relative_path(spec_join_path(root, sfx), root) == sfx,
{
    let p = spec_join_path(root, sfx);
    if root.len() > 0 && root.last() == '/' {
        assert(p =~= root + sfx);
        assert(root.is_prefix_of(p)) by {
            assert(root =~= p.subrange(0, root.len() as int));
        }
        assert(p.skip(root.len() as int) =~= sfx);
    } else {
        assert(p =~= root + seq!['/'] + sfx);
        assert(root.is_prefix_of(p)) by {
            assert(root =~= p.subrange(0, root.len() as int));
        }
        assert(p[root.len() as int] == '/');
        assert(p.len() > root.len());
        if root.len() > 0 {
            assert(p.skip(root.len() as int + 1) =~= sfx);
        } else {
            assert(p.skip(1) =~= sfx);
        }
    }
}

/// A cycle's hash does not change when the whole project moves to a
/// different absolute root: the hash of the files `root/s` relative to
/// `root` is the same for every root, because only the relative structure
/// enters the digest.
pub proof fn lemma_cycle_hash_root_independent(
    root1: Seq<char>,
    root2: Seq<char>,
    sfxs: Seq<Seq<char>>,
)
    ensures
        sfxs.map_values(|s: Seq<char>| spec_relative_path(spec_join_path(root1, s), root1))
            == sfxs.map_values(|s: Seq<char>| spec_relative_path(spec_join_path(root2, s), root2)),
        spec_cycle_hash(
            sfxs.map_values(|s: Seq<char>| spec_relative_path(spec_join_path(root1, s), root1)),
        ) == spec_cycle_hash(
            sfxs.map_values(|s: Seq<char>| spec_relative_path(spec_join_path(root2, s), root2)),
        ),
{
    let m1 = sfxs.map_values(|s: Seq<char>| spec_relative_path(spec_join_path(root1, s), root1));
    let m2 = sfxs.map_values(|s: Seq<char>| spec_relative_path(spec_join_path(root2, s), root2));
    assert forall|i: int| 0 <= i < sfxs.len() implies m1[i] == sfxs[i] && m2[i] == sfxs[i] by {
        lemma_relative_path_of_join(root1, sfxs[i]);
        lemma_relative_path_of_join(root2, sfxs[i]);
    }
    assert(m1 =~= sfxs);
    assert(m2 =~= sfxs);
}

} // verus!
