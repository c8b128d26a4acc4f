//! Cycle materialization, deduplication and stable identity.
//!
//! Each cyclic strongly connected component is turned into one ordered,
//! closed edge path: the walk starts at the component's lexicographically
//! smallest relative path and greedily prefers unvisited targets, closing
//! back to the start. Cycles carry a location-independent hash over their
//! sorted relative paths, and equivalent cycles collapse to one through a
//! rotation-normalized canonical key.

use crate::graph::{DepGraph, GraphEdge};
use crate::hashing::{hash_strings, spec_hash_strings};
use crate::pathstr::{
    join_with, lex_lt, relative_path_string, sort_strings, spec_relative_path, spec_sort_lex,
    str_lt,
};
use vstd::prelude::*;

verus! {

/// One edge of a reported cycle: the two files, the line of the import, and
/// the import statement text.
pub struct CycleEdge {
    pub from_file: String,
    pub to_file: String,
    pub line: u32,
    pub import_text: String,
}

/// The ghost shape of a cycle edge.
pub struct CycleEdgeView {
    pub from_file: Seq<char>,
    pub to_file: Seq<char>,
    pub line: u32,
    pub import_text: Seq<char>,
}

impl View for CycleEdge {
    type V = CycleEdgeView;

    open spec fn view(&self) -> CycleEdgeView {
        CycleEdgeView {
            from_file: self.from_file@,
            to_file: self.to_file@,
            line: self.line,
            import_text: self.import_text@,
        }
    }
}

impl DeepView for CycleEdge {
    type V = CycleEdgeView;

    open spec fn deep_view(&self) -> CycleEdgeView {
        self@
    }
}

impl Clone for CycleEdge {
    fn clone(&self) -> (r: Self)
        ensures
            r@ == self@,
    {
        CycleEdge {
            from_file: self.from_file.clone(),
            to_file: self.to_file.clone(),
            line: self.line,
            import_text: self.import_text.clone(),
        }
    }
}

/// One detected cycle: a closed edge path and its stable hash.
pub struct CycleInfo {
    pub edges: Vec<CycleEdge>,
    pub hash: String,
}

/// The ghost shape of a cycle.
pub struct CycleInfoView {
    pub edges: Seq<CycleEdgeView>,
    pub hash: Seq<char>,
}

impl View for CycleInfo {
    type V = CycleInfoView;

    open spec fn view(&self) -> CycleInfoView {
        CycleInfoView { edges: self.edges.deep_view(), hash: self.hash@ }
    }
}

impl DeepView for CycleInfo {
    type V = CycleInfoView;

    open spec fn deep_view(&self) -> CycleInfoView {
        self@
    }
}

impl Clone for CycleInfo {
    fn clone(&self) -> (r: Self)
        ensures
            r@ == self@,
    {
        let edges = self.edges.clone();
        proof {
            assert forall|i: int| 0 <= i < self.edges@.len() implies edges.deep_view()[i]
                == self.edges.deep_view()[i] by {
                assert(cloned::<CycleEdge>(self.edges@[i], edges@[i]));
            }
            assert(edges.deep_view() =~= self.edges.deep_view());
        }
        CycleInfo { edges, hash: self.hash.clone() }
    }
}

impl CycleInfo {
    /// The files the cycle's edges start from, in traversal order.
    pub open spec fn spec_files(&self) -> Seq<Seq<char>> {
        self.edges.deep_view().map_values(|e: CycleEdgeView| e.from_file)
    }

    /// Returns the files this cycle passes through, in traversal order.
    pub fn files(&self) -> (r: Vec<String>)
        ensures
            r.deep_view() == self.spec_files(),
    {
        let mut r: Vec<String> = Vec::new();
        let mut i: usize = 0;
        proof {
            assert(r.deep_view() =~= self.spec_files().take(0));
        }
        while i < self.edges.len()
            invariant
                i <= self.edges@.len(),
                self.spec_files().len() == self.edges@.len(),
                r.deep_view() == self.spec_files().take(i as int),
            decreases self.edges@.len() - i,
        {
            r.push(self.edges[i].from_file.clone());
            proof {
                assert(self.spec_files()[i as int] == self.edges.deep_view()[i as int].from_file);
                assert(r.deep_view() =~= self.spec_files().take(i as int).push(
                    self.spec_files()[i as int],
                ));
                assert(self.spec_files().take(i + 1) =~= self.spec_files().take(i as int).push(
                    self.spec_files()[i as int],
                ));
            }
            i = i + 1;
        }
        proof {
            assert(self.spec_files().take(self.edges@.len() as int) =~= self.spec_files());
        }
        r
    }
}

/// The edges whose endpoints both lie in the component, in edge order,
/// scanning from `k`.
pub open spec fn spec_comp_edges(edges: Seq<GraphEdge>, comp: Seq<usize>, k: int) -> Seq<GraphEdge>
    decreases edges.len() - k,
{
    if k < 0 || k >= edges.len() {
        Seq::<GraphEdge>::empty()
    } else {
        let rest = spec_comp_edges(edges, comp, k + 1);
        if comp.contains(edges[k].from) && comp.contains(edges[k].to) {
            seq![edges[k]] + rest
        } else {
            rest
        }
    }
}

/// Every collected edge is one of the graph's edges.
pub proof fn lemma_comp_edges_subset(edges: Seq<GraphEdge>, comp: Seq<usize>, k: int)
    ensures
        forall|j: int|
            0 <= j < spec_comp_edges(edges, comp, k).len() ==> edges.contains(
                #[trigger] spec_comp_edges(edges, comp, k)[j],
            ),
    decreases edges.len() - k,
{
    if 0 <= k < edges.len() {
        lemma_comp_edges_subset(edges, comp, k + 1);
        let r = spec_comp_edges(edges, comp, k);
        let rest = spec_comp_edges(edges, comp, k + 1);
        if comp.contains(edges[k].from) && comp.contains(edges[k].to) {
            assert forall|j: int| 0 <= j < r.len() implies edges.contains(#[trigger] r[j]) by {
                if j == 0 {
                    assert(r[0] == edges[k]);
                } else {
                    assert(r[j] == rest[j - 1]);
                }
            }
        }
    }
}

/// Every edge of the walk is one of the component's edges.
pub proof fn lemma_walk_subset(
    es: Seq<GraphEdge>,
    start: usize,
    cur: usize,
    visited: Seq<usize>,
    fuel: nat,
)
    ensures
        forall|j: int|
            0 <= j < spec_walk(es, start, cur, visited, fuel).len() ==> es.contains(
                #[trigger] spec_walk(es, start, cur, visited, fuel)[j],
            ),
    decreases fuel,
{
    if fuel > 0 {
        let r = spec_walk(es, start, cur, visited, fuel);
        match spec_first_unvisited(es, cur, visited, 0) {
            Some(k) => {
                lemma_first_unvisited_range(es, cur, visited, 0);
                lemma_walk_subset(es, start, es[k].to, visited.push(es[k].to), (fuel - 1) as nat);
                let rest = spec_walk(es, start, es[k].to, visited.push(es[k].to), (fuel - 1) as nat);
                assert forall|j: int| 0 <= j < r.len() implies es.contains(#[trigger] r[j]) by {
                    if j == 0 {
                        assert(r[0] == es[k]);
                    } else {
                        assert(r[j] == rest[j - 1]);
                    }
                }
            },
            None => {
                match spec_first_closing(es, cur, start, 0) {
                    Some(k) => {
                        lemma_first_closing_range(es, cur, start, 0);
                        assert(r[0] == es[k]);
                    },
                    None => {},
                }
            },
        }
    }
}

/// A found unvisited-target edge index is in range.
pub proof fn lemma_first_unvisited_range(es: Seq<GraphEdge>, cur: usize, visited: Seq<usize>, k: int)
    ensures
        match spec_first_unvisited(es, cur, visited, k) {
            Some(i) => k <= i < es.len(),
            None => true,
        },
    decreases es.len() - k,
{
    if 0 <= k < es.len() {
        if !(es[k].from == cur && !visited.contains(es[k].to)) {
            lemma_first_unvisited_range(es, cur, visited, k + 1);
        }
    }
}

/// A found closing edge index is in range.
pub proof fn lemma_first_closing_range(es: Seq<GraphEdge>, cur: usize, start: usize, k: int)
    ensures
        match spec_first_closing(es, cur, start, k) {
            Some(i) => k <= i < es.len(),
            None => true,
        },
    decreases es.len() - k,
{
    if 0 <= k < es.len() {
        if !(es[k].from == cur && es[k].to == start) {
            lemma_first_closing_range(es, cur, start, k + 1);
        }
    }
}

/// Collects the edges inside one component.
fn comp_edges(edges: &Vec<GraphEdge>, comp: &Vec<usize>) -> (r: Vec<GraphEdge>)
    ensures
        r@ == spec_comp_edges(edges@, comp@, 0),
{
    let mut r: Vec<GraphEdge> = Vec::new();
    let mut k: usize = 0;
    proof {
        assert(r@ + spec_comp_edges(edges@, comp@, 0) =~= spec_comp_edges(edges@, comp@, 0));
    }
    while k < edges.len()
        invariant
            k <= edges@.len(),
            r@ + spec_comp_edges(edges@, comp@, k as int) == spec_comp_edges(edges@, comp@, 0),
        decreases edges@.len() - k,
    {
        let ghost old_r = r@;
        if contains_usize(comp, edges[k].from) && contains_usize(comp, edges[k].to) {
            r.push(edges[k].clone());
            proof {
                assert(r@ =~= old_r.push(edges@[k as int]));
                assert(old_r + (seq![edges@[k as int]] + spec_comp_edges(edges@, comp@, k + 1))
                    =~= r@ + spec_comp_edges(edges@, comp@, k + 1));
            }
        }
        k = k + 1;
    }
    proof {
        assert(spec_comp_edges(edges@, comp@, edges@.len() as int) =~= Seq::<GraphEdge>::empty());
        assert(r@ + Seq::<GraphEdge>::empty() =~= r@);
    }
    r
}

/// Tests membership in a list of node indices.
fn contains_usize(v: &Vec<usize>, x: usize) -> (r: bool)
    ensures
        r == v@.contains(x),
{
    let mut i: usize = 0;
    while i < v.len()
        invariant
            i <= v@.len(),
            forall|j: int| 0 <= j < i ==> v@[j] != x,
        decreases v@.len() - i,
    {
        if v[i] == x {
            return true;
        }
        i = i + 1;
    }
    proof {
        if v@.contains(x) {
            let j = choose|j: int| 0 <= j < v@.len() && v@[j] == x;
            assert(false);
        }
    }
    false
}

/// The from-node with the lexicographically smallest relative path among
/// the component's edges, scanning from `k` with current best `best`; the
/// earliest such node on ties.
pub open spec fn spec_min_from(
    nodes: Seq<String>,
    root: Seq<char>,
    es: Seq<GraphEdge>,
    k: int,
    best: usize,
) -> usize
    decreases es.len() - k,
{
    if k < 0 || k >= es.len() {
        best
    } else if lex_lt(
        spec_relative_path(nodes[es[k].from as int]@, root),
        spec_relative_path(nodes[best as int]@, root),
    ) {
        spec_min_from(nodes, root, es, k + 1, es[k].from)
    } else {
        spec_min_from(nodes, root, es, k + 1, best)
    }
}

/// The first edge from `cur` whose target is not yet visited, at or after
/// position `k`.
pub open spec fn spec_first_unvisited(
    es: Seq<GraphEdge>,
    cur: usize,
    visited: Seq<usize>,
    k: int,
) -> Option<int>
    decreases es.len() - k,
{
    if k < 0 || k >= es.len() {
        None
    } else if es[k].from == cur && !visited.contains(es[k].to) {
        Some(k)
    } else {
        spec_first_unvisited(es, cur, visited, k + 1)
    }
}

/// The first edge from `cur` back to the start, at or after position `k`.
pub open spec fn spec_first_closing(es: Seq<GraphEdge>, cur: usize, start: usize, k: int) -> Option<
    int,
>
    decreases es.len() - k,
{
    if k < 0 || k >= es.len() {
        None
    } else if es[k].from == cur && es[k].to == start {
        Some(k)
    } else {
        spec_first_closing(es, cur, start, k + 1)
    }
}

/// The greedy cycle walk: from the current file, the first edge to an
/// unvisited target is taken; failing that, the first edge back to the
/// start closes the cycle; failing both, the walk stops.
pub open spec fn spec_walk(
    es: Seq<GraphEdge>,
    start: usize,
    cur: usize,
    visited: Seq<usize>,
    fuel: nat,
) -> Seq<GraphEdge>
    decreases fuel,
{
    if fuel == 0 {
        Seq::<GraphEdge>::empty()
    } else {
        match spec_first_unvisited(es, cur, visited, 0) {
            Some(k) => seq![es[k]] + spec_walk(
                es,
                start,
                es[k].to,
                visited.push(es[k].to),
                (fuel - 1) as nat,
            ),
            None => match spec_first_closing(es, cur, start, 0) {
                Some(k) => seq![es[k]],
                None => Seq::<GraphEdge>::empty(),
            },
        }
    }
}

/// Finds the first edge from `cur` to an unvisited target.
fn first_unvisited(es: &Vec<GraphEdge>, cur: usize, visited: &Vec<usize>) -> (r: Option<usize>)
    ensures
        match r {
            Some(k) => Some(k as int) == spec_first_unvisited(es@, cur, visited@, 0) && k
                < es@.len(),
            None => spec_first_unvisited(es@, cur, visited@, 0) == None::<int>,
        },
{
    let mut k: usize = 0;
    while k < es.len()
        invariant
            k <= es@.len(),
            spec_first_unvisited(es@, cur, visited@, 0) == spec_first_unvisited(
                es@,
                cur,
                visited@,
                k as int,
            ),
        decreases es@.len() - k,
    {
        if es[k].from == cur && !contains_usize(visited, es[k].to) {
            return Some(k);
        }
        k = k + 1;
    }
    None
}

/// Finds the first edge from `cur` back to the start.
fn first_closing(es: &Vec<GraphEdge>, cur: usize, start: usize) -> (r: Option<usize>)
    ensures
        match r {
            Some(k) => Some(k as int) == spec_first_closing(es@, cur, start, 0) && k < es@.len(),
            None => spec_first_closing(es@, cur, start, 0) == None::<int>,
        },
{
    let mut k: usize = 0;
    while k < es.len()
        invariant
            k <= es@.len(),
            spec_first_closing(es@, cur, start, 0) == spec_first_closing(
                es@,
                cur,
                start,
                k as int,
            ),
        decreases es@.len() - k,
    {
        if es[k].from == cur && es[k].to == start {
            return Some(k);
        }
        k = k + 1;
    }
    None
}

/// Walks the component greedily, mirroring `spec_walk`.
fn walk(es: &Vec<GraphEdge>, start: usize, cur: usize, visited: Vec<usize>, fuel: usize) -> (r: Vec<
    GraphEdge,
>)
    ensures
        r@ == spec_walk(es@, start, cur, visited@, fuel as nat),
    decreases fuel,
{
    if fuel == 0 {
        return Vec::new();
    }
    match first_unvisited(es, cur, &visited) {
        Some(k) => {
            let e = es[k].clone();
            let to = e.to;
            let mut visited2 = visited;
            visited2.push(to);
            let mut rest = walk(es, start, to, visited2, fuel - 1);
            rest.insert(0, e);
            proof {
                assert(rest@ =~= seq![es@[k as int]] + spec_walk(
                    es@,
                    start,
                    es@[k as int].to,
                    visited@.push(es@[k as int].to),
                    (fuel - 1) as nat,
                ));
            }
            rest
        },
        None => {
            match first_closing(es, cur, start) {
                Some(k) => {
                    let mut r: Vec<GraphEdge> = Vec::new();
                    r.push(es[k].clone());
                    proof {
                        assert(r@ =~= seq![es@[k as int]]);
                    }
                    r
                },
                None => Vec::new(),
            }
        },
    }
}

/// The relative paths of the walk's from-files, in traversal order.
pub open spec fn spec_rel_froms(nodes: Seq<String>, root: Seq<char>, path: Seq<GraphEdge>) -> Seq<
    Seq<char>,
> {
    path.map_values(|e: GraphEdge| spec_relative_path(nodes[e.from as int]@, root))
}

/// The reported edges of the walk: full file paths, the line and the text
/// of the import that caused each edge.
pub open spec fn spec_cycle_edges(nodes: Seq<String>, path: Seq<GraphEdge>) -> Seq<CycleEdgeView> {
    path.map_values(
        |e: GraphEdge| CycleEdgeView {
            from_file: nodes[e.from as int]@,
            to_file: nodes[e.to as int]@,
            line: e.record.line,
            import_text: e.record.raw_text@,
        },
    )
}

/// A cycle's stable hash: the first 12 hexadecimal characters of the
/// SHA-256 digest of its relative from-paths, sorted, each followed by a
/// newline. Sorting makes the hash independent of where the walk started.
pub open spec fn spec_cycle_hash(rels: Seq<Seq<char>>) -> Seq<char> {
    spec_hash_strings(spec_sort_lex(rels), 12)
}

/// What one cyclic component materializes to: nothing when no edge lies
/// inside it; otherwise one closed edge path, walked greedily from the
/// lexicographically smallest relative from-path, with the stable hash of
/// its sorted relative from-paths.
#[verifier::opaque]
pub open spec fn spec_materialize(
    nodes: Seq<String>,
    edges: Seq<GraphEdge>,
    comp: Seq<usize>,
    root: Seq<char>,
) -> Option<CycleInfoView> {
    let es = spec_comp_edges(edges, comp, 0);
    if es.len() == 0 {
        None
    } else {
        let start = spec_min_from(nodes, root, es, 1, es[0].from);
        let path = spec_walk(es, start, start, seq![start], comp.len() + 1);
        Some(
            CycleInfoView {
                edges: spec_cycle_edges(nodes, path),
                hash: spec_cycle_hash(spec_rel_froms(nodes, root, path)),
            },
        )
    }
}

/// Materializes one cyclic component into a reported cycle.
#[verifier::rlimit(100)]
#[verifier::loop_isolation(false)]
pub fn materialize_cycle(
    nodes: &Vec<String>,
    edges: &Vec<GraphEdge>,
    comp: &Vec<usize>,
    root: &String,
) -> (r: Option<CycleInfo>)
    requires
        forall|k: int|
            0 <= k < edges@.len() ==> (#[trigger] edges@[k]).from < nodes@.len()
                && edges@[k].to < nodes@.len(),
        comp@.len() < 0xFFFF_FFF0usize,
    ensures
        match r {
            Some(c) => Some(c@) == spec_materialize(nodes@, edges@, comp@, root@),
            None => spec_materialize(nodes@, edges@, comp@, root@) == None::<CycleInfoView>,
        },
{
    proof {
        reveal(spec_materialize);
        lemma_comp_edges_subset(edges@, comp@, 0);
    }
    let es = comp_edges(edges, comp);
    if es.len() == 0 {
        return None;
    }
    proof {
        assert forall|k: int| 0 <= k < es@.len() implies (#[trigger] es@[k]).from < nodes@.len()
            && es@[k].to < nodes@.len() by {
            assert(edges@.contains(es@[k]));
            let j = choose|j: int| 0 <= j < edges@.len() && edges@[j] == es@[k];
            assert(edges@[j].from < nodes@.len());
        }
    }
    let mut best = es[0].from;
    let mut best_rel = relative_path_string(&nodes[best], root);
    let mut k: usize = 1;
    while k < es.len()
        invariant
            1 <= k <= es@.len(),
            best < nodes@.len(),
            best_rel@ == spec_relative_path(nodes@[best as int]@, root@),
            spec_min_from(nodes@, root@, es@, 1, es@[0].from) == spec_min_from(
                nodes@,
                root@,
                es@,
                k as int,
                best,
            ),
        decreases es@.len() - k,
    {
        let cand_rel = relative_path_string(&nodes[es[k].from], root);
        if str_lt(&cand_rel, &best_rel) {
            best = es[k].from;
            best_rel = cand_rel;
        }
        k = k + 1;
    }
    let start = best;
    let mut visited: Vec<usize> = Vec::new();
    visited.push(start);
    proof {
        assert(visited@ =~= seq![start]);
    }
    let path = walk(&es, start, start, visited, comp.len() + 1);
    proof {
        lemma_walk_subset(es@, start, start, seq![start], comp@.len() + 1);
        assert forall|j: int| 0 <= j < path@.len() implies (#[trigger] path@[j]).from
            < nodes@.len() && path@[j].to < nodes@.len() by {
            assert(es@.contains(path@[j]));
            let j2 = choose|j2: int| 0 <= j2 < es@.len() && es@[j2] == path@[j];
            assert(es@[j2].from < nodes@.len());
        }
    }
    let mut cycle_edges: Vec<CycleEdge> = Vec::new();
    let mut rels: Vec<String> = Vec::new();
    let mut i: usize = 0;
    proof {
        assert(cycle_edges.deep_view() =~= spec_cycle_edges(nodes@, path@).take(0));
        assert(rels.deep_view() =~= spec_rel_froms(nodes@, root@, path@).take(0));
    }
    while i < path.len()
        invariant
            i <= path@.len(),
            cycle_edges.deep_view() == spec_cycle_edges(nodes@, path@).take(i as int),
            rels.deep_view() == spec_rel_froms(nodes@, root@, path@).take(i as int),
        decreases path@.len() - i,
    {
        let e = &path[i];
        cycle_edges.push(
            CycleEdge {
                from_file: nodes[e.from].clone(),
                to_file: nodes[e.to].clone(),
                line: e.record.line,
                import_text: e.record.raw_text.clone(),
            },
        );
        rels.push(relative_path_string(&nodes[e.from], root));
        proof {
            let m = spec_cycle_edges(nodes@, path@);
            assert(m.take(i + 1) =~= m.take(i as int).push(m[i as int]));
            assert(cycle_edges.deep_view() =~= m.take(i as int).push(m[i as int]));
            let m2 = spec_rel_froms(nodes@, root@, path@);
            assert(m2.take(i + 1) =~= m2.take(i as int).push(m2[i as int]));
            assert(rels.deep_view() =~= m2.take(i as int).push(m2[i as int]));
        }
        i = i + 1;
    }
    proof {
        let m = spec_cycle_edges(nodes@, path@);
        assert(m.take(m.len() as int) =~= m);
        let m2 = spec_rel_froms(nodes@, root@, path@);
        assert(m2.take(m2.len() as int) =~= m2);
    }
    let sorted = sort_strings(&rels);
    let hash = hash_strings(&sorted, 12);
    Some(CycleInfo { edges: cycle_edges, hash })
}

/// Tests membership in a list of strings.
pub(crate) fn contains_string(v: &Vec<String>, x: &String) -> (r: bool)
    ensures
        r == v.deep_view().contains(x@),
{
    let mut i: usize = 0;
    while i < v.len()
        invariant
            i <= v@.len(),
            forall|j: int| 0 <= j < i ==> v.deep_view()[j] != x@,
        decreases v@.len() - i,
    {
        if crate::pathstr::str_eq(&v[i], x) {
            proof {
                assert(v.deep_view()[i as int] == x@);
            }
            return true;
        }
        i = i + 1;
    }
    proof {
        if v.deep_view().contains(x@) {
            let j = choose|j: int| 0 <= j < v.deep_view().len() && v.deep_view()[j] == x@;
            assert(false);
        }
    }
    false
}

/// The index of the lexicographically smallest relative path, scanning from
/// `k` with current best `besti`; the earliest on ties.
pub open spec fn spec_min_idx(s: Seq<Seq<char>>, k: int, besti: int) -> int
    decreases s.len() - k,
{
    if k < 0 || k >= s.len() {
        besti
    } else if lex_lt(s[k], s[besti]) {
        spec_min_idx(s, k + 1, k)
    } else {
        spec_min_idx(s, k + 1, besti)
    }
}

/// The sequence rotated to start at position `k`.
pub open spec fn spec_rotate(s: Seq<Seq<char>>, k: int) -> Seq<Seq<char>> {
    s.skip(k) + s.take(k)
}

/// The canonical key of a cycle's relative-path sequence: rotated to start
/// at its lexicographically smallest element and joined with ` > `.
pub open spec fn spec_canonical_key(rels: Seq<Seq<char>>) -> Seq<char> {
    if rels.len() == 0 {
        Seq::<char>::empty()
    } else {
        join_with(spec_rotate(rels, spec_min_idx(rels, 1, 0)), " > "@)
    }
}

/// The canonical key of one reported cycle, relative to the root.
pub open spec fn spec_cycle_key(c: CycleInfoView, root: Seq<char>) -> Seq<char> {
    spec_canonical_key(
        c.edges.map_values(|e: CycleEdgeView| spec_relative_path(e.from_file, root)),
    )
}

/// Computes the canonical key of one cycle.
#[verifier::loop_isolation(false)]
pub fn canonical_key(cycle: &CycleInfo, root: &String) -> (r: String)
    ensures
        r@ == spec_cycle_key(cycle@, root@),
{
    let mut rels: Vec<String> = Vec::new();
    let ghost m = cycle@.edges.map_values(
        |e: CycleEdgeView| spec_relative_path(e.from_file, root@),
    );
    let mut i: usize = 0;
    proof {
        assert(rels.deep_view() =~= m.take(0));
    }
    while i < cycle.edges.len()
        invariant
            i <= cycle.edges@.len(),
            rels.deep_view() == m.take(i as int),
        decreases cycle.edges@.len() - i,
    {
        rels.push(relative_path_string(&cycle.edges[i].from_file, root));
        proof {
            assert(m.take(i + 1) =~= m.take(i as int).push(m[i as int]));
            assert(rels.deep_view() =~= m.take(i as int).push(m[i as int]));
        }
        i = i + 1;
    }
    proof {
        assert(m.take(m.len() as int) =~= m);
    }
    if rels.len() == 0 {
        return String::new();
    }
    let mut besti: usize = 0;
    let mut k: usize = 1;
    while k < rels.len()
        invariant
            1 <= k <= rels@.len(),
            besti < rels@.len(),
            spec_min_idx(m, 1, 0) == spec_min_idx(m, k as int, besti as int),
        decreases rels@.len() - k,
    {
        if str_lt(&rels[k], &rels[besti]) {
            besti = k;
        }
        k = k + 1;
    }
    let mut rotated: Vec<String> = Vec::new();
    let mut a: usize = besti;
    proof {
        assert(rotated.deep_view() =~= m.skip(besti as int).take(0));
    }
    while a < rels.len()
        invariant
            besti <= a <= rels@.len(),
            rels.deep_view() == m,
            rotated.deep_view() == m.skip(besti as int).take(a - besti),
        decreases rels@.len() - a,
    {
        rotated.push(rels[a].clone());
        proof {
            let sk = m.skip(besti as int);
            assert(sk.take(a - besti + 1) =~= sk.take(a - besti).push(sk[a - besti]));
            assert(rotated.deep_view() =~= sk.take(a - besti).push(sk[a - besti]));
        }
        a = a + 1;
    }
    let mut b: usize = 0;
    proof {
        assert(m.skip(besti as int).take(m.len() - besti) =~= m.skip(besti as int));
        assert(rotated.deep_view() =~= m.skip(besti as int) + m.take(0));
    }
    while b < besti
        invariant
            b <= besti <= rels@.len(),
            rels.deep_view() == m,
            rotated.deep_view() == m.skip(besti as int) + m.take(b as int),
        decreases besti - b,
    {
        let ghost old_rot = rotated.deep_view();
        rotated.push(rels[b].clone());
        proof {
            assert(rotated.deep_view() =~= old_rot.push(m[b as int]));
            assert(m.take(b + 1) =~= m.take(b as int).push(m[b as int]));
            assert((m.skip(besti as int) + m.take(b as int)).push(m[b as int]) =~= m.skip(
                besti as int,
            ) + m.take(b + 1));
        }
        b = b + 1;
    }
    let sep = String::from_str(" > ");
    let r = crate::pathstr::join_strings(&rotated, &sep);
    proof {
        reveal_strlit(" > ");
    }
    r
}

/// The cycles that survive deduplication, scanning from `i` with the keys
/// in `seen` already taken: a cycle with no edges is dropped, a cycle whose
/// canonical key was seen is dropped, everything else is kept in order.
pub open spec fn spec_dedup(
    cycles: Seq<CycleInfoView>,
    root: Seq<char>,
    i: int,
    seen: Seq<Seq<char>>,
) -> Seq<CycleInfoView>
    decreases cycles.len() - i,
{
    if i < 0 || i >= cycles.len() {
        Seq::<CycleInfoView>::empty()
    } else {
        let c = cycles[i];
        if c.edges.len() == 0 {
            spec_dedup(cycles, root, i + 1, seen)
        } else {
            let key = spec_cycle_key(c, root);
            if seen.contains(key) {
                spec_dedup(cycles, root, i + 1, seen)
            } else {
                seq![c] + spec_dedup(cycles, root, i + 1, seen.push(key))
            }
        }
    }
}

/// Deduplicates cycles by canonical key: of several cycles that are
/// rotations of the same relative-path sequence, the first stays.
#[verifier::loop_isolation(false)]
pub fn deduplicate_cycles(cycles: &Vec<CycleInfo>, root: &String) -> (r: Vec<CycleInfo>)
    ensures
        r.deep_view() == spec_dedup(cycles.deep_view(), root@, 0, Seq::<Seq<char>>::empty()),
{
    let mut seen: Vec<String> = Vec::new();
    let mut out: Vec<CycleInfo> = Vec::new();
    let mut i: usize = 0;
    proof {
        assert(seen.deep_view() =~= Seq::<Seq<char>>::empty());
        assert(out.deep_view() + spec_dedup(cycles.deep_view(), root@, 0, seen.deep_view())
            =~= spec_dedup(cycles.deep_view(), root@, 0, Seq::<Seq<char>>::empty()));
    }
    while i < cycles.len()
        invariant
            i <= cycles@.len(),
            out.deep_view() + spec_dedup(cycles.deep_view(), root@, i as int, seen.deep_view())
                == spec_dedup(cycles.deep_view(), root@, 0, Seq::<Seq<char>>::empty()),
        decreases cycles@.len() - i,
    {
        proof {
            assert(cycles.deep_view()[i as int] == cycles@[i as int]@);
        }
        let ghost old_out = out.deep_view();
        let ghost old_seen = seen.deep_view();
        if cycles[i].edges.len() > 0 {
            let key = canonical_key(&cycles[i], root);
            if !contains_string(&seen, &key) {
                out.push(cycles[i].clone());
                seen.push(key);
                proof {
                    assert(out.deep_view() =~= old_out.push(cycles.deep_view()[i as int]));
                    assert(seen.deep_view() =~= old_seen.push(
                        spec_cycle_key(cycles.deep_view()[i as int], root@),
                    ));
                    assert(old_out + (seq![cycles.deep_view()[i as int]] + spec_dedup(
                        cycles.deep_view(),
                        root@,
                        i + 1,
                        seen.deep_view(),
                    )) =~= out.deep_view() + spec_dedup(
                        cycles.deep_view(),
                        root@,
                        i + 1,
                        seen.deep_view(),
                    ));
                }
            }
        }
        i = i + 1;
    }
    proof {
        assert(spec_dedup(cycles.deep_view(), root@, cycles@.len() as int, seen.deep_view())
            =~= Seq::<CycleInfoView>::empty());
        assert(out.deep_view() + Seq::<CycleInfoView>::empty() =~= out.deep_view());
    }
    out
}

/// The cycles materialized from the partition's cyclic parts, in partition
/// order, before deduplication: parts of two or more nodes, and single
/// nodes with a self-edge.
pub open spec fn spec_pipeline(
    nodes: Seq<String>,
    edges: Seq<GraphEdge>,
    root: Seq<char>,
    parts: Seq<Seq<usize>>,
    i: int,
) -> Seq<CycleInfoView>
    decreases parts.len() - i,
{
    if i < 0 || i >= parts.len() {
        Seq::<CycleInfoView>::empty()
    } else {
        let rest = spec_pipeline(nodes, edges, root, parts, i + 1);
        let comp = parts[i];
        if comp.len() > 1 || (comp.len() == 1 && crate::graph::spec_has_self_edge(edges, comp[0])) {
            match spec_materialize(nodes, edges, comp, root) {
                Some(c) => seq![c] + rest,
                None => rest,
            }
        } else {
            rest
        }
    }
}

/// What the analysis reports for a graph: for some SCC partition of the
/// graph, the cyclic components materialized in partition order and
/// deduplicated by canonical key.
pub open spec fn spec_unique_cycles(
    nodes: Seq<String>,
    edges: Seq<GraphEdge>,
    root: Seq<char>,
    parts: Seq<Seq<usize>>,
) -> Seq<CycleInfoView> {
    spec_dedup(spec_pipeline(nodes, edges, root, parts, 0), root, 0, Seq::<Seq<char>>::empty())
}

/// A part of the partition can hold at most one occurrence of each node,
/// so its length is bounded by the node count.
pub proof fn lemma_comp_len_bound(
    n: nat,
    pairs: Seq<(usize, usize)>,
    parts: Seq<Seq<usize>>,
    i: int,
)
    requires
        crate::graph::is_scc_partition(n, pairs, parts),
        0 <= i < parts.len(),
    ensures
        parts[i].len() <= n,
{
    let comp = parts[i];
    let ints = comp.map_values(|x: usize| x as int);
    assert(ints.len() == comp.len());
    assert forall|j1: int, j2: int| 0 <= j1 < ints.len() && 0 <= j2 < ints.len() && j1 != j2
        implies ints[j1] != ints[j2] by {
        assert(ints[j1] == comp[j1] as int && ints[j2] == comp[j2] as int);
        if comp[j1] == comp[j2] {
            assert(parts[i][j1] == parts[i][j2]);
        }
    }
    assert(ints.no_duplicates());
    ints.unique_seq_to_set();
    assert forall|x: int| ints.to_set().contains(x) implies vstd::set_lib::set_int_range(
        0,
        n as int,
    ).contains(x) by {
        assert(ints.contains(x));
        let j = choose|j: int| 0 <= j < ints.len() && ints[j] == x;
        assert(comp[j] < n);
    }
    vstd::set_lib::lemma_int_range(0, n as int);
    vstd::set_lib::lemma_len_subset(ints.to_set(), vstd::set_lib::set_int_range(0, n as int));
}

/// With no edges there are no cycles: every part of a valid SCC partition
/// is then a single node without a self-edge.
#[verifier::rlimit(100)]
pub proof fn lemma_no_edges_no_cycles(
    nodes: Seq<String>,
    edges: Seq<GraphEdge>,
    root: Seq<char>,
    parts: Seq<Seq<usize>>,
    i: int,
)
    requires
        edges.len() == 0,
        crate::graph::is_scc_partition(nodes.len() as nat, crate::graph::spec_edge_pairs(edges), parts),
    ensures
        spec_pipeline(nodes, edges, root, parts, i) == Seq::<CycleInfoView>::empty(),
    decreases parts.len() - i,
{
    reveal(crate::graph::reaches);
    let pairs = crate::graph::spec_edge_pairs(edges);
    assert(pairs.len() == 0);
    if 0 <= i < parts.len() {
        let comp = parts[i];
        if comp.len() > 1 {
            let a = comp[0];
            let b = comp[1];
            assert(a != b);
            assert(crate::graph::in_same_scc(pairs, a, b));
            let p = choose|p: Seq<usize>|
                crate::graph::is_path(pairs, p) && p.first() == a && p.last() == b;
            assert(p.len() >= 1);
            if p.len() == 1 {
                assert(a == b);
            } else {
                assert(pairs.contains((p[0], p[1])));
                let w = choose|w: int| 0 <= w < pairs.len() && pairs[w] == (p[0], p[1]);
                assert(false);
            }
        }
        if comp.len() == 1 && crate::graph::spec_has_self_edge(edges, comp[0]) {
            let k = choose|k: int|
                0 <= k < edges.len() && (#[trigger] edges[k]).from == comp[0] && edges[k].to
                    == comp[0];
            assert(false);
        }
        lemma_no_edges_no_cycles(nodes, edges, root, parts, i + 1);
    }
}

/// Finds the unique cycles of the graph, relative to the analysis root:
/// the cyclic strongly connected components, each materialized as a closed
/// edge path with a stable hash, deduplicated by canonical key. A graph
/// with no edges yields no cycles.
#[verifier::rlimit(100)]
#[verifier::loop_isolation(false)]
pub fn get_unique_cycles(g: &DepGraph, root: &String) -> (r: Vec<CycleInfo>)
    requires
        g.wf(),
        g.nodes@.len() < 0xFFFF_FFF0,
        g.edges@.len() < 0xFFFF_FFF0,
    ensures
        exists|parts: Seq<Seq<usize>>|
            crate::graph::is_scc_partition(
                g.nodes@.len() as nat,
                crate::graph::spec_edge_pairs(g.edges@),
                parts,
            ) && r.deep_view() == spec_unique_cycles(g.nodes@, g.edges@, root@, parts),
        g.edges@.len() == 0 ==> r.deep_view().len() == 0,
{
    let mut pairs: Vec<(usize, usize)> = Vec::new();
    let mut k: usize = 0;
    proof {
        assert(pairs@ =~= crate::graph::spec_edge_pairs(g.edges@.take(0)));
    }
    while k < g.edges.len()
        invariant
            k <= g.edges@.len(),
            pairs@ == crate::graph::spec_edge_pairs(g.edges@.take(k as int)),
            forall|i: int|
                0 <= i < pairs@.len() ==> (#[trigger] pairs@[i]).0 < g.nodes@.len() && pairs@[i].1
                    < g.nodes@.len(),
        decreases g.edges@.len() - k,
    {
        pairs.push((g.edges[k].from, g.edges[k].to));
        proof {
            assert(g.edges@.take(k + 1).drop_last() =~= g.edges@.take(k as int));
            assert(pairs@ =~= crate::graph::spec_edge_pairs(g.edges@.take(k + 1)));
        }
        k = k + 1;
    }
    proof {
        assert(g.edges@.take(g.edges@.len() as int) =~= g.edges@);
    }
    let sccs = crate::graph::kosaraju_scc_indices(g.nodes.len(), &pairs);
    let ghost parts = sccs.deep_view();
    let mut collected: Vec<CycleInfo> = Vec::new();
    let mut i: usize = 0;
    proof {
        assert(collected.deep_view() + spec_pipeline(g.nodes@, g.edges@, root@, parts, 0)
            =~= spec_pipeline(g.nodes@, g.edges@, root@, parts, 0));
    }
    while i < sccs.len()
        invariant
            i <= sccs.len(),
            parts == sccs.deep_view(),
            parts.len() == sccs.len(),
            collected.deep_view() + spec_pipeline(g.nodes@, g.edges@, root@, parts, i as int)
                == spec_pipeline(g.nodes@, g.edges@, root@, parts, 0),
        decreases sccs.len() - i,
    {
        proof {
            assert(parts[i as int] == sccs@[i as int].deep_view());
            assert(forall|j: int|
                0 <= j < sccs@[i as int]@.len() ==> parts[i as int][j] == sccs@[i as int]@[j]);
            assert(parts[i as int] =~= sccs@[i as int]@);
        }
        let comp = &sccs[i];
        let ghost old_collected = collected.deep_view();
        let qualifies = if comp.len() > 1 {
            true
        } else {
            comp.len() == 1 && crate::graph::has_self_edge(&g.edges, comp[0])
        };
        if qualifies {
            proof {
                lemma_comp_len_bound(
                    g.nodes@.len() as nat,
                    crate::graph::spec_edge_pairs(g.edges@),
                    parts,
                    i as int,
                );
            }
            match materialize_cycle(&g.nodes, &g.edges, comp, root) {
                Some(c) => {
                    collected.push(c);
                    proof {
                        assert(collected.deep_view() =~= old_collected.push(
                            spec_materialize(g.nodes@, g.edges@, parts[i as int], root@)->0,
                        ));
                        assert(old_collected + (seq![
                            spec_materialize(g.nodes@, g.edges@, parts[i as int], root@)->0,
                        ] + spec_pipeline(g.nodes@, g.edges@, root@, parts, i + 1))
                            =~= collected.deep_view() + spec_pipeline(
                            g.nodes@,
                            g.edges@,
                            root@,
                            parts,
                            i + 1,
                        ));
                    }
                },
                None => {},
            }
        }
        i = i + 1;
    }
    proof {
        assert(spec_pipeline(g.nodes@, g.edges@, root@, parts, parts.len() as int) =~= Seq::<
            CycleInfoView,
        >::empty());
        assert(collected.deep_view() + Seq::<CycleInfoView>::empty() =~= collected.deep_view());
    }
    let r = deduplicate_cycles(&collected, root);
    proof {
        assert(crate::graph::is_scc_partition(
            g.nodes@.len() as nat,
            crate::graph::spec_edge_pairs(g.edges@),
            parts,
        ) && r.deep_view() == spec_unique_cycles(g.nodes@, g.edges@, root@, parts));
        if g.edges@.len() == 0 {
            lemma_no_edges_no_cycles(g.nodes@, g.edges@, root@, parts, 0);
        }
    }
    r
}

} // verus!
