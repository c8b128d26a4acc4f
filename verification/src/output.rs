//! Result-set assembly: the aggregate hash, allow-list filtering and the
//! value rendered as JSON by the caller.

use crate::config::{AllowedCycle, AllowedCycleView};
use crate::cycles::{contains_string, CycleInfo, CycleInfoView, CycleEdgeView};
use crate::hashing::{hash_strings, spec_hash_strings};
use crate::pathstr::{
    relative_path_string, sort_strings, spec_relative_path, spec_sort_lex, spec_trim,
    split_on_char, split_on_sub, trim_string,
};
use vstd::prelude::*;

verus! {

/// The form the caller renders results in.
#[derive(Clone, Copy, PartialEq, Eq, Structural, Debug)]
pub enum OutputFormat {
    /// Text with line numbers and import statements.
    Text,
    /// JSON for tooling.
    Json,
}

/// The hashes of the given cycles, in order.
pub open spec fn spec_cycle_hashes(cycles: Seq<CycleInfoView>) -> Seq<Seq<char>> {
    cycles.map_values(|c: CycleInfoView| c.hash)
}

/// The aggregate hash over a cycle set: the individual cycle hashes,
/// sorted, hashed again. Sorting makes it independent of detection order.
pub open spec fn spec_cycles_hash(cycles: Seq<CycleInfoView>) -> Seq<char> {
    spec_hash_strings(spec_sort_lex(spec_cycle_hashes(cycles)), 12)
}

/// Computes the aggregate hash of all cycles, for gating in CI: the sorted
/// individual cycle hashes, each followed by a newline, hashed, first 12
/// hexadecimal characters.
pub fn compute_cycles_hash(cycles: &Vec<CycleInfo>) -> (r: String)
    ensures
        r@ == spec_cycles_hash(cycles.deep_view()),
        r@.len() == 12,
{
    let ghost m = spec_cycle_hashes(cycles.deep_view());
    let mut hashes: Vec<String> = Vec::new();
    let mut i: usize = 0;
    proof {
        assert(hashes.deep_view() =~= m.take(0));
    }
    while i < cycles.len()
        invariant
            i <= cycles@.len(),
            m == spec_cycle_hashes(cycles.deep_view()),
            m.len() == cycles@.len(),
            hashes.deep_view() == m.take(i as int),
        decreases cycles@.len() - i,
    {
        hashes.push(cycles[i].hash.clone());
        proof {
            assert(m[i as int] == cycles.deep_view()[i as int].hash);
            assert(m.take(i + 1) =~= m.take(i as int).push(m[i as int]));
            assert(hashes.deep_view() =~= m.take(i as int).push(m[i as int]));
        }
        i = i + 1;
    }
    proof {
        assert(m.take(m.len() as int) =~= m);
    }
    let sorted = sort_strings(&hashes);
    hash_strings(&sorted, 12)
}

/// The set of relative file paths a cycle passes through.
pub open spec fn spec_cycle_file_set(c: CycleInfoView, root: Seq<char>) -> Set<Seq<char>> {
    c.edges.map_values(|e: CycleEdgeView| spec_relative_path(e.from_file, root)).to_set()
}

/// Whether a cycle is on the accepted baseline: some entry's file set, as
/// an unordered set, equals the cycle's relative file set exactly.
pub open spec fn spec_cycle_allowed(
    c: CycleInfoView,
    allowed: Seq<AllowedCycleView>,
    root: Seq<char>,
) -> bool {
    exists|k: int|
        0 <= k < allowed.len() && (#[trigger] allowed[k]).files.to_set() == spec_cycle_file_set(
            c,
            root,
        )
}

/// Whether two string lists hold the same set of strings.
fn same_string_set(a: &Vec<String>, b: &Vec<String>) -> (r: bool)
    ensures
        r == (a.deep_view().to_set() == b.deep_view().to_set()),
{
    let mut i: usize = 0;
    while i < a.len()
        invariant
            i <= a@.len(),
            forall|j: int| 0 <= j < i ==> b.deep_view().contains(#[trigger] a.deep_view()[j]),
        decreases a@.len() - i,
    {
        if !contains_string(b, &a[i]) {
            proof {
                assert(a.deep_view().to_set().contains(a.deep_view()[i as int]));
                assert(!b.deep_view().to_set().contains(a.deep_view()[i as int]));
            }
            return false;
        }
        proof {
            assert(b.deep_view().contains(a.deep_view()[i as int]));
        }
        i = i + 1;
    }
    let mut j: usize = 0;
    while j < b.len()
        invariant
            j <= b@.len(),
            forall|k: int| 0 <= k < a@.len() ==> b.deep_view().contains(#[trigger] a.deep_view()[k]),
            forall|k: int| 0 <= k < j ==> a.deep_view().contains(#[trigger] b.deep_view()[k]),
        decreases b@.len() - j,
    {
        if !contains_string(a, &b[j]) {
            proof {
                assert(b.deep_view().to_set().contains(b.deep_view()[j as int]));
                assert(!a.deep_view().to_set().contains(b.deep_view()[j as int]));
            }
            return false;
        }
        proof {
            assert(a.deep_view().contains(b.deep_view()[j as int]));
        }
        j = j + 1;
    }
    proof {
        assert forall|x: Seq<char>| a.deep_view().to_set().contains(x)
            implies b.deep_view().to_set().contains(x) by {
            let k = choose|k: int| 0 <= k < a.deep_view().len() && a.deep_view()[k] == x;
        }
        assert forall|x: Seq<char>| b.deep_view().to_set().contains(x)
            implies a.deep_view().to_set().contains(x) by {
            let k = choose|k: int| 0 <= k < b.deep_view().len() && b.deep_view()[k] == x;
        }
        assert(a.deep_view().to_set() =~= b.deep_view().to_set());
    }
    true
}

/// Tests whether a cycle matches an allow-list entry: the cycle's relative
/// file paths, as an unordered set, must equal the entry's file set
/// exactly; neither a superset nor a subset matches.
#[verifier::loop_isolation(false)]
pub fn is_cycle_allowed(cycle: &CycleInfo, allowed: &Vec<AllowedCycle>, root: &String) -> (r: bool)
    ensures
        r == spec_cycle_allowed(cycle@, allowed.deep_view(), root@),
{
    let ghost m = cycle@.edges.map_values(
        |e: CycleEdgeView| spec_relative_path(e.from_file, root@),
    );
    let mut rels: Vec<String> = Vec::new();
    let mut i: usize = 0;
    proof {
        assert(rels.deep_view() =~= m.take(0));
    }
    while i < cycle.edges.len()
        invariant
            i <= cycle.edges@.len(),
            rels.deep_view() == m.take(i as int),
        decreases cycle.edges@.len() - i,
    {
        rels.push(relative_path_string(&cycle.edges[i].from_file, root));
        proof {
            assert(m.take(i + 1) =~= m.take(i as int).push(m[i as int]));
            assert(rels.deep_view() =~= m.take(i as int).push(m[i as int]));
        }
        i = i + 1;
    }
    proof {
        assert(m.take(m.len() as int) =~= m);
    }
    let mut k: usize = 0;
    while k < allowed.len()
        invariant
            k <= allowed@.len(),
            rels.deep_view() == m,
            forall|j: int|
                0 <= j < k ==> (#[trigger] allowed.deep_view()[j]).files.to_set()
                    != spec_cycle_file_set(cycle@, root@),
        decreases allowed@.len() - k,
    {
        proof {
            assert(allowed.deep_view()[k as int] == allowed@[k as int]@);
        }
        if same_string_set(&rels, &allowed[k].files) {
            return true;
        }
        k = k + 1;
    }
    proof {
        if spec_cycle_allowed(cycle@, allowed.deep_view(), root@) {
            let j = choose|j: int|
                0 <= j < allowed.deep_view().len()
                    && (#[trigger] allowed.deep_view()[j]).files.to_set() == spec_cycle_file_set(
                    cycle@,
                    root@,
                );
            assert(false);
        }
    }
    false
}

/// The cycles that are not on the accepted baseline, in order.
pub open spec fn spec_filter_allowed(
    cycles: Seq<CycleInfoView>,
    allowed: Seq<AllowedCycleView>,
    root: Seq<char>,
    i: int,
) -> Seq<CycleInfoView>
    decreases cycles.len() - i,
{
    if i < 0 || i >= cycles.len() {
        Seq::<CycleInfoView>::empty()
    } else {
        let rest = spec_filter_allowed(cycles, allowed, root, i + 1);
        if spec_cycle_allowed(cycles[i], allowed, root) {
            rest
        } else {
            seq![cycles[i]] + rest
        }
    }
}

/// Removes cycles that match the allow-list: a cycle is removed exactly
/// when its file set, as an unordered set, equals the file set of some
/// allow-list entry.
#[verifier::loop_isolation(false)]
pub fn filter_allowed_cycles(
    cycles: Vec<CycleInfo>,
    allowed: &Vec<AllowedCycle>,
    root: &String,
) -> (r: Vec<CycleInfo>)
    ensures
        r.deep_view() == spec_filter_allowed(cycles.deep_view(), allowed.deep_view(), root@, 0),
{
    let mut out: Vec<CycleInfo> = Vec::new();
    let mut i: usize = 0;
    proof {
        assert(out.deep_view() + spec_filter_allowed(
            cycles.deep_view(),
            allowed.deep_view(),
            root@,
            0,
        ) =~= spec_filter_allowed(cycles.deep_view(), allowed.deep_view(), root@, 0));
    }
    while i < cycles.len()
        invariant
            i <= cycles@.len(),
            out.deep_view() + spec_filter_allowed(
                cycles.deep_view(),
                allowed.deep_view(),
                root@,
                i as int,
            ) == spec_filter_allowed(cycles.deep_view(), allowed.deep_view(), root@, 0),
        decreases cycles@.len() - i,
    {
        proof {
            assert(cycles.deep_view()[i as int] == cycles@[i as int]@);
        }
        let ghost old_out = out.deep_view();
        if !is_cycle_allowed(&cycles[i], allowed, root) {
            out.push(cycles[i].clone());
            proof {
                assert(out.deep_view() =~= old_out.push(cycles.deep_view()[i as int]));
                assert(old_out + (seq![cycles.deep_view()[i as int]] + spec_filter_allowed(
                    cycles.deep_view(),
                    allowed.deep_view(),
                    root@,
                    i + 1,
                )) =~= out.deep_view() + spec_filter_allowed(
                    cycles.deep_view(),
                    allowed.deep_view(),
                    root@,
                    i + 1,
                ));
            }
        }
        i = i + 1;
    }
    proof {
        assert(spec_filter_allowed(cycles.deep_view(), allowed.deep_view(), root@, cycles@.len() as int)
            =~= Seq::<CycleInfoView>::empty());
        assert(out.deep_view() + Seq::<CycleInfoView>::empty() =~= out.deep_view());
    }
    out
}

/// A cycle of the input stands in the filtered set exactly when it is not
/// on the accepted baseline: neither a superset nor a subset of an entry's
/// file set removes it, only exact equality does.
pub proof fn lemma_filter_allowed_iff(
    cycles: Seq<CycleInfoView>,
    allowed: Seq<AllowedCycleView>,
    root: Seq<char>,
    i: int,
)
    requires
        0 <= i < cycles.len(),
    ensures
        spec_filter_allowed(cycles, allowed, root, 0).contains(cycles[i]) <==> (!spec_cycle_allowed(
            cycles[i],
            allowed,
            root,
        ) || exists|j: int|
            0 <= j < cycles.len() && cycles[j] == cycles[i] && !spec_cycle_allowed(
                cycles[j],
                allowed,
                root,
            )),
{
    lemma_filter_allowed_from(cycles, allowed, root, 0, i);
}

/// Membership in the filtered suffix: a cycle at position `i >= from` is in
/// the filtered suffix exactly when some equal cycle at or after `from` is
/// not allowed.
proof fn lemma_filter_allowed_from(
    cycles: Seq<CycleInfoView>,
    allowed: Seq<AllowedCycleView>,
    root: Seq<char>,
    from: int,
    i: int,
)
    requires
        0 <= from <= i < cycles.len(),
    ensures
        spec_filter_allowed(cycles, allowed, root, from).contains(cycles[i]) <==> (
        !spec_cycle_allowed(cycles[i], allowed, root) || exists|j: int|
            from <= j < cycles.len() && cycles[j] == cycles[i] && !spec_cycle_allowed(
                cycles[j],
                allowed,
                root,
            )),
    decreases cycles.len() - from,
{
    let r = spec_filter_allowed(cycles, allowed, root, from);
    let rest = spec_filter_allowed(cycles, allowed, root, from + 1);
    if from == i {
        lemma_filter_member_witness(cycles, allowed, root, from);
        if !spec_cycle_allowed(cycles[i], allowed, root) {
            assert(r[0] == cycles[i]);
            assert(r.contains(cycles[i]));
        } else {
            if r.contains(cycles[i]) {
                let w = choose|w: int| 0 <= w < r.len() && r[w] == cycles[i];
                lemma_filter_members_not_allowed(cycles, allowed, root, from, w);
            }
        }
    } else {
        lemma_filter_allowed_from(cycles, allowed, root, from + 1, i);
        if spec_cycle_allowed(cycles[from], allowed, root) {
            assert(r == rest);
        } else {
            assert(r == seq![cycles[from]] + rest);
            if rest.contains(cycles[i]) {
                let w = choose|w: int| 0 <= w < rest.len() && rest[w] == cycles[i];
                assert(r[w + 1] == cycles[i]);
                assert(r.contains(cycles[i]));
            }
            if r.contains(cycles[i]) {
                let w = choose|w: int| 0 <= w < r.len() && r[w] == cycles[i];
                if w == 0 {
                    assert(cycles[from] == cycles[i]);
                } else {
                    assert(rest[w - 1] == cycles[i]);
                    assert(rest.contains(cycles[i]));
                }
            }
        }
    }
}

/// Every member of the filtered set is not allowed.
proof fn lemma_filter_members_not_allowed(
    cycles: Seq<CycleInfoView>,
    allowed: Seq<AllowedCycleView>,
    root: Seq<char>,
    from: int,
    w: int,
)
    requires
        0 <= w < spec_filter_allowed(cycles, allowed, root, from).len(),
    ensures
        !spec_cycle_allowed(spec_filter_allowed(cycles, allowed, root, from)[w], allowed, root),
    decreases cycles.len() - from,
{
    if 0 <= from < cycles.len() {
        let r = spec_filter_allowed(cycles, allowed, root, from);
        let rest = spec_filter_allowed(cycles, allowed, root, from + 1);
        if spec_cycle_allowed(cycles[from], allowed, root) {
            assert(r == rest);
            lemma_filter_members_not_allowed(cycles, allowed, root, from + 1, w);
        } else {
            if w == 0 {
                assert(r[0] == cycles[from]);
            } else {
                lemma_filter_members_not_allowed(cycles, allowed, root, from + 1, w - 1);
                assert(r[w] == rest[w - 1]);
            }
        }
    }
}

/// The trimmed pieces of one allow-list line, split on ` > `.
pub open spec fn spec_allowlist_files(line: Seq<char>) -> Seq<Seq<char>> {
    split_on_sub(line, " > "@).map_values(|p: Seq<char>| spec_trim(p))
}

/// The allow-list entries parsed from the lines, scanning from `i`: a line
/// that is blank or starts with `#` after trimming is skipped; any other
/// line is one entry, its files separated by ` > `.
pub open spec fn spec_parse_allowlist(lines: Seq<Seq<char>>, i: int) -> Seq<AllowedCycleView>
    decreases lines.len() - i,
{
    if i < 0 || i >= lines.len() {
        Seq::<AllowedCycleView>::empty()
    } else {
        let rest = spec_parse_allowlist(lines, i + 1);
        let t = spec_trim(lines[i]);
        if t.len() == 0 || t[0] == '#' {
            rest
        } else {
            seq![AllowedCycleView { files: spec_allowlist_files(lines[i]), reason: None }] + rest
        }
    }
}

/// Parses an allow-list in plain text: one cycle per line, files separated
/// by ` > `, lines starting with `#` and blank lines ignored.
#[verifier::loop_isolation(false)]
pub fn parse_allowlist_file(content: &str) -> (r: Vec<AllowedCycle>)
    ensures
        r.deep_view() == spec_parse_allowlist(split_on_char(content@, '\n'), 0),
{
    let text = String::from_str(content);
    let lines = crate::pathstr::split_char(&text, '\n');
    let ghost lv = lines.deep_view();
    let sep = String::from_str(" > ");
    proof {
        reveal_strlit(" > ");
        reveal_strlit("#");
    }
    let mut r: Vec<AllowedCycle> = Vec::new();
    let mut i: usize = 0;
    proof {
        assert(r.deep_view() + spec_parse_allowlist(lv, 0) =~= spec_parse_allowlist(lv, 0));
    }
    while i < lines.len()
        invariant
            i <= lines@.len(),
            lv == lines.deep_view(),
            lv.len() == lines@.len(),
            sep@ == " > "@,
            sep@.len() == 3,
            r.deep_view() + spec_parse_allowlist(lv, i as int) == spec_parse_allowlist(lv, 0),
        decreases lines@.len() - i,
    {
        proof {
            assert(lv[i as int] == lines@[i as int]@);
        }
        let t = trim_string(&lines[i]);
        let tlen = t.as_str().unicode_len();
        let ghost old_r = r.deep_view();
        if tlen == 0 || t.as_str().get_char(0) == '#' {
            // comment or blank line
        } else {
            let pieces = crate::pathstr::split_substring(&lines[i], &sep);
            let ghost m = spec_allowlist_files(lv[i as int]);
            let mut files: Vec<String> = Vec::new();
            let mut j: usize = 0;
            proof {
                assert(files.deep_view() =~= m.take(0));
            }
            while j < pieces.len()
                invariant
                    j <= pieces@.len(),
                    i < lines@.len(),
                    pieces.deep_view() == split_on_sub(lv[i as int], " > "@),
                    m == spec_allowlist_files(lv[i as int]),
                    m.len() == pieces@.len(),
                    files.deep_view() == m.take(j as int),
                decreases pieces@.len() - j,
            {
                files.push(trim_string(&pieces[j]));
                proof {
                    assert(m[j as int] == spec_trim(pieces.deep_view()[j as int]));
                    assert(m.take(j + 1) =~= m.take(j as int).push(m[j as int]));
                    assert(files.deep_view() =~= m.take(j as int).push(m[j as int]));
                }
                j = j + 1;
            }
            proof {
                assert(m.take(m.len() as int) =~= m);
            }
            r.push(AllowedCycle { files, reason: None });
            proof {
                assert(r.deep_view() =~= old_r.push(
                    AllowedCycleView { files: m, reason: None },
                ));
                assert(old_r + (seq![AllowedCycleView { files: m, reason: None }]
                    + spec_parse_allowlist(lv, i + 1)) =~= r.deep_view() + spec_parse_allowlist(
                    lv,
                    i + 1,
                ));
            }
        }
        i = i + 1;
    }
    proof {
        assert(spec_parse_allowlist(lv, lines@.len() as int) =~= Seq::<AllowedCycleView>::empty());
        assert(r.deep_view() + Seq::<AllowedCycleView>::empty() =~= r.deep_view());
    }
    r
}

/// The complete result set, shaped for JSON rendering by the caller; all
/// paths are relative to the analysis root.
pub struct JsonOutput {
    /// How many files were analyzed.
    pub total_files: usize,
    /// How many cycles are reported.
    pub total_cycles: usize,
    /// The aggregate hash over the reported cycles.
    pub cycles_hash: String,
    /// The cycles, each with its edges.
    pub cycles: Vec<JsonCycle>,
}

/// One cycle, shaped for JSON rendering.
pub struct JsonCycle {
    pub hash: String,
    pub edges: Vec<JsonEdge>,
}

/// One cycle edge, shaped for JSON rendering, with relative paths.
pub struct JsonEdge {
    pub from_file: String,
    pub to_file: String,
    pub line: u32,
    pub import_text: String,
}

/// An error message, shaped for JSON rendering.
pub struct JsonError {
    pub error: String,
}

/// The ghost shape of a rendered edge.
pub struct JsonEdgeView {
    pub from_file: Seq<char>,
    pub to_file: Seq<char>,
    pub line: u32,
    pub import_text: Seq<char>,
}

impl View for JsonEdge {
    type V = JsonEdgeView;

    open spec fn view(&self) -> JsonEdgeView {
        JsonEdgeView {
            from_file: self.from_file@,
            to_file: self.to_file@,
            line: self.line,
            import_text: self.import_text@,
        }
    }
}

impl DeepView for JsonEdge {
    type V = JsonEdgeView;

    open spec fn deep_view(&self) -> JsonEdgeView {
        self@
    }
}

/// The ghost shape of a rendered cycle.
pub struct JsonCycleView {
    pub hash: Seq<char>,
    pub edges: Seq<JsonEdgeView>,
}

impl View for JsonCycle {
    type V = JsonCycleView;

    open spec fn view(&self) -> JsonCycleView {
        JsonCycleView { hash: self.hash@, edges: self.edges.deep_view() }
    }
}

impl DeepView for JsonCycle {
    type V = JsonCycleView;

    open spec fn deep_view(&self) -> JsonCycleView {
        self@
    }
}

/// One cycle's edges, with paths made relative to the root.
pub open spec fn spec_json_edges(c: CycleInfoView, root: Seq<char>) -> Seq<JsonEdgeView> {
    c.edges.map_values(
        |e: CycleEdgeView| JsonEdgeView {
            from_file: spec_relative_path(e.from_file, root),
            to_file: spec_relative_path(e.to_file, root),
            line: e.line,
            import_text: e.import_text,
        },
    )
}

/// The rendered cycles, in order.
pub open spec fn spec_json_cycles(cycles: Seq<CycleInfoView>, root: Seq<char>) -> Seq<
    JsonCycleView,
> {
    cycles.map_values(|c: CycleInfoView| JsonCycleView { hash: c.hash, edges: spec_json_edges(c, root) })
}

/// Builds the result set for rendering: the analyzed-file count, the cycle
/// count, the aggregate hash, and each cycle's edges with relative paths.
#[verifier::loop_isolation(false)]
pub fn generate_json_output(cycles: &Vec<CycleInfo>, root: &String, total_files: usize) -> (r:
    JsonOutput)
    ensures
        r.total_files == total_files,
        r.total_cycles == cycles@.len(),
        r.cycles_hash@ == spec_cycles_hash(cycles.deep_view()),
        r.cycles.deep_view() == spec_json_cycles(cycles.deep_view(), root@),
{
    let cycles_hash = compute_cycles_hash(cycles);
    let ghost m = spec_json_cycles(cycles.deep_view(), root@);
    let mut out: Vec<JsonCycle> = Vec::new();
    let mut i: usize = 0;
    proof {
        assert(out.deep_view() =~= m.take(0));
    }
    while i < cycles.len()
        invariant
            i <= cycles@.len(),
            m == spec_json_cycles(cycles.deep_view(), root@),
            m.len() == cycles@.len(),
            out.deep_view() == m.take(i as int),
        decreases cycles@.len() - i,
    {
        let ghost me = spec_json_edges(cycles.deep_view()[i as int], root@);
        let mut edges: Vec<JsonEdge> = Vec::new();
        let mut j: usize = 0;
        proof {
            assert(cycles.deep_view()[i as int] == cycles@[i as int]@);
            assert(edges.deep_view() =~= me.take(0));
        }
        while j < cycles[i].edges.len()
            invariant
                i < cycles@.len(),
                j <= cycles@[i as int].edges@.len(),
                me == spec_json_edges(cycles.deep_view()[i as int], root@),
                me.len() == cycles@[i as int].edges@.len(),
                edges.deep_view() == me.take(j as int),
            decreases cycles@[i as int].edges@.len() - j,
        {
            let e = &cycles[i].edges[j];
            edges.push(
                JsonEdge {
                    from_file: relative_path_string(&e.from_file, root),
                    to_file: relative_path_string(&e.to_file, root),
                    line: e.line,
                    import_text: e.import_text.clone(),
                },
            );
            proof {
                assert(me.take(j + 1) =~= me.take(j as int).push(me[j as int]));
                assert(edges.deep_view() =~= me.take(j as int).push(me[j as int]));
            }
            j = j + 1;
        }
        proof {
            assert(me.take(me.len() as int) =~= me);
        }
        out.push(JsonCycle { hash: cycles[i].hash.clone(), edges });
        proof {
            assert(m.take(i + 1) =~= m.take(i as int).push(m[i as int]));
            assert(out.deep_view() =~= m.take(i as int).push(m[i as int]));
        }
        i = i + 1;
    }
    proof {
        assert(m.take(m.len() as int) =~= m);
    }
    JsonOutput { total_files, total_cycles: cycles.len(), cycles_hash, cycles: out }
}

/// A not-allowed cycle after `from` is in the filtered suffix.
proof fn lemma_filter_member_witness(
    cycles: Seq<CycleInfoView>,
    allowed: Seq<AllowedCycleView>,
    root: Seq<char>,
    from: int,
)
    requires
        from >= 0,
    ensures
        forall|j: int|
            from <= j < cycles.len() && !spec_cycle_allowed(#[trigger] cycles[j], allowed, root)
                ==> spec_filter_allowed(cycles, allowed, root, from).contains(cycles[j]),
    decreases cycles.len() - from,
{
    if from < cycles.len() {
        lemma_filter_member_witness(cycles, allowed, root, from + 1);
        let r = spec_filter_allowed(cycles, allowed, root, from);
        let rest = spec_filter_allowed(cycles, allowed, root, from + 1);
        assert forall|j: int|
            from <= j < cycles.len() && !spec_cycle_allowed(#[trigger] cycles[j], allowed, root)
            implies r.contains(cycles[j]) by {
            if j == from {
                assert(r[0] == cycles[j]);
            } else {
                assert(rest.contains(cycles[j]));
                let w = choose|w: int| 0 <= w < rest.len() && rest[w] == cycles[j];
                if spec_cycle_allowed(cycles[from], allowed, root) {
                    assert(r[w] == cycles[j]);
                } else {
                    assert(r[w + 1] == cycles[j]);
                }
            }
        }
    }
}

} // verus!