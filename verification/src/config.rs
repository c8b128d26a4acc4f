//! Configuration values: the accepted-baseline allow-list, the
//! configuration-file shape, merging of command-line and file settings, and
//! the walk that finds the nearest configuration file.

use crate::cycles::CycleInfo;
use crate::fileset::FileSet;
use crate::pathstr::{relative_path_string, spec_parent_dir, spec_relative_path, str_eq, parent_dir};
use vstd::prelude::*;

verus! {

/// An accepted cycle that is filtered from the report.
pub struct AllowedCycle {
    /// The files that form the cycle, as paths relative to the root.
    pub files: Vec<String>,
    /// An optional reason for accepting it.
    pub reason: Option<String>,
}

/// The ghost shape of an allow-list entry.
pub struct AllowedCycleView {
    pub files: Seq<Seq<char>>,
    pub reason: Option<Seq<char>>,
}

impl View for AllowedCycle {
    type V = AllowedCycleView;

    open spec fn view(&self) -> AllowedCycleView {
        AllowedCycleView { files: self.files.deep_view(), reason: self.reason.deep_view() }
    }
}

impl DeepView for AllowedCycle {
    type V = AllowedCycleView;

    open spec fn deep_view(&self) -> AllowedCycleView {
        self@
    }
}

impl Clone for AllowedCycle {
    fn clone(&self) -> (r: Self)
        ensures
            r@ == self@,
    {
        let files = self.files.clone();
        proof {
            assert(files.deep_view() =~= self.files.deep_view());
        }
        AllowedCycle { files, reason: self.reason.clone() }
    }
}

/// The settings a configuration file can hold.
pub struct CddConfig {
    /// Directories excluded from analysis.
    pub exclude: Option<Vec<String>>,
    /// Whether imports that carry types only are ignored.
    pub ignore_type_imports: Option<bool>,
    /// The number of cycles expected by the caller's gate.
    pub expected_cycles: Option<usize>,
    /// Where the compiler configuration for path aliases lives.
    pub tsconfig_path: Option<String>,
    /// The aggregate hash expected by the caller's gate.
    pub expected_hash: Option<String>,
    /// The accepted baseline of cycles.
    pub allowed_cycles: Option<Vec<AllowedCycle>>,
}

/// The ghost shape of a configuration file.
pub struct CddConfigView {
    pub exclude: Option<Seq<Seq<char>>>,
    pub ignore_type_imports: Option<bool>,
    pub expected_cycles: Option<usize>,
    pub tsconfig_path: Option<Seq<char>>,
    pub expected_hash: Option<Seq<char>>,
    pub allowed_cycles: Option<Seq<AllowedCycleView>>,
}

impl View for CddConfig {
    type V = CddConfigView;

    open spec fn view(&self) -> CddConfigView {
        CddConfigView {
            exclude: self.exclude.deep_view(),
            ignore_type_imports: self.ignore_type_imports,
            expected_cycles: self.expected_cycles,
            tsconfig_path: self.tsconfig_path.deep_view(),
            expected_hash: self.expected_hash.deep_view(),
            allowed_cycles: match self.allowed_cycles {
                Some(ref v) => Some(v.deep_view()),
                None => None,
            },
        }
    }
}

impl CddConfig {
    /// A configuration with nothing set.
    pub fn empty() -> (r: CddConfig)
        ensures
            r@.exclude == None::<Seq<Seq<char>>>,
            r@.ignore_type_imports == None::<bool>,
            r@.expected_cycles == None::<usize>,
            r@.tsconfig_path == None::<Seq<char>>,
            r@.expected_hash == None::<Seq<char>>,
            r@.allowed_cycles == None::<Seq<AllowedCycleView>>,
    {
        CddConfig {
            exclude: None,
            ignore_type_imports: None,
            expected_cycles: None,
            tsconfig_path: None,
            expected_hash: None,
            allowed_cycles: None,
        }
    }
}

/// Command-line options, as the caller's argument parser hands them over.
pub struct Cli {
    /// The root directory to analyze.
    pub dir: String,
    /// Directories to exclude.
    pub exclude: Vec<String>,
    /// Whether debug logging is on.
    pub debug: bool,
    /// The expected number of cycles.
    pub number_of_cycles: usize,
}

/// One parsed configuration file under the path it was found at.
pub struct ConfigStoreEntry {
    pub path: String,
    pub config: CddConfig,
}

/// The configuration files the caller has read and parsed, each under its
/// path. A file that exists but could not be parsed has no entry.
pub struct ConfigStore {
    pub entries: Vec<ConfigStoreEntry>,
}

impl ConfigStore {
    /// The store as a ghost association list.
    pub open spec fn store_view(&self) -> Seq<(Seq<char>, CddConfigView)> {
        Seq::new(self.entries@.len(), |i: int| (self.entries@[i].path@, self.entries@[i].config@))
    }

    /// Looks up the parsed configuration stored under `path`.
    fn get(&self, path: &String) -> (r: Option<&CddConfig>)
        ensures
            match r {
                Some(c) => Some(c@) == spec_config_lookup(self.store_view(), path@, 0),
                None => spec_config_lookup(self.store_view(), path@, 0) == None::<CddConfigView>,
            },
    {
        let mut i: usize = 0;
        while i < self.entries.len()
            invariant
                i <= self.entries@.len(),
                spec_config_lookup(self.store_view(), path@, 0) == spec_config_lookup(
                    self.store_view(),
                    path@,
                    i as int,
                ),
            decreases self.entries@.len() - i,
        {
            if str_eq(&self.entries[i].path, path) {
                return Some(&self.entries[i].config);
            }
            i = i + 1;
        }
        None
    }
}

/// The parsed configuration under `path`, scanning from `i`.
pub open spec fn spec_config_lookup(
    sv: Seq<(Seq<char>, CddConfigView)>,
    path: Seq<char>,
    i: int,
) -> Option<CddConfigView>
    decreases sv.len() - i,
{
    if i < 0 || i >= sv.len() {
        None
    } else if sv[i].0 == path {
        Some(sv[i].1)
    } else {
        spec_config_lookup(sv, path, i + 1)
    }
}

/// What one directory yields in the configuration search: the first of the
/// known configuration file names that exists and parsed.
pub open spec fn spec_config_at(
    fs: &FileSet,
    sv: Seq<(Seq<char>, CddConfigView)>,
    dir: Seq<char>,
) -> Option<(Seq<char>, CddConfigView)> {
    let p1 = crate::pathstr::spec_join_path(dir, ".cddrc.json"@);
    let p2 = crate::pathstr::spec_join_path(dir, "cdd.config.json"@);
    let c1 = if fs.spec_is_file(p1) {
        spec_config_lookup(sv, p1, 0)
    } else {
        None
    };
    match c1 {
        Some(c) => Some((p1, c)),
        None => {
            let c2 = if fs.spec_is_file(p2) {
                spec_config_lookup(sv, p2, 0)
            } else {
                None
            };
            match c2 {
                Some(c) => Some((p2, c)),
                None => None,
            }
        },
    }
}

/// The configuration search from `dir` upward: the nearest directory with a
/// readable configuration file wins; the walk stops above the root.
pub open spec fn spec_find_config(
    fs: &FileSet,
    sv: Seq<(Seq<char>, CddConfigView)>,
    dir: Seq<char>,
    fuel: nat,
) -> Option<(Seq<char>, CddConfigView)>
    decreases fuel,
{
    match spec_config_at(fs, sv, dir) {
        Some(r) => Some(r),
        None => {
            let parent = spec_parent_dir(dir);
            if parent.len() >= dir.len() || fuel == 0 {
                None
            } else {
                spec_find_config(fs, sv, parent, (fuel - 1) as nat)
            }
        },
    }
}

/// Searches for a configuration file from `start_dir` upward and returns
/// its path and parsed contents. A file that exists but did not parse is
/// passed over and the search continues.
pub fn find_config(start_dir: &String, fs: &FileSet, store: &ConfigStore) -> (r: Option<(
    String,
    CddConfig,
)>)
    ensures
        match r {
            Some(pc) => Some((pc.0@, pc.1@)) == spec_find_config(
                fs,
                store.store_view(),
                start_dir@,
                start_dir@.len() as nat,
            ),
            None => spec_find_config(fs, store.store_view(), start_dir@, start_dir@.len() as nat)
                == None::<(Seq<char>, CddConfigView)>,
        },
{
    let mut dir = start_dir.clone();
    let mut fuel = start_dir.as_str().unicode_len();
    loop
        invariant
            spec_find_config(fs, store.store_view(), start_dir@, start_dir@.len() as nat)
                == spec_find_config(fs, store.store_view(), dir@, fuel as nat),
        decreases fuel,
    {
        let p1 = crate::pathstr::join_path(&dir, &String::from_str(".cddrc.json"));
        if fs.is_file(&p1) {
            if let Some(c) = store.get(&p1) {
                return Some((p1, c.clone_config()));
            }
        }
        let p2 = crate::pathstr::join_path(&dir, &String::from_str("cdd.config.json"));
        if fs.is_file(&p2) {
            if let Some(c) = store.get(&p2) {
                return Some((p2, c.clone_config()));
            }
        }
        let parent = parent_dir(&dir);
        let plen = parent.as_str().unicode_len();
        let dlen = dir.as_str().unicode_len();
        if plen >= dlen || fuel == 0 {
            return None;
        }
        dir = parent;
        fuel = fuel - 1;
    }
}

impl CddConfig {
    /// A field-for-field copy.
    pub fn clone_config(&self) -> (r: CddConfig)
        ensures
            r@ == self@,
    {
        let allowed: Option<Vec<AllowedCycle>> = match &self.allowed_cycles {
            Some(v) => {
                let c = v.clone();
                proof {
                    assert forall|i: int| 0 <= i < v@.len() implies c.deep_view()[i]
                        == v.deep_view()[i] by {
                        assert(cloned::<AllowedCycle>(v@[i], c@[i]));
                    }
                    assert(c.deep_view() =~= v.deep_view());
                }
                Some(c)
            },
            None => None,
        };
        let exclude: Option<Vec<String>> = match &self.exclude {
            Some(v) => {
                let c = v.clone();
                proof {
                    assert(c.deep_view() =~= v.deep_view());
                }
                Some(c)
            },
            None => None,
        };
        CddConfig {
            exclude,
            ignore_type_imports: self.ignore_type_imports,
            expected_cycles: self.expected_cycles,
            tsconfig_path: self.tsconfig_path.clone(),
            expected_hash: self.expected_hash.clone(),
            allowed_cycles: allowed,
        }
    }
}

/// The accepted baseline built from a set of detected cycles: each cycle's
/// relative from-paths become one allow-list entry.
pub open spec fn spec_baseline(
    cycles: Seq<crate::cycles::CycleInfoView>,
    root: Seq<char>,
    i: int,
) -> Seq<AllowedCycleView>
    decreases cycles.len() - i,
{
    if i < 0 || i >= cycles.len() {
        Seq::<AllowedCycleView>::empty()
    } else {
        seq![
            AllowedCycleView {
                files: cycles[i].edges.map_values(
                    |e: crate::cycles::CycleEdgeView| spec_relative_path(e.from_file, root),
                ),
                reason: None,
            },
        ] + spec_baseline(cycles, root, i + 1)
    }
}

/// Turns detected cycles into an accepted baseline: one allow-list entry
/// per cycle, holding its relative file paths.
#[verifier::loop_isolation(false)]
pub fn baseline_from_cycles(cycles: &Vec<CycleInfo>, root: &String) -> (r: Vec<AllowedCycle>)
    ensures
        r.deep_view() == spec_baseline(cycles.deep_view(), root@, 0),
{
    let mut r: Vec<AllowedCycle> = Vec::new();
    let mut i: usize = 0;
    proof {
        assert(r.deep_view() + spec_baseline(cycles.deep_view(), root@, 0) =~= spec_baseline(
            cycles.deep_view(),
            root@,
            0,
        ));
    }
    while i < cycles.len()
        invariant
            i <= cycles@.len(),
            r.deep_view() + spec_baseline(cycles.deep_view(), root@, i as int) == spec_baseline(
                cycles.deep_view(),
                root@,
                0,
            ),
        decreases cycles@.len() - i,
    {
        let ghost m = cycles.deep_view()[i as int].edges.map_values(
            |e: crate::cycles::CycleEdgeView| spec_relative_path(e.from_file, root@),
        );
        let mut files: Vec<String> = Vec::new();
        let mut j: usize = 0;
        proof {
            assert(cycles.deep_view()[i as int] == cycles@[i as int]@);
            assert(files.deep_view() =~= m.take(0));
        }
        while j < cycles[i].edges.len()
            invariant
                i < cycles@.len(),
                j <= cycles@[i as int].edges@.len(),
                m == cycles.deep_view()[i as int].edges.map_values(
                    |e: crate::cycles::CycleEdgeView| spec_relative_path(e.from_file, root@),
                ),
                m.len() == cycles@[i as int].edges@.len(),
                files.deep_view() == m.take(j as int),
            decreases cycles@[i as int].edges@.len() - j,
        {
            files.push(relative_path_string(&cycles[i].edges[j].from_file, root));
            proof {
                assert(m.take(j + 1) =~= m.take(j as int).push(m[j as int]));
                assert(files.deep_view() =~= m.take(j as int).push(m[j as int]));
            }
            j = j + 1;
        }
        proof {
            assert(m.take(m.len() as int) =~= m);
        }
        let ghost old_r = r.deep_view();
        r.push(AllowedCycle { files, reason: None });
        proof {
            assert(r.deep_view() =~= old_r.push(AllowedCycleView { files: m, reason: None }));
            assert(old_r + (seq![AllowedCycleView { files: m, reason: None }] + spec_baseline(
                cycles.deep_view(),
                root@,
                i + 1,
            )) =~= r.deep_view() + spec_baseline(cycles.deep_view(), root@, i + 1));
        }
        i = i + 1;
    }
    proof {
        assert(spec_baseline(cycles.deep_view(), root@, cycles@.len() as int) =~= Seq::<
            AllowedCycleView,
        >::empty());
        assert(r.deep_view() + Seq::<AllowedCycleView>::empty() =~= r.deep_view());
    }
    r
}

/// Settings merged from command-line arguments and a configuration file;
/// the command line wins where both speak.
pub struct MergedConfig {
    pub exclude: Vec<String>,
    pub ignore_type_imports: bool,
    pub expected_cycles: usize,
    pub tsconfig_path: Option<String>,
    pub expected_hash: Option<String>,
    pub allowed_cycles: Vec<AllowedCycle>,
}

/// The excludes of the file configuration with the command-line additions
/// appended, each only when not already present.
pub open spec fn spec_merge_excludes(base: Seq<Seq<char>>, cli: Seq<Seq<char>>, i: int) -> Seq<
    Seq<char>,
>
    decreases cli.len() - i,
{
    if i < 0 || i >= cli.len() {
        base
    } else if base.contains(cli[i]) {
        spec_merge_excludes(base, cli, i + 1)
    } else {
        spec_merge_excludes(base.push(cli[i]), cli, i + 1)
    }
}

impl MergedConfig {
    /// Merges command-line arguments with an optional configuration file:
    /// excludes are unioned in order; the type-only flag is on when either
    /// side sets it; the expected cycle count, compiler-configuration path
    /// and expected hash each take the command-line value when given, else
    /// the file's, else a default; allow-list entries from the file and the
    /// extra list are concatenated.
    #[verifier::loop_isolation(false)]
    pub fn new(
        cli_exclude: Vec<String>,
        cli_ignore_type_imports: bool,
        cli_expected_cycles: Option<usize>,
        cli_tsconfig_path: Option<String>,
        cli_expected_hash: Option<String>,
        cli_allowlist: Option<Vec<AllowedCycle>>,
        file_config: Option<CddConfig>,
    ) -> (r: MergedConfig)
        ensures
            r.exclude.deep_view() == spec_merge_excludes(
                match file_config {
                    Some(ref c) => match c@.exclude {
                        Some(e) => e,
                        None => Seq::<Seq<char>>::empty(),
                    },
                    None => Seq::<Seq<char>>::empty(),
                },
                cli_exclude.deep_view(),
                0,
            ),
            r.ignore_type_imports == (cli_ignore_type_imports || (match file_config {
                Some(ref c) => c@.ignore_type_imports == Some(true),
                None => false,
            })),
            r.expected_cycles == (match cli_expected_cycles {
                Some(n) => n,
                None => match file_config {
                    Some(ref c) => match c@.expected_cycles {
                        Some(n) => n,
                        None => 0,
                    },
                    None => 0,
                },
            }),
            r.tsconfig_path.deep_view() == (match cli_tsconfig_path {
                Some(ref p) => Some(p@),
                None => match file_config {
                    Some(ref c) => c@.tsconfig_path,
                    None => None::<Seq<char>>,
                },
            }),
            r.expected_hash.deep_view() == (match cli_expected_hash {
                Some(ref h) => Some(h@),
                None => match file_config {
                    Some(ref c) => c@.expected_hash,
                    None => None::<Seq<char>>,
                },
            }),
            r.allowed_cycles.deep_view() == (match file_config {
                Some(ref c) => match c@.allowed_cycles {
                    Some(a) => a,
                    None => Seq::<AllowedCycleView>::empty(),
                },
                None => Seq::<AllowedCycleView>::empty(),
            }) + (match cli_allowlist {
                Some(ref a) => a.deep_view(),
                None => Seq::<AllowedCycleView>::empty(),
            }),
    {
        let file_config = match file_config {
            Some(c) => c,
            None => CddConfig::empty(),
        };
        let mut exclude: Vec<String> = match file_config.exclude {
            Some(e) => e,
            None => Vec::new(),
        };
        let ghost base = exclude.deep_view();
        proof {
            if exclude@.len() == 0 {
                assert(exclude.deep_view() =~= Seq::<Seq<char>>::empty());
            }
        }
        let mut i: usize = 0;
        while i < cli_exclude.len()
            invariant
                i <= cli_exclude@.len(),
                spec_merge_excludes(base, cli_exclude.deep_view(), 0) == spec_merge_excludes(
                    exclude.deep_view(),
                    cli_exclude.deep_view(),
                    i as int,
                ),
            decreases cli_exclude@.len() - i,
        {
            let ghost old_ex = exclude.deep_view();
            if !crate::cycles::contains_string(&exclude, &cli_exclude[i]) {
                exclude.push(cli_exclude[i].clone());
                proof {
                    assert(exclude.deep_view() =~= old_ex.push(cli_exclude.deep_view()[i as int]));
                }
            }
            i = i + 1;
        }
        let ignore_type_imports = if cli_ignore_type_imports {
            true
        } else {
            match file_config.ignore_type_imports {
                Some(b) => b,
                None => false,
            }
        };
        let expected_cycles = match cli_expected_cycles {
            Some(n) => n,
            None => match file_config.expected_cycles {
                Some(n) => n,
                None => 0,
            },
        };
        let tsconfig_path = match cli_tsconfig_path {
            Some(p) => Some(p),
            None => file_config.tsconfig_path,
        };
        let expected_hash = match cli_expected_hash {
            Some(h) => Some(h),
            None => file_config.expected_hash,
        };
        let mut allowed_cycles: Vec<AllowedCycle> = match file_config.allowed_cycles {
            Some(a) => a,
            None => Vec::new(),
        };
        proof {
            if allowed_cycles@.len() == 0 {
                assert(allowed_cycles.deep_view() =~= Seq::<AllowedCycleView>::empty());
            }
        }
        let ghost base_allowed = allowed_cycles.deep_view();
        match cli_allowlist {
            Some(extra) => {
                let mut j: usize = 0;
                while j < extra.len()
                    invariant
                        j <= extra@.len(),
                        allowed_cycles.deep_view() == base_allowed + extra.deep_view().take(
                            j as int,
                        ),
                    decreases extra@.len() - j,
                {
                    let ghost old_a = allowed_cycles.deep_view();
                    allowed_cycles.push(extra[j].clone());
                    proof {
                        assert(allowed_cycles.deep_view() =~= old_a.push(
                            extra.deep_view()[j as int],
                        ));
                        assert(base_allowed + extra.deep_view().take(j + 1) =~= old_a.push(
                            extra.deep_view()[j as int],
                        ));
                    }
                    j = j + 1;
                }
                proof {
                    assert(extra.deep_view().take(extra@.len() as int) =~= extra.deep_view());
                }
            },
            None => {
                proof {
                    assert(base_allowed + Seq::<AllowedCycleView>::empty() =~= base_allowed);
                }
            },
        }
        MergedConfig {
            exclude,
            ignore_type_imports,
            expected_cycles,
            tsconfig_path,
            expected_hash,
            allowed_cycles,
        }
    }
}

} // verus!
