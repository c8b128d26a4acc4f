//! Compiler path-alias configuration and resolution.
//!
//! The caller reads and parses each configuration file outside this crate
//! and hands the parsed fields over as `TsConfigData`; walking the
//! `extends` chain, merging (closer configuration wins on conflicting
//! keys), and resolving import specifiers through the alias table are
//! verified here.

use crate::fileset::FileSet;
use crate::pathstr::{
    find_last, join_path, normalize_path, parent_dir, spec_join_path, spec_parent_dir,
    str_concat, str_eq, str_starts_with, substr_string,
};
use crate::resolver::{probe, spec_probe};
use vstd::prelude::*;

verus! {

/// One alias mapping: a pattern (possibly ending in `*`) and its ordered
/// replacement path templates.
pub struct AliasEntry {
    pub pattern: String,
    pub replacements: Vec<String>,
}

/// The ghost shape of an alias entry.
pub struct AliasEntryView {
    pub pattern: Seq<char>,
    pub replacements: Seq<Seq<char>>,
}

impl View for AliasEntry {
    type V = AliasEntryView;

    open spec fn view(&self) -> AliasEntryView {
        AliasEntryView { pattern: self.pattern@, replacements: self.replacements.deep_view() }
    }
}

impl DeepView for AliasEntry {
    type V = AliasEntryView;

    open spec fn deep_view(&self) -> AliasEntryView {
        self@
    }
}

impl Clone for AliasEntry {
    fn clone(&self) -> (r: Self)
        ensures
            r@ == self@,
    {
        let r = AliasEntry { pattern: self.pattern.clone(), replacements: self.replacements.clone() };
        proof {
            assert(r@.replacements =~= self@.replacements);
        }
        r
    }
}

/// Resolved path-alias configuration: an optional fallback base directory,
/// the alias table, and the directory of the configuration file, which all
/// replacement paths are relative to.
pub struct PathAliases {
    pub base_url: Option<String>,
    pub paths: Vec<AliasEntry>,
    pub config_dir: String,
}

/// The ghost shape of a `PathAliases`.
pub struct PathAliasesView {
    pub base_url: Option<Seq<char>>,
    pub paths: Seq<AliasEntryView>,
    pub config_dir: Seq<char>,
}

impl View for PathAliases {
    type V = PathAliasesView;

    open spec fn view(&self) -> PathAliasesView {
        PathAliasesView {
            base_url: self.base_url.deep_view(),
            paths: self.paths.deep_view(),
            config_dir: self.config_dir@,
        }
    }
}

/// The first probe success among the replacement paths of an exact-match
/// entry, each joined to the configuration directory, scanning from `i`.
pub open spec fn spec_probe_replacements(
    fs: &FileSet,
    dir: Seq<char>,
    reps: Seq<Seq<char>>,
    i: int,
) -> Option<Seq<char>>
    decreases reps.len() - i,
{
    if i < 0 || i >= reps.len() {
        None
    } else {
        match spec_probe(fs, spec_join_path(dir, reps[i])) {
            Some(p) => Some(p),
            None => spec_probe_replacements(fs, dir, reps, i + 1),
        }
    }
}

/// Exact-match resolution: the first entry whose pattern equals the
/// specifier decides, its replacements probed in order.
pub open spec fn spec_exact_alias(
    fs: &FileSet,
    dir: Seq<char>,
    entries: Seq<AliasEntryView>,
    import: Seq<char>,
    i: int,
) -> Option<Seq<char>>
    decreases entries.len() - i,
{
    if i < 0 || i >= entries.len() {
        None
    } else if entries[i].pattern == import {
        spec_probe_replacements(fs, dir, entries[i].replacements, 0)
    } else {
        spec_exact_alias(fs, dir, entries, import, i + 1)
    }
}

/// Wildcard resolution within one entry: each replacement template ending
/// in `*` has the captured suffix substituted and the result probed.
pub open spec fn spec_wild_replacements(
    fs: &FileSet,
    dir: Seq<char>,
    reps: Seq<Seq<char>>,
    suffix: Seq<char>,
    i: int,
) -> Option<Seq<char>>
    decreases reps.len() - i,
{
    if i < 0 || i >= reps.len() {
        None
    } else if reps[i].len() > 0 && reps[i].last() == '*' {
        let cand = spec_join_path(spec_join_path(dir, reps[i].drop_last()), suffix);
        match spec_probe(fs, cand) {
            Some(p) => Some(p),
            None => spec_wild_replacements(fs, dir, reps, suffix, i + 1),
        }
    } else {
        spec_wild_replacements(fs, dir, reps, suffix, i + 1)
    }
}

/// Wildcard resolution across the alias table: for each pattern ending in
/// `*` whose prefix starts the specifier, the captured suffix is
/// substituted into that entry's replacement templates.
pub open spec fn spec_wild_alias(
    fs: &FileSet,
    dir: Seq<char>,
    entries: Seq<AliasEntryView>,
    import: Seq<char>,
    i: int,
) -> Option<Seq<char>>
    decreases entries.len() - i,
{
    if i < 0 || i >= entries.len() {
        None
    } else {
        let p = entries[i].pattern;
        if p.len() > 0 && p.last() == '*' && p.drop_last().is_prefix_of(import) {
            match spec_wild_replacements(
                fs,
                dir,
                entries[i].replacements,
                import.skip(p.len() - 1),
                0,
            ) {
                Some(r) => Some(r),
                None => spec_wild_alias(fs, dir, entries, import, i + 1),
            }
        } else {
            spec_wild_alias(fs, dir, entries, import, i + 1)
        }
    }
}

/// Alias resolution: exact patterns first, then wildcard patterns, then the
/// base URL as an unverified last resort.
pub open spec fn spec_alias_resolve(fs: &FileSet, a: PathAliasesView, import: Seq<char>) -> Option<
    Seq<char>,
> {
    match spec_exact_alias(fs, a.config_dir, a.paths, import, 0) {
        Some(p) => Some(p),
        None => match spec_wild_alias(fs, a.config_dir, a.paths, import, 0) {
            Some(p) => Some(p),
            None => match a.base_url {
                Some(bu) => Some(spec_join_path(bu, import)),
                None => None,
            },
        },
    }
}

impl PathAliases {
    /// Probes the replacements of one entry in order.
    fn probe_replacements(&self, fs: &FileSet, reps: &Vec<String>) -> (r: Option<String>)
        ensures
            match r {
                Some(p) => Some(p@) == spec_probe_replacements(
                    fs,
                    self.config_dir@,
                    reps.deep_view(),
                    0,
                ),
                None => spec_probe_replacements(fs, self.config_dir@, reps.deep_view(), 0)
                    == None::<Seq<char>>,
            },
    {
        let mut i: usize = 0;
        while i < reps.len()
            invariant
                i <= reps.len(),
                reps.deep_view().len() == reps.len(),
                spec_probe_replacements(fs, self.config_dir@, reps.deep_view(), 0)
                    == spec_probe_replacements(fs, self.config_dir@, reps.deep_view(), i as int),
            decreases reps.len() - i,
        {
            let cand = join_path(&self.config_dir, &reps[i]);
            if let Some(p) = probe(fs, &cand) {
                return Some(p);
            }
            i = i + 1;
        }
        None
    }

    /// Substitutes `suffix` into each `*`-ending replacement of one entry
    /// and probes the results in order.
    fn wild_replacements(&self, fs: &FileSet, reps: &Vec<String>, suffix: &String) -> (r: Option<
        String,
    >)
        ensures
            match r {
                Some(p) => Some(p@) == spec_wild_replacements(
                    fs,
                    self.config_dir@,
                    reps.deep_view(),
                    suffix@,
                    0,
                ),
                None => spec_wild_replacements(fs, self.config_dir@, reps.deep_view(), suffix@, 0)
                    == None::<Seq<char>>,
            },
    {
        let mut i: usize = 0;
        while i < reps.len()
            invariant
                i <= reps.len(),
                reps.deep_view().len() == reps.len(),
                spec_wild_replacements(fs, self.config_dir@, reps.deep_view(), suffix@, 0)
                    == spec_wild_replacements(
                    fs,
                    self.config_dir@,
                    reps.deep_view(),
                    suffix@,
                    i as int,
                ),
            decreases reps.len() - i,
        {
            let rep = &reps[i];
            let rlen = rep.as_str().unicode_len();
            if rlen > 0 && rep.as_str().get_char(rlen - 1) == '*' {
                let base = substr_string(rep, 0, rlen - 1);
                proof {
                    assert(base@ =~= reps.deep_view()[i as int].drop_last());
                }
                let cand = join_path(&join_path(&self.config_dir, &base), suffix);
                if let Some(p) = probe(fs, &cand) {
                    return Some(p);
                }
            }
            i = i + 1;
        }
        None
    }

    /// The exact-match pass: the first entry whose pattern equals the
    /// specifier decides.
    fn exact_pass(&self, import: &String, fs: &FileSet) -> (r: Option<String>)
        ensures
            match r {
                Some(p) => Some(p@) == spec_exact_alias(
                    fs,
                    self.config_dir@,
                    self.paths.deep_view(),
                    import@,
                    0,
                ),
                None => spec_exact_alias(fs, self.config_dir@, self.paths.deep_view(), import@, 0)
                    == None::<Seq<char>>,
            },
    {
        let mut i: usize = 0;
        while i < self.paths.len()
            invariant
                i <= self.paths.len(),
                self.paths.deep_view().len() == self.paths.len(),
                spec_exact_alias(fs, self.config_dir@, self.paths.deep_view(), import@, 0)
                    == spec_exact_alias(
                    fs,
                    self.config_dir@,
                    self.paths.deep_view(),
                    import@,
                    i as int,
                ),
            decreases self.paths.len() - i,
        {
            proof {
                assert(self.paths.deep_view()[i as int] == self.paths@[i as int]@);
            }
            if str_eq(&self.paths[i].pattern, import) {
                return self.probe_replacements(fs, &self.paths[i].replacements);
            }
            i = i + 1;
        }
        None
    }

    /// Attempts to resolve an import specifier through the alias table:
    /// exact patterns first, then wildcard patterns (probing substituted
    /// candidates for existence), and finally, when a base URL is
    /// configured, the specifier under the base URL, unconditionally.
    pub fn resolve(&self, import: &String, fs: &FileSet) -> (r: Option<String>)
        ensures
            match r {
                Some(p) => Some(p@) == spec_alias_resolve(fs, self@, import@),
                None => spec_alias_resolve(fs, self@, import@) == None::<Seq<char>>,
            },
    {
        if let Some(p) = self.exact_pass(import, fs) {
            return Some(p);
        }
        let mut j: usize = 0;
        while j < self.paths.len()
            invariant
                j <= self.paths.len(),
                self.paths.deep_view().len() == self.paths.len(),
                spec_exact_alias(fs, self.config_dir@, self.paths.deep_view(), import@, 0)
                    == None::<Seq<char>>,
                spec_wild_alias(fs, self.config_dir@, self.paths.deep_view(), import@, 0)
                    == spec_wild_alias(
                    fs,
                    self.config_dir@,
                    self.paths.deep_view(),
                    import@,
                    j as int,
                ),
            decreases self.paths.len() - j,
        {
            proof {
                assert(self.paths.deep_view()[j as int] == self.paths@[j as int]@);
            }
            let pat = &self.paths[j].pattern;
            let plen = pat.as_str().unicode_len();
            if plen > 0 && pat.as_str().get_char(plen - 1) == '*' {
                let prefix = substr_string(pat, 0, plen - 1);
                proof {
                    assert(prefix@ =~= self.paths.deep_view()[j as int].pattern.drop_last());
                }
                if str_starts_with(import, &prefix) {
                    let ilen = import.as_str().unicode_len();
                    let suffix = substr_string(import, plen - 1, ilen);
                    proof {
                        assert(suffix@ =~= import@.skip(
                            self.paths.deep_view()[j as int].pattern.len() - 1,
                        ));
                    }
                    if let Some(p) = self.wild_replacements(
                        fs,
                        &self.paths[j].replacements,
                        &suffix,
                    ) {
                        return Some(p);
                    }
                }
            }
            j = j + 1;
        }
        match &self.base_url {
            Some(bu) => Some(join_path(bu, import)),
            None => None,
        }
    }
}

/// Whether the file name of `p` has the `json` extension.
pub open spec fn spec_has_json_ext(p: Seq<char>) -> bool {
    let name = p.skip(find_last(p, '/') + 1);
    let di = find_last(name, '.');
    di > 0 && name.skip(di + 1) == "json"@
}

/// Tests whether the file name of `p` ends in `.json`.
fn has_json_ext(p: &String) -> (r: bool)
    ensures
        r == spec_has_json_ext(p@),
{
    let plen = p.as_str().unicode_len();
    proof {
        crate::pathstr::lemma_find_last_range(p@, '/');
    }
    let name_start: usize = match crate::pathstr::find_last_char(p, '/') {
        None => 0,
        Some(i) => i + 1,
    };
    let name = substr_string(p, name_start, plen);
    proof {
        assert(name@ =~= p@.skip(find_last(p@, '/') + 1));
        crate::pathstr::lemma_find_last_range(name@, '.');
    }
    let nlen = name.as_str().unicode_len();
    match crate::pathstr::find_last_char(&name, '.') {
        None => false,
        Some(0) => false,
        Some(d) => {
            let ext = substr_string(&name, d + 1, nlen);
            proof {
                assert(ext@ =~= name@.skip(find_last(name@, '.') + 1));
            }
            str_eq(&ext, &String::from_str("json"))
        },
    }
}

/// Where an `extends` reference leads: a relative reference is tried as a
/// file beside the configuration (with `.json` appended when the name has
/// no such extension), then as a directory holding `tsconfig.json`; a bare
/// reference is tried under `node_modules`, then with `tsconfig.json`
/// inside it.
pub open spec fn spec_resolve_extends(fs: &FileSet, extends: Seq<char>, dir: Seq<char>) -> Option<
    Seq<char>,
> {
    if extends.len() > 0 && extends[0] == '.' {
        let p0 = spec_join_path(dir, extends);
        let p1 = crate::pathstr::spec_normalize_path(
            if spec_has_json_ext(p0) {
                p0
            } else {
                crate::pathstr::spec_with_extension(p0, "json"@)
            },
        );
        if fs.spec_exists(p1) {
            Some(p1)
        } else {
            let dirp = crate::pathstr::spec_normalize_path(
                spec_join_path(spec_join_path(dir, extends), "tsconfig.json"@),
            );
            if fs.spec_exists(dirp) {
                Some(dirp)
            } else {
                None
            }
        }
    } else {
        let nm = crate::pathstr::spec_normalize_path(
            spec_join_path(spec_join_path(dir, "node_modules"@), extends),
        );
        if fs.spec_exists(nm) {
            Some(nm)
        } else {
            let wt = crate::pathstr::spec_normalize_path(spec_join_path(nm, "tsconfig.json"@));
            if fs.spec_exists(wt) {
                Some(wt)
            } else {
                None
            }
        }
    }
}

/// Resolves an `extends` reference from a configuration file to the path of
/// the configuration it names.
pub fn resolve_extends(extends: &String, config_dir: &String, fs: &FileSet) -> (r: Option<String>)
    ensures
        match r {
            Some(p) => Some(p@) == spec_resolve_extends(fs, extends@, config_dir@),
            None => spec_resolve_extends(fs, extends@, config_dir@) == None::<Seq<char>>,
        },
{
    let elen = extends.as_str().unicode_len();
    if elen > 0 && extends.as_str().get_char(0) == '.' {
        let p0 = join_path(config_dir, extends);
        let p1 = crate::pathstr::normalize_path(
            &(if has_json_ext(&p0) {
                p0
            } else {
                crate::pathstr::with_extension(&p0, &String::from_str("json"))
            }),
        );
        if fs.exists_path(&p1) {
            return Some(p1);
        }
        let dirp = crate::pathstr::normalize_path(
            &join_path(&join_path(config_dir, extends), &String::from_str("tsconfig.json")),
        );
        if fs.exists_path(&dirp) {
            return Some(dirp);
        }
        None
    } else {
        let nm = crate::pathstr::normalize_path(
            &join_path(&join_path(config_dir, &String::from_str("node_modules")), extends),
        );
        if fs.exists_path(&nm) {
            return Some(nm);
        }
        let wt = crate::pathstr::normalize_path(&join_path(&nm, &String::from_str("tsconfig.json")));
        if fs.exists_path(&wt) {
            return Some(wt);
        }
        None
    }
}

/// The alias-relevant fields of one parsed configuration file, read and
/// parsed by the caller.
pub struct TsConfigData {
    pub extends: Option<String>,
    pub base_url: Option<String>,
    pub paths: Vec<AliasEntry>,
}

/// The ghost shape of a parsed configuration file.
pub struct TsConfigDataView {
    pub extends: Option<Seq<char>>,
    pub base_url: Option<Seq<char>>,
    pub paths: Seq<AliasEntryView>,
}

impl View for TsConfigData {
    type V = TsConfigDataView;

    open spec fn view(&self) -> TsConfigDataView {
        TsConfigDataView {
            extends: self.extends.deep_view(),
            base_url: self.base_url.deep_view(),
            paths: self.paths.deep_view(),
        }
    }
}

/// One parsed configuration file under its path.
pub struct TsConfigStoreEntry {
    pub path: String,
    pub data: TsConfigData,
}

/// The parsed configuration files that the caller has read, each under the
/// path it was read from. A file that could not be read or parsed has no
/// entry.
pub struct TsConfigStore {
    pub entries: Vec<TsConfigStoreEntry>,
}

impl TsConfigStore {
    /// The store as a ghost association list.
    pub open spec fn store_view(&self) -> Seq<(Seq<char>, TsConfigDataView)> {
        Seq::new(self.entries@.len(), |i: int| (self.entries@[i].path@, self.entries@[i].data@))
    }
}

/// The parsed configuration under `path`, scanning from `i`.
pub open spec fn spec_store_lookup(
    sv: Seq<(Seq<char>, TsConfigDataView)>,
    path: Seq<char>,
    i: int,
) -> Option<TsConfigDataView>
    decreases sv.len() - i,
{
    if i < 0 || i >= sv.len() {
        None
    } else if sv[i].0 == path {
        Some(sv[i].1)
    } else {
        spec_store_lookup(sv, path, i + 1)
    }
}

/// Inserting one alias entry into a table: an entry with the same pattern
/// is replaced in place, a new pattern goes to the end.
pub open spec fn spec_upsert(
    entries: Seq<AliasEntryView>,
    e: AliasEntryView,
    i: int,
) -> Seq<AliasEntryView>
    decreases entries.len() - i,
{
    if i < 0 || i >= entries.len() {
        entries.push(e)
    } else if entries[i].pattern == e.pattern {
        entries.update(i, e)
    } else {
        spec_upsert(entries, e, i + 1)
    }
}

/// All entries of `new` inserted in order, each overriding an equal pattern.
pub open spec fn spec_upsert_all(
    entries: Seq<AliasEntryView>,
    new: Seq<AliasEntryView>,
    i: int,
) -> Seq<AliasEntryView>
    decreases new.len() - i,
{
    if i < 0 || i >= new.len() {
        entries
    } else {
        spec_upsert_all(spec_upsert(entries, new[i], 0), new, i + 1)
    }
}

/// One configuration file applied on top of inherited aliases: its base URL
/// (joined to its directory) and its patterns override, everything
/// inherited and not overridden is kept, and the configuration directory
/// becomes that of this file.
pub open spec fn spec_apply_config(
    a: PathAliasesView,
    data: TsConfigDataView,
    dir: Seq<char>,
) -> PathAliasesView {
    PathAliasesView {
        base_url: match data.base_url {
            Some(b) => Some(spec_join_path(dir, b)),
            None => a.base_url,
        },
        paths: spec_upsert_all(a.paths, data.paths, 0),
        config_dir: dir,
    }
}

/// Aliases with nothing configured, rooted at `dir`.
pub open spec fn spec_empty_aliases(dir: Seq<char>) -> PathAliasesView {
    PathAliasesView {
        base_url: None,
        paths: Seq::<AliasEntryView>::empty(),
        config_dir: dir,
    }
}

/// Loading a configuration and its ancestors: the parent chain is resolved
/// and loaded first, then this file's own settings are applied on top. A
/// missing or unparsed file yields nothing; an `extends` reference that
/// cannot be resolved makes this level fail; a parent that fails to load
/// degrades to empty inherited aliases.
pub open spec fn spec_load_chain(
    fs: &FileSet,
    sv: Seq<(Seq<char>, TsConfigDataView)>,
    path: Seq<char>,
    dir: Seq<char>,
    fuel: nat,
) -> Option<PathAliasesView>
    decreases fuel,
{
    match spec_store_lookup(sv, path, 0) {
        None => None,
        Some(data) => match data.extends {
            Some(e) => match spec_resolve_extends(fs, e, dir) {
                None => None,
                Some(pp) => {
                    let pdir = spec_parent_dir(pp);
                    let parent = if fuel > 0 {
                        spec_load_chain(fs, sv, pp, pdir, (fuel - 1) as nat)
                    } else {
                        None
                    };
                    match parent {
                        Some(a) => Some(spec_apply_config(a, data, dir)),
                        None => Some(spec_apply_config(spec_empty_aliases(dir), data, dir)),
                    }
                },
            },
            None => Some(spec_apply_config(spec_empty_aliases(dir), data, dir)),
        },
    }
}

/// What loading a configuration from `path` yields: `path` itself when it
/// is a file, else `path/tsconfig.json`; nothing when that file does not
/// exist; else the merged alias chain.
pub open spec fn spec_load_tsconfig(
    fs: &FileSet,
    sv: Seq<(Seq<char>, TsConfigDataView)>,
    path: Seq<char>,
) -> Option<PathAliasesView> {
    let config_path = if fs.spec_is_file(path) {
        path
    } else {
        spec_join_path(path, "tsconfig.json"@)
    };
    if !fs.spec_exists(config_path) {
        None
    } else {
        spec_load_chain(fs, sv, config_path, spec_parent_dir(config_path), sv.len())
    }
}

impl TsConfigStore {
    /// Looks up the parsed configuration stored under `path`.
    fn get(&self, path: &String) -> (r: Option<&TsConfigData>)
        ensures
            match r {
                Some(d) => Some(d@) == spec_store_lookup(self.store_view(), path@, 0),
                None => spec_store_lookup(self.store_view(), path@, 0) == None::<TsConfigDataView>,
            },
    {
        let mut i: usize = 0;
        while i < self.entries.len()
            invariant
                i <= self.entries.len(),
                spec_store_lookup(self.store_view(), path@, 0) == spec_store_lookup(
                    self.store_view(),
                    path@,
                    i as int,
                ),
            decreases self.entries.len() - i,
        {
            if str_eq(&self.entries[i].path, path) {
                return Some(&self.entries[i].data);
            }
            i = i + 1;
        }
        None
    }
}

/// Inserts one alias entry, replacing an entry with the same pattern.
fn upsert_entry(entries: &mut Vec<AliasEntry>, e: AliasEntry)
    ensures
        final(entries).deep_view() == spec_upsert(old(entries).deep_view(), e@, 0),
{
    let mut i: usize = 0;
    while i < entries.len()
        invariant
            i <= entries.len(),
            entries.deep_view().len() == entries.len(),
            *entries == *old(entries),
            spec_upsert(old(entries).deep_view(), e@, 0) == spec_upsert(
                old(entries).deep_view(),
                e@,
                i as int,
            ),
        decreases entries.len() - i,
    {
        proof {
            assert(entries.deep_view()[i as int] == entries@[i as int]@);
        }
        if str_eq(&entries[i].pattern, &e.pattern) {
            let ghost old_deep = entries.deep_view();
            let ghost ev = e@;
            entries.remove(i);
            entries.insert(i, e);
            proof {
                assert(entries.deep_view() =~= old_deep.update(i as int, ev));
            }
            return ;
        }
        i = i + 1;
    }
    let ghost old_deep = entries.deep_view();
    let ghost ev = e@;
    entries.push(e);
    proof {
        assert(entries.deep_view() =~= old_deep.push(ev));
    }
}

/// Applies one configuration file's settings on top of inherited aliases.
fn apply_config(a: PathAliases, data: &TsConfigData, dir: &String) -> (r: PathAliases)
    ensures
        r@ == spec_apply_config(a@, data@, dir@),
{
    let base_url: Option<String> = match &data.base_url {
        Some(b) => Some(join_path(dir, b)),
        None => a.base_url,
    };
    let ghost orig_paths = a.paths.deep_view();
    let mut paths = a.paths;
    let mut i: usize = 0;
    while i < data.paths.len()
        invariant
            i <= data.paths.len(),
            data.paths.deep_view().len() == data.paths.len(),
            data.paths.deep_view() == data@.paths,
            spec_upsert_all(orig_paths, data@.paths, 0) == spec_upsert_all(
                paths.deep_view(),
                data@.paths,
                i as int,
            ),
        decreases data.paths.len() - i,
    {
        proof {
            assert(data.paths.deep_view()[i as int] == data.paths@[i as int]@);
        }
        upsert_entry(&mut paths, data.paths[i].clone());
        i = i + 1;
    }
    let r = PathAliases { base_url, paths, config_dir: dir.clone() };
    r
}

/// Loads one configuration file and its `extends` ancestors, closest last.
fn load_chain(path: &String, dir: &String, fs: &FileSet, store: &TsConfigStore, fuel: usize) -> (r:
    Option<PathAliases>)
    ensures
        match r {
            Some(a) => Some(a@) == spec_load_chain(fs, store.store_view(), path@, dir@, fuel as nat),
            None => spec_load_chain(fs, store.store_view(), path@, dir@, fuel as nat) == None::<
                PathAliasesView,
            >,
        },
    decreases fuel,
{
    let data = match store.get(path) {
        None => {
            return None;
        },
        Some(d) => d,
    };
    let inherited: PathAliases = match &data.extends {
        Some(e) => {
            let pp = match resolve_extends(e, dir, fs) {
                None => {
                    return None;
                },
                Some(p) => p,
            };
            let pdir = parent_dir(&pp);
            let parent = if fuel > 0 {
                load_chain(&pp, &pdir, fs, store, fuel - 1)
            } else {
                None
            };
            match parent {
                Some(a) => a,
                None => PathAliases {
                    base_url: None,
                    paths: Vec::new(),
                    config_dir: dir.clone(),
                },
            }
        },
        None => PathAliases { base_url: None, paths: Vec::new(), config_dir: dir.clone() },
    };
    proof {
        assert(inherited.paths.deep_view().len() == inherited.paths@.len());
        if inherited.paths@.len() == 0 {
            assert(inherited.paths.deep_view() =~= Seq::<AliasEntryView>::empty());
        }
    }
    Some(apply_config(inherited, data, dir))
}

/// Loads path-alias configuration rooted at `path` (a configuration file,
/// or a directory holding `tsconfig.json`), following `extends` chains
/// through the parsed files in `store`: closer configuration wins on
/// conflicting keys, inherited keys not overridden are kept.
pub fn load_tsconfig(path: &String, fs: &FileSet, store: &TsConfigStore) -> (r: Option<PathAliases>)
    ensures
        match r {
            Some(a) => Some(a@) == spec_load_tsconfig(fs, store.store_view(), path@),
            None => spec_load_tsconfig(fs, store.store_view(), path@) == None::<PathAliasesView>,
        },
{
    let config_path = if fs.is_file(path) {
        path.clone()
    } else {
        join_path(path, &String::from_str("tsconfig.json"))
    };
    if !fs.exists_path(&config_path) {
        return None;
    }
    let dir = parent_dir(&config_path);
    load_chain(&config_path, &dir, fs, store, store.entries.len())
}

} // verus!
