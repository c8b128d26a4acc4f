//! Monorepo workspace packages: discovery from workspace glob patterns and
//! resolution of bare package specifiers (and subpaths) to files.
//!
//! The caller reads and parses each `package.json` outside this crate and
//! hands the parsed manifests over; pattern expansion, package registration
//! and specifier resolution are verified here against the file-set model.

use crate::fileset::FileSet;
use crate::pathstr::{
    find_last, join_path, parent_dir, replace_star, spec_join_path, spec_parent_dir,
    spec_replace_star, spec_with_extension, str_concat, str_eq, str_starts_with, substr_string,
    with_extension,
};
use vstd::prelude::*;

verus! {

/// One condition of a conditional export: a condition name and its target.
pub struct CondEntry {
    pub key: String,
    pub value: String,
}

impl View for CondEntry {
    type V = (Seq<char>, Seq<char>);

    open spec fn view(&self) -> (Seq<char>, Seq<char>) {
        (self.key@, self.value@)
    }
}

impl DeepView for CondEntry {
    type V = (Seq<char>, Seq<char>);

    open spec fn deep_view(&self) -> (Seq<char>, Seq<char>) {
        self@
    }
}

impl Clone for CondEntry {
    fn clone(&self) -> (r: Self)
        ensures
            r@ == self@,
    {
        CondEntry { key: self.key.clone(), value: self.value.clone() }
    }
}

/// A single export value: a direct string target, or a map of condition
/// names to targets.
pub enum ExportValue {
    Direct(String),
    Conditional(Vec<CondEntry>),
}

/// The ghost shape of an export value.
pub enum ExportValueView {
    Direct(Seq<char>),
    Conditional(Seq<(Seq<char>, Seq<char>)>),
}

impl View for ExportValue {
    type V = ExportValueView;

    open spec fn view(&self) -> ExportValueView {
        match self {
            ExportValue::Direct(s) => ExportValueView::Direct(s@),
            ExportValue::Conditional(m) => ExportValueView::Conditional(m.deep_view()),
        }
    }
}

impl Clone for ExportValue {
    fn clone(&self) -> (r: Self)
        ensures
            r@ == self@,
    {
        match self {
            ExportValue::Direct(s) => ExportValue::Direct(s.clone()),
            ExportValue::Conditional(m) => {
                let c = m.clone();
                proof {
                    assert forall|i: int| 0 <= i < m@.len() implies c.deep_view()[i]
                        == m.deep_view()[i] by {
                        assert(cloned::<CondEntry>(m@[i], c@[i]));
                    }
                    assert(c.deep_view() =~= m.deep_view());
                }
                ExportValue::Conditional(c)
            },
        }
    }
}

/// One subpath or condition pattern of an `exports` object.
pub struct ExportEntry {
    pub key: String,
    pub value: ExportValue,
}

/// The ghost shape of an `exports` object entry.
pub struct ExportEntryView {
    pub key: Seq<char>,
    pub value: ExportValueView,
}

impl View for ExportEntry {
    type V = ExportEntryView;

    open spec fn view(&self) -> ExportEntryView {
        ExportEntryView { key: self.key@, value: self.value@ }
    }
}

impl DeepView for ExportEntry {
    type V = ExportEntryView;

    open spec fn deep_view(&self) -> ExportEntryView {
        self@
    }
}

impl Clone for ExportEntry {
    fn clone(&self) -> (r: Self)
        ensures
            r@ == self@,
    {
        ExportEntry { key: self.key.clone(), value: self.value.clone() }
    }
}

/// A manifest's `exports` field: a single string target, or an object of
/// subpath and condition patterns.
pub enum Exports {
    Direct(String),
    Object(Vec<ExportEntry>),
}

/// The ghost shape of an `exports` field.
pub enum ExportsView {
    Direct(Seq<char>),
    Object(Seq<ExportEntryView>),
}

impl View for Exports {
    type V = ExportsView;

    open spec fn view(&self) -> ExportsView {
        match self {
            Exports::Direct(s) => ExportsView::Direct(s@),
            Exports::Object(m) => ExportsView::Object(m.deep_view()),
        }
    }
}

impl Clone for Exports {
    fn clone(&self) -> (r: Self)
        ensures
            r@ == self@,
    {
        match self {
            Exports::Direct(s) => Exports::Direct(s.clone()),
            Exports::Object(m) => {
                let c = m.clone();
                proof {
                    assert forall|i: int| 0 <= i < m@.len() implies c.deep_view()[i]
                        == m.deep_view()[i] by {
                        assert(cloned::<ExportEntry>(m@[i], c@[i]));
                    }
                    assert(c.deep_view() =~= m.deep_view());
                }
                Exports::Object(c)
            },
        }
    }
}

/// Information about a single workspace package.
pub struct PackageInfo {
    /// Package name, as declared in its manifest.
    pub name: String,
    /// The package directory.
    pub path: String,
    /// Main entry point, from the `main` field.
    pub main: Option<String>,
    /// Module entry point, from the `module` field.
    pub module: Option<String>,
    /// The `exports` configuration, when present.
    pub exports: Option<Exports>,
}

/// The ghost shape of a package.
pub struct PackageInfoView {
    pub name: Seq<char>,
    pub path: Seq<char>,
    pub main: Option<Seq<char>>,
    pub module: Option<Seq<char>>,
    pub exports: Option<ExportsView>,
}

impl View for PackageInfo {
    type V = PackageInfoView;

    open spec fn view(&self) -> PackageInfoView {
        PackageInfoView {
            name: self.name@,
            path: self.path@,
            main: self.main.deep_view(),
            module: self.module.deep_view(),
            exports: match self.exports {
                Some(ref e) => Some(e@),
                None => None,
            },
        }
    }
}

impl DeepView for PackageInfo {
    type V = PackageInfoView;

    open spec fn deep_view(&self) -> PackageInfoView {
        self@
    }
}

impl Clone for PackageInfo {
    fn clone(&self) -> (r: Self)
        ensures
            r@ == self@,
    {
        PackageInfo {
            name: self.name.clone(),
            path: self.path.clone(),
            main: self.main.clone(),
            module: self.module.clone(),
            exports: match &self.exports {
                Some(e) => Some(e.clone()),
                None => None,
            },
        }
    }
}

/// Workspace configuration: the root directory and the discovered packages.
/// Package names are unique; a later discovery under an existing name
/// replaces the earlier one.
pub struct Workspace {
    pub root: String,
    pub packages: Vec<PackageInfo>,
}

/// The ghost shape of a workspace.
pub struct WorkspaceView {
    pub root: Seq<char>,
    pub packages: Seq<PackageInfoView>,
}

impl View for Workspace {
    type V = WorkspaceView;

    open spec fn view(&self) -> WorkspaceView {
        WorkspaceView { root: self.root@, packages: self.packages.deep_view() }
    }
}

/// `s` with every leading `./` removed.
pub open spec fn spec_strip_dot_slash(s: Seq<char>) -> Seq<char>
    decreases s.len(),
{
    if s.len() >= 2 && s[0] == '.' && s[1] == '/' {
        spec_strip_dot_slash(s.skip(2))
    } else {
        s
    }
}

/// Removes every leading `./` from `s`.
pub fn strip_dot_slash(s: &String) -> (r: String)
    ensures
        r@ == spec_strip_dot_slash(s@),
{
    let len = s.as_str().unicode_len();
    let mut a: usize = 0;
    proof {
        assert(s@.skip(0) =~= s@);
    }
    while a + 1 < len && s.as_str().get_char(a) == '.' && s.as_str().get_char(a + 1) == '/'
        invariant
            a <= len,
            a % 2 == 0,
            len == s@.len(),
            spec_strip_dot_slash(s@) == spec_strip_dot_slash(s@.skip(a as int)),
        decreases len - a,
    {
        proof {
            assert(s@.skip(a as int)[0] == s@[a as int]);
            assert(s@.skip(a as int)[1] == s@[a + 1]);
            assert(s@.skip(a as int).skip(2) =~= s@.skip(a + 2));
        }
        a = a + 2;
    }
    proof {
        let t = s@.skip(a as int);
        if t.len() >= 2 {
            assert(t[0] == s@[a as int] && t[1] == s@[a + 1]);
        }
    }
    substr_string(s, a, len)
}

/// The target of a conditional export: the `import` condition, else
/// `require`, else `default`.
pub open spec fn spec_cond_lookup(
    conds: Seq<(Seq<char>, Seq<char>)>,
    key: Seq<char>,
    i: int,
) -> Option<Seq<char>>
    decreases conds.len() - i,
{
    if i < 0 || i >= conds.len() {
        None
    } else if conds[i].0 == key {
        Some(conds[i].1)
    } else {
        spec_cond_lookup(conds, key, i + 1)
    }
}

pub open spec fn spec_cond_pick(conds: Seq<(Seq<char>, Seq<char>)>) -> Option<Seq<char>> {
    match spec_cond_lookup(conds, "import"@, 0) {
        Some(t) => Some(t),
        None => match spec_cond_lookup(conds, "require"@, 0) {
            Some(t) => Some(t),
            None => spec_cond_lookup(conds, "default"@, 0),
        },
    }
}

/// Finds the target of one condition name.
fn cond_lookup(conds: &Vec<CondEntry>, key: &String) -> (r: Option<String>)
    ensures
        match r {
            Some(t) => Some(t@) == spec_cond_lookup(conds.deep_view(), key@, 0),
            None => spec_cond_lookup(conds.deep_view(), key@, 0) == None::<Seq<char>>,
        },
{
    let mut i: usize = 0;
    while i < conds.len()
        invariant
            i <= conds.len(),
            conds.deep_view().len() == conds.len(),
            spec_cond_lookup(conds.deep_view(), key@, 0) == spec_cond_lookup(
                conds.deep_view(),
                key@,
                i as int,
            ),
        decreases conds.len() - i,
    {
        proof {
            assert(conds.deep_view()[i as int] == conds@[i as int]@);
        }
        if str_eq(&conds[i].key, key) {
            return Some(conds[i].value.clone());
        }
        i = i + 1;
    }
    None
}

/// Picks the preferred condition target: `import`, else `require`, else
/// `default`.
fn cond_pick(conds: &Vec<CondEntry>) -> (r: Option<String>)
    ensures
        match r {
            Some(t) => Some(t@) == spec_cond_pick(conds.deep_view()),
            None => spec_cond_pick(conds.deep_view()) == None::<Seq<char>>,
        },
{
    if let Some(t) = cond_lookup(conds, &String::from_str("import")) {
        return Some(t);
    }
    if let Some(t) = cond_lookup(conds, &String::from_str("require")) {
        return Some(t);
    }
    cond_lookup(conds, &String::from_str("default"))
}

/// Where an export target leads: the target joined to the package
/// directory when that path exists, else the path with each of the
/// alternative extensions substituted.
pub open spec fn spec_try_target(fs: &FileSet, pkg_path: Seq<char>, target: Seq<char>) -> Option<
    Seq<char>,
> {
    let p = spec_join_path(pkg_path, spec_strip_dot_slash(target));
    if fs.spec_exists(p) {
        Some(p)
    } else {
        let p1 = spec_with_extension(p, "ts"@);
        let p2 = spec_with_extension(p, "tsx"@);
        let p3 = spec_with_extension(p, "js"@);
        let p4 = spec_with_extension(p, "jsx"@);
        if fs.spec_exists(p1) {
            Some(p1)
        } else if fs.spec_exists(p2) {
            Some(p2)
        } else if fs.spec_exists(p3) {
            Some(p3)
        } else if fs.spec_exists(p4) {
            Some(p4)
        } else {
            None
        }
    }
}

/// Joins an export target to the package directory and tries it, with
/// extension substitution as a fallback.
fn try_target(fs: &FileSet, pkg_path: &String, target: &String) -> (r: Option<String>)
    ensures
        match r {
            Some(p) => Some(p@) == spec_try_target(fs, pkg_path@, target@),
            None => spec_try_target(fs, pkg_path@, target@) == None::<Seq<char>>,
        },
{
    let stripped = strip_dot_slash(target);
    let p = join_path(pkg_path, &stripped);
    if fs.exists_path(&p) {
        return Some(p);
    }
    let p1 = with_extension(&p, &String::from_str("ts"));
    if fs.exists_path(&p1) {
        return Some(p1);
    }
    let p2 = with_extension(&p, &String::from_str("tsx"));
    if fs.exists_path(&p2) {
        return Some(p2);
    }
    let p3 = with_extension(&p, &String::from_str("js"));
    if fs.exists_path(&p3) {
        return Some(p3);
    }
    let p4 = with_extension(&p, &String::from_str("jsx"));
    if fs.exists_path(&p4) {
        return Some(p4);
    }
    None
}

/// Where a single export value leads: a direct target is tried as it
/// stands; a conditional one goes through the condition preference first.
pub open spec fn spec_resolve_export_value(
    fs: &FileSet,
    pkg_path: Seq<char>,
    v: ExportValueView,
) -> Option<Seq<char>> {
    match v {
        ExportValueView::Direct(s) => spec_try_target(fs, pkg_path, s),
        ExportValueView::Conditional(conds) => match spec_cond_pick(conds) {
            Some(t) => spec_try_target(fs, pkg_path, t),
            None => None,
        },
    }
}

/// The first `exports` object entry with the given key.
pub open spec fn spec_exports_lookup(
    map: Seq<ExportEntryView>,
    key: Seq<char>,
    i: int,
) -> Option<ExportValueView>
    decreases map.len() - i,
{
    if i < 0 || i >= map.len() {
        None
    } else if map[i].key == key {
        Some(map[i].value)
    } else {
        spec_exports_lookup(map, key, i + 1)
    }
}

/// Where the `exports` field sends a subpath: a plain string export serves
/// only the package root, unsubstituted and without extension fallback; an
/// object export serves the exact key.
pub open spec fn spec_resolve_from_exports(
    fs: &FileSet,
    pkg_path: Seq<char>,
    exports: ExportsView,
    subpath: Seq<char>,
) -> Option<Seq<char>> {
    match exports {
        ExportsView::Direct(s) => if subpath == "."@ {
            let p = spec_join_path(pkg_path, spec_strip_dot_slash(s));
            if fs.spec_exists(p) {
                Some(p)
            } else {
                None
            }
        } else {
            None
        },
        ExportsView::Object(map) => match spec_exports_lookup(map, subpath, 0) {
            Some(v) => spec_resolve_export_value(fs, pkg_path, v),
            None => None,
        },
    }
}

/// Wildcard `exports` patterns: for the first pattern ending in `*` whose
/// prefix starts the subpath, the captured suffix replaces each `*` of the
/// chosen target; a conditional value with none of the known conditions
/// stops the scan.
pub open spec fn spec_wildcard_export(
    fs: &FileSet,
    pkg_path: Seq<char>,
    map: Seq<ExportEntryView>,
    subpath: Seq<char>,
    i: int,
) -> Option<Seq<char>>
    decreases map.len() - i,
{
    if i < 0 || i >= map.len() {
        None
    } else {
        let pat = map[i].key;
        if pat.len() > 0 && pat.last() == '*' {
            let prefix = spec_strip_dot_slash(pat.drop_last());
            if prefix.is_prefix_of(subpath) {
                let suffix = subpath.skip(prefix.len() as int);
                match map[i].value {
                    ExportValueView::Direct(s) => {
                        match spec_try_target(fs, pkg_path, spec_replace_star(s, suffix)) {
                            Some(p) => Some(p),
                            None => spec_wildcard_export(fs, pkg_path, map, subpath, i + 1),
                        }
                    },
                    ExportValueView::Conditional(conds) => match spec_cond_pick(conds) {
                        None => None,
                        Some(t) => match spec_try_target(
                            fs,
                            pkg_path,
                            spec_replace_star(t, suffix),
                        ) {
                            Some(p) => Some(p),
                            None => spec_wildcard_export(fs, pkg_path, map, subpath, i + 1),
                        },
                    },
                }
            } else {
                spec_wildcard_export(fs, pkg_path, map, subpath, i + 1)
            }
        } else {
            spec_wildcard_export(fs, pkg_path, map, subpath, i + 1)
        }
    }
}

/// Resolves the exact `exports` entry for a subpath.
fn resolve_from_exports(fs: &FileSet, pkg_path: &String, exports: &Exports, subpath: &String) -> (r:
    Option<String>)
    ensures
        match r {
            Some(p) => Some(p@) == spec_resolve_from_exports(fs, pkg_path@, exports@, subpath@),
            None => spec_resolve_from_exports(fs, pkg_path@, exports@, subpath@) == None::<
                Seq<char>,
            >,
        },
{
    match exports {
        Exports::Direct(s) => {
            proof {
                reveal_strlit(".");
            }
            if str_eq(subpath, &String::from_str(".")) {
                let stripped = strip_dot_slash(s);
                let p = join_path(pkg_path, &stripped);
                if fs.exists_path(&p) {
                    return Some(p);
                }
            }
            None
        },
        Exports::Object(map) => {
            proof {
                assert(exports@ == ExportsView::Object(map.deep_view()));
            }
            let mut i: usize = 0;
            while i < map.len()
                invariant
                    i <= map.len(),
                    exports@ == ExportsView::Object(map.deep_view()),
                    map.deep_view().len() == map.len(),
                    spec_exports_lookup(map.deep_view(), subpath@, 0) == spec_exports_lookup(
                        map.deep_view(),
                        subpath@,
                        i as int,
                    ),
                decreases map.len() - i,
            {
                proof {
                    assert(map.deep_view()[i as int] == map@[i as int]@);
                }
                if str_eq(&map[i].key, subpath) {
                    proof {
                        assert(map.deep_view()[i as int].key == subpath@);
                        assert(spec_exports_lookup(map.deep_view(), subpath@, i as int) == Some(
                            map.deep_view()[i as int].value,
                        ));
                    }
                    return match &map[i].value {
                        ExportValue::Direct(s) => {
                            proof {
                                assert(map.deep_view()[i as int].value == ExportValueView::Direct(
                                    s@,
                                ));
                            }
                            try_target(fs, pkg_path, s)
                        },
                        ExportValue::Conditional(conds) => {
                            proof {
                                assert(map.deep_view()[i as int].value
                                    == ExportValueView::Conditional(conds.deep_view()));
                            }
                            match cond_pick(conds) {
                                Some(t) => try_target(fs, pkg_path, &t),
                                None => None,
                            }
                        },
                    };
                }
                i = i + 1;
            }
            None
        },
    }
}

/// Resolves a subpath through wildcard `exports` patterns.
fn resolve_wildcard_export(
    fs: &FileSet,
    pkg_path: &String,
    map: &Vec<ExportEntry>,
    subpath: &String,
) -> (r: Option<String>)
    ensures
        match r {
            Some(p) => Some(p@) == spec_wildcard_export(fs, pkg_path@, map.deep_view(), subpath@, 0),
            None => spec_wildcard_export(fs, pkg_path@, map.deep_view(), subpath@, 0) == None::<
                Seq<char>,
            >,
        },
{
    let mut i: usize = 0;
    while i < map.len()
        invariant
            i <= map.len(),
            map.deep_view().len() == map.len(),
            spec_wildcard_export(fs, pkg_path@, map.deep_view(), subpath@, 0)
                == spec_wildcard_export(fs, pkg_path@, map.deep_view(), subpath@, i as int),
        decreases map.len() - i,
    {
        proof {
            assert(map.deep_view()[i as int] == map@[i as int]@);
        }
        let pat = &map[i].key;
        let plen = pat.as_str().unicode_len();
        if plen > 0 && pat.as_str().get_char(plen - 1) == '*' {
            let raw_prefix = substr_string(pat, 0, plen - 1);
            proof {
                assert(raw_prefix@ =~= map.deep_view()[i as int].key.drop_last());
            }
            let prefix = strip_dot_slash(&raw_prefix);
            if str_starts_with(subpath, &prefix) {
                let preflen = prefix.as_str().unicode_len();
                let sublen = subpath.as_str().unicode_len();
                let suffix = substr_string(subpath, preflen, sublen);
                proof {
                    assert(suffix@ =~= subpath@.skip(prefix@.len() as int));
                }
                let target: String = match &map[i].value {
                    ExportValue::Direct(s) => replace_star(s, &suffix),
                    ExportValue::Conditional(conds) => match cond_pick(conds) {
                        Some(t) => replace_star(&t, &suffix),
                        None => {
                            return None;
                        },
                    },
                };
                if let Some(p) = try_target(fs, pkg_path, &target) {
                    return Some(p);
                }
            }
        }
        i = i + 1;
    }
    None
}

/// `Some(base/name)` when that path exists.
pub open spec fn spec_try_rel(fs: &FileSet, base: Seq<char>, name: Seq<char>) -> Option<Seq<char>> {
    let p = spec_join_path(base, name);
    if fs.spec_exists(p) {
        Some(p)
    } else {
        None
    }
}

/// The first of two alternatives that resolved.
pub open spec fn or_else(a: Option<Seq<char>>, b: Option<Seq<char>>) -> Option<Seq<char>> {
    match a {
        Some(p) => Some(p),
        None => b,
    }
}

/// Joins `base/name` and returns it when it exists.
fn try_rel(fs: &FileSet, base: &String, name: &String) -> (r: Option<String>)
    ensures
        match r {
            Some(p) => Some(p@) == spec_try_rel(fs, base@, name@),
            None => spec_try_rel(fs, base@, name@) == None::<Seq<char>>,
        },
{
    let p = join_path(base, name);
    if fs.exists_path(&p) {
        Some(p)
    } else {
        None
    }
}

/// Direct file probing for a subpath, tried after `exports`: under `src/`
/// and under the package root, the subpath as it stands and with each
/// alternative extension, each alternative also as a directory with an
/// `index` file.
pub open spec fn spec_subpath_fallback(fs: &FileSet, base: Seq<char>, sub: Seq<char>) -> Option<
    Seq<char>,
> {
    let a = "src/"@ + sub;
    or_else(
        spec_fallback_for(fs, base, a),
        spec_fallback_for(fs, base, sub),
    )
}

/// The probe order for one prefixed subpath: for each extension (none,
/// `.ts`, `.tsx`, `.js`, `.jsx`), first the file, then `…/index` with the
/// same extension.
pub open spec fn spec_fallback_for(fs: &FileSet, base: Seq<char>, s: Seq<char>) -> Option<
    Seq<char>,
> {
    or_else(
        spec_try_rel(fs, base, s),
        or_else(
            spec_try_rel(fs, base, s + "/index"@),
            or_else(
                spec_try_rel(fs, base, s + ".ts"@),
                or_else(
                    spec_try_rel(fs, base, s + "/index.ts"@),
                    or_else(
                        spec_try_rel(fs, base, s + ".tsx"@),
                        or_else(
                            spec_try_rel(fs, base, s + "/index.tsx"@),
                            or_else(
                                spec_try_rel(fs, base, s + ".js"@),
                                or_else(
                                    spec_try_rel(fs, base, s + "/index.js"@),
                                    or_else(
                                        spec_try_rel(fs, base, s + ".jsx"@),
                                        spec_try_rel(fs, base, s + "/index.jsx"@),
                                    ),
                                ),
                            ),
                        ),
                    ),
                ),
            ),
        ),
    )
}

/// Probes one prefixed subpath with every extension and index variant.
fn fallback_for(fs: &FileSet, base: &String, s: &String) -> (r: Option<String>)
    ensures
        match r {
            Some(p) => Some(p@) == spec_fallback_for(fs, base@, s@),
            None => spec_fallback_for(fs, base@, s@) == None::<Seq<char>>,
        },
{
    if let Some(p) = try_rel(fs, base, s) {
        return Some(p);
    }
    if let Some(p) = try_rel(fs, base, &s.clone().concat("/index")) {
        proof {
            reveal_strlit("/index");
        }
        return Some(p);
    }
    if let Some(p) = try_rel(fs, base, &s.clone().concat(".ts")) {
        return Some(p);
    }
    if let Some(p) = try_rel(fs, base, &s.clone().concat("/index.ts")) {
        return Some(p);
    }
    if let Some(p) = try_rel(fs, base, &s.clone().concat(".tsx")) {
        return Some(p);
    }
    if let Some(p) = try_rel(fs, base, &s.clone().concat("/index.tsx")) {
        return Some(p);
    }
    if let Some(p) = try_rel(fs, base, &s.clone().concat(".js")) {
        return Some(p);
    }
    if let Some(p) = try_rel(fs, base, &s.clone().concat("/index.js")) {
        return Some(p);
    }
    if let Some(p) = try_rel(fs, base, &s.clone().concat(".jsx")) {
        return Some(p);
    }
    if let Some(p) = try_rel(fs, base, &s.clone().concat("/index.jsx")) {
        return Some(p);
    }
    None
}

/// What a package's root entry (`.`) resolves to: the `exports` field
/// first; then the `module` and `main` fields, each accepted when the named
/// path exists; then conventional entry points.
pub open spec fn spec_resolve_package_entry(
    fs: &FileSet,
    info: PackageInfoView,
    subpath: Seq<char>,
) -> Option<Seq<char>> {
    let from_exports = match info.exports {
        Some(e) => spec_resolve_from_exports(fs, info.path, e, subpath),
        None => None,
    };
    match from_exports {
        Some(p) => Some(p),
        None => if subpath == "."@ {
            let via_module = match info.module {
                Some(m) => spec_try_rel(fs, info.path, m),
                None => None,
            };
            let via_main = match info.main {
                Some(m) => spec_try_rel(fs, info.path, m),
                None => None,
            };
            or_else(
                via_module,
                or_else(
                    via_main,
                    or_else(
                        spec_try_rel(fs, info.path, "src/index.ts"@),
                        or_else(
                            spec_try_rel(fs, info.path, "src/index.tsx"@),
                            or_else(
                                spec_try_rel(fs, info.path, "index.ts"@),
                                spec_try_rel(fs, info.path, "index.js"@),
                            ),
                        ),
                    ),
                ),
            )
        } else {
            None
        },
    }
}

/// What a package subpath (`pkg/sub`) resolves to: the exact `exports`
/// entry `./sub`, then wildcard `exports` patterns, then direct file
/// probing under `src/` and the package root.
pub open spec fn spec_resolve_subpath(fs: &FileSet, info: PackageInfoView, sub: Seq<char>) -> Option<
    Seq<char>,
> {
    let via_exports = match info.exports {
        Some(e) => or_else(
            spec_resolve_from_exports(fs, info.path, e, "./"@ + sub),
            match e {
                ExportsView::Object(map) => spec_wildcard_export(fs, info.path, map, sub, 0),
                ExportsView::Direct(_) => None,
            },
        ),
        None => None,
    };
    or_else(via_exports, spec_subpath_fallback(fs, info.path, sub))
}

/// The first package whose name is exactly `import`.
pub open spec fn spec_exact_pkg(
    packages: Seq<PackageInfoView>,
    import: Seq<char>,
    i: int,
) -> Option<PackageInfoView>
    decreases packages.len() - i,
{
    if i < 0 || i >= packages.len() {
        None
    } else if packages[i].name == import {
        Some(packages[i])
    } else {
        spec_exact_pkg(packages, import, i + 1)
    }
}

/// Scanning for a package whose name starts the specifier: a full-name
/// match resolves the package root, a `/` after the name resolves a
/// subpath; either decides, even when it resolves to nothing.
pub open spec fn spec_prefix_scan(
    fs: &FileSet,
    packages: Seq<PackageInfoView>,
    import: Seq<char>,
    i: int,
) -> Option<Seq<char>>
    decreases packages.len() - i,
{
    if i < 0 || i >= packages.len() {
        None
    } else {
        let n = packages[i].name;
        if n.is_prefix_of(import) {
            if import.len() == n.len() {
                spec_resolve_package_entry(fs, packages[i], "."@)
            } else if import[n.len() as int] == '/' {
                spec_resolve_subpath(fs, packages[i], import.skip(n.len() as int + 1))
            } else {
                spec_prefix_scan(fs, packages, import, i + 1)
            }
        } else {
            spec_prefix_scan(fs, packages, import, i + 1)
        }
    }
}

/// What a bare specifier resolves to in the workspace: an exact package
/// name decides; otherwise the first package whose name prefixes the
/// specifier ahead of a `/` serves the rest as a subpath.
pub open spec fn spec_workspace_resolve(fs: &FileSet, ws: WorkspaceView, import: Seq<char>) -> Option<
    Seq<char>,
> {
    match spec_exact_pkg(ws.packages, import, 0) {
        Some(info) => spec_resolve_package_entry(fs, info, "."@),
        None => spec_prefix_scan(fs, ws.packages, import, 0),
    }
}

impl Workspace {
    /// Resolves a package entry point: the `exports` field first, then the
    /// `module` and `main` fields, then conventional entry points, each
    /// accepted only when the file exists.
    pub fn resolve_package_entry(&self, info: &PackageInfo, subpath: &String, fs: &FileSet) -> (r:
        Option<String>)
        ensures
            match r {
                Some(p) => Some(p@) == spec_resolve_package_entry(fs, info@, subpath@),
                None => spec_resolve_package_entry(fs, info@, subpath@) == None::<Seq<char>>,
            },
    {
        if let Some(e) = &info.exports {
            proof {
                assert(info@.exports == Some(e@));
            }
            if let Some(p) = resolve_from_exports(fs, &info.path, e, subpath) {
                return Some(p);
            }
        }
        proof {
            reveal_strlit(".");
        }
        if str_eq(subpath, &String::from_str(".")) {
            if let Some(m) = &info.module {
                if let Some(p) = try_rel(fs, &info.path, m) {
                    return Some(p);
                }
            }
            if let Some(m) = &info.main {
                if let Some(p) = try_rel(fs, &info.path, m) {
                    return Some(p);
                }
            }
            if let Some(p) = try_rel(fs, &info.path, &String::from_str("src/index.ts")) {
                return Some(p);
            }
            if let Some(p) = try_rel(fs, &info.path, &String::from_str("src/index.tsx")) {
                return Some(p);
            }
            if let Some(p) = try_rel(fs, &info.path, &String::from_str("index.ts")) {
                return Some(p);
            }
            if let Some(p) = try_rel(fs, &info.path, &String::from_str("index.js")) {
                return Some(p);
            }
        }
        None
    }

    /// Resolves a package subpath: exact `exports` entries, wildcard
    /// `exports` patterns, then direct file probing.
    pub fn resolve_subpath(&self, info: &PackageInfo, sub: &String, fs: &FileSet) -> (r: Option<
        String,
    >)
        ensures
            match r {
                Some(p) => Some(p@) == spec_resolve_subpath(fs, info@, sub@),
                None => spec_resolve_subpath(fs, info@, sub@) == None::<Seq<char>>,
            },
    {
        if let Some(e) = &info.exports {
            proof {
                assert(info@.exports == Some(e@));
                reveal_strlit("./");
            }
            let key = String::from_str("./").concat(sub.as_str());
            proof {
                assert(key@ =~= "./"@ + sub@);
            }
            if let Some(p) = resolve_from_exports(fs, &info.path, e, &key) {
                return Some(p);
            }
            if let Exports::Object(map) = e {
                proof {
                    assert(e@ == ExportsView::Object(map.deep_view()));
                }
                if let Some(p) = resolve_wildcard_export(fs, &info.path, map, sub) {
                    return Some(p);
                }
            }
        }
        let src_sub = String::from_str("src/").concat(sub.as_str());
        proof {
            reveal_strlit("src/");
            assert(src_sub@ =~= "src/"@ + sub@);
        }
        if let Some(p) = fallback_for(fs, &info.path, &src_sub) {
            return Some(p);
        }
        fallback_for(fs, &info.path, sub)
    }

    /// Resolves a bare package import to a file path: an exact package-name
    /// match first, else a package-name prefix followed by `/`, treated as
    /// a subpath.
    pub fn resolve(&self, import: &String, fs: &FileSet) -> (r: Option<String>)
        ensures
            match r {
                Some(p) => Some(p@) == spec_workspace_resolve(fs, self@, import@),
                None => spec_workspace_resolve(fs, self@, import@) == None::<Seq<char>>,
            },
    {
        let mut i: usize = 0;
        while i < self.packages.len()
            invariant
                i <= self.packages.len(),
                self.packages.deep_view().len() == self.packages.len(),
                spec_exact_pkg(self.packages.deep_view(), import@, 0) == spec_exact_pkg(
                    self.packages.deep_view(),
                    import@,
                    i as int,
                ),
            decreases self.packages.len() - i,
        {
            proof {
                assert(self.packages.deep_view()[i as int] == self.packages@[i as int]@);
            }
            if str_eq(&self.packages[i].name, import) {
                proof {
                    reveal_strlit(".");
                }
                return self.resolve_package_entry(&self.packages[i], &String::from_str("."), fs);
            }
            i = i + 1;
        }
        let ilen = import.as_str().unicode_len();
        let mut j: usize = 0;
        while j < self.packages.len()
            invariant
                j <= self.packages.len(),
                ilen == import@.len(),
                self.packages.deep_view().len() == self.packages.len(),
                spec_exact_pkg(self.packages.deep_view(), import@, 0) == None::<PackageInfoView>,
                spec_prefix_scan(fs, self.packages.deep_view(), import@, 0) == spec_prefix_scan(
                    fs,
                    self.packages.deep_view(),
                    import@,
                    j as int,
                ),
            decreases self.packages.len() - j,
        {
            proof {
                assert(self.packages.deep_view()[j as int] == self.packages@[j as int]@);
            }
            let name = &self.packages[j].name;
            if str_starts_with(import, name) {
                let nlen = name.as_str().unicode_len();
                if ilen == nlen {
                    proof {
                        reveal_strlit(".");
                    }
                    return self.resolve_package_entry(
                        &self.packages[j],
                        &String::from_str("."),
                        fs,
                    );
                }
                if import.as_str().get_char(nlen) == '/' {
                    let sub = substr_string(import, nlen + 1, ilen);
                    proof {
                        assert(sub@ =~= import@.skip(name@.len() as int + 1));
                    }
                    return self.resolve_subpath(&self.packages[j], &sub, fs);
                }
            }
            j = j + 1;
        }
        None
    }
}

/// Glob matching for workspace patterns: `*` matches any run of characters
/// other than `/`, every other character matches itself.
pub open spec fn spec_glob_match(p: Seq<char>, s: Seq<char>, pi: int, si: int) -> bool
    decreases p.len() - pi, s.len() - si,
{
    if pi < 0 || si < 0 {
        false
    } else if pi >= p.len() {
        si >= s.len()
    } else if p[pi] == '*' {
        spec_glob_match(p, s, pi + 1, si) || (si < s.len() && s[si] != '/' && spec_glob_match(
            p,
            s,
            pi,
            si + 1,
        ))
    } else {
        si < s.len() && p[pi] == s[si] && spec_glob_match(p, s, pi + 1, si + 1)
    }
}

fn glob_match_at(p: &String, s: &String, pi: usize, si: usize) -> (r: bool)
    requires
        pi <= p@.len(),
        si <= s@.len(),
    ensures
        r == spec_glob_match(p@, s@, pi as int, si as int),
    decreases p@.len() - pi, s@.len() - si,
{
    let plen = p.as_str().unicode_len();
    let slen = s.as_str().unicode_len();
    if pi >= plen {
        return si >= slen;
    }
    let pc = p.as_str().get_char(pi);
    if pc == '*' {
        if glob_match_at(p, s, pi + 1, si) {
            return true;
        }
        if si < slen && s.as_str().get_char(si) != '/' {
            return glob_match_at(p, s, pi, si + 1);
        }
        false
    } else {
        if si < slen && pc == s.as_str().get_char(si) {
            glob_match_at(p, s, pi + 1, si + 1)
        } else {
            false
        }
    }
}

/// Tests a path against a workspace glob pattern.
pub fn glob_match(pattern: &String, s: &String) -> (r: bool)
    ensures
        r == spec_glob_match(pattern@, s@, 0, 0),
{
    glob_match_at(pattern, s, 0, 0)
}

/// The manifest fields this crate reads from one parsed `package.json`.
pub struct PackageManifest {
    pub name: Option<String>,
    pub main: Option<String>,
    pub module: Option<String>,
    pub exports: Option<Exports>,
}

/// The ghost shape of a parsed manifest.
pub struct PackageManifestView {
    pub name: Option<Seq<char>>,
    pub main: Option<Seq<char>>,
    pub module: Option<Seq<char>>,
    pub exports: Option<ExportsView>,
}

impl View for PackageManifest {
    type V = PackageManifestView;

    open spec fn view(&self) -> PackageManifestView {
        PackageManifestView {
            name: self.name.deep_view(),
            main: self.main.deep_view(),
            module: self.module.deep_view(),
            exports: match self.exports {
                Some(ref e) => Some(e@),
                None => None,
            },
        }
    }
}

/// One parsed manifest under the path of its `package.json` file.
pub struct ManifestStoreEntry {
    pub path: String,
    pub manifest: PackageManifest,
}

/// Every `package.json` the caller found under the root, parsed, in a fixed
/// order (the caller supplies them sorted by path, as a directory walk
/// yields them). A file that could not be read or parsed has no entry.
pub struct ManifestStore {
    pub entries: Vec<ManifestStoreEntry>,
}

impl ManifestStore {
    /// The store as a ghost association list.
    pub open spec fn store_view(&self) -> Seq<(Seq<char>, PackageManifestView)> {
        Seq::new(
            self.entries@.len(),
            |i: int| (self.entries@[i].path@, self.entries@[i].manifest@),
        )
    }
}

/// Package registration: a package with the same name replaces the earlier
/// one, a new name goes to the end.
pub open spec fn spec_upsert_pkg(
    packages: Seq<PackageInfoView>,
    info: PackageInfoView,
    i: int,
) -> Seq<PackageInfoView>
    decreases packages.len() - i,
{
    if i < 0 || i >= packages.len() {
        packages.push(info)
    } else if packages[i].name == info.name {
        packages.update(i, info)
    } else {
        spec_upsert_pkg(packages, info, i + 1)
    }
}

/// The package registered for one manifest: its directory is the parent of
/// its `package.json`, and a manifest without a `name` is not registered.
pub open spec fn spec_pkg_of_manifest(path: Seq<char>, m: PackageManifestView) -> Option<
    PackageInfoView,
> {
    match m.name {
        None => None,
        Some(n) => Some(
            PackageInfoView {
                name: n,
                path: spec_parent_dir(path),
                main: m.main,
                module: m.module,
                exports: m.exports,
            },
        ),
    }
}

/// The packages after scanning one pattern over the manifest store from
/// entry `i`: each manifest whose path matches `root/pattern/package.json`
/// and that declares a name is registered.
pub open spec fn spec_scan_pattern(
    packages: Seq<PackageInfoView>,
    glob: Seq<char>,
    store: Seq<(Seq<char>, PackageManifestView)>,
    i: int,
) -> Seq<PackageInfoView>
    decreases store.len() - i,
{
    if i < 0 || i >= store.len() {
        packages
    } else {
        let next = if spec_glob_match(glob, store[i].0, 0, 0) {
            match spec_pkg_of_manifest(store[i].0, store[i].1) {
                Some(info) => spec_upsert_pkg(packages, info, 0),
                None => packages,
            }
        } else {
            packages
        };
        spec_scan_pattern(next, glob, store, i + 1)
    }
}

/// The packages after expanding every workspace pattern, in order.
pub open spec fn spec_scan_patterns(
    packages: Seq<PackageInfoView>,
    root: Seq<char>,
    patterns: Seq<Seq<char>>,
    store: Seq<(Seq<char>, PackageManifestView)>,
    j: int,
) -> Seq<PackageInfoView>
    decreases patterns.len() - j,
{
    if j < 0 || j >= patterns.len() {
        packages
    } else {
        let glob = spec_join_path(spec_join_path(root, patterns[j]), "package.json"@);
        spec_scan_patterns(
            spec_scan_pattern(packages, glob, store, 0),
            root,
            patterns,
            store,
            j + 1,
        )
    }
}

/// The workspace built from the root and its patterns.
pub open spec fn spec_from_patterns(
    root: Seq<char>,
    patterns: Seq<Seq<char>>,
    store: Seq<(Seq<char>, PackageManifestView)>,
) -> WorkspaceView {
    WorkspaceView {
        root: root,
        packages: spec_scan_patterns(Seq::<PackageInfoView>::empty(), root, patterns, store, 0),
    }
}

/// What workspace detection yields: npm or yarn `workspaces` patterns take
/// precedence; a pnpm `packages` list is used otherwise; with neither, or
/// with an empty pattern list, there is no workspace.
pub open spec fn spec_detect(
    root: Seq<char>,
    npm_patterns: Option<Seq<Seq<char>>>,
    pnpm_patterns: Option<Seq<Seq<char>>>,
    store: Seq<(Seq<char>, PackageManifestView)>,
) -> Option<WorkspaceView> {
    let pats = if npm_patterns is Some && npm_patterns->0.len() > 0 {
        Some(npm_patterns->0)
    } else if pnpm_patterns is Some && pnpm_patterns->0.len() > 0 {
        Some(pnpm_patterns->0)
    } else {
        None
    };
    match pats {
        Some(ps) => Some(spec_from_patterns(root, ps, store)),
        None => None,
    }
}

/// Inserts one package, replacing a package with the same name.
fn upsert_pkg(packages: &mut Vec<PackageInfo>, info: PackageInfo)
    ensures
        final(packages).deep_view() == spec_upsert_pkg(old(packages).deep_view(), info@, 0),
{
    let mut i: usize = 0;
    while i < packages.len()
        invariant
            i <= packages.len(),
            packages.deep_view().len() == packages.len(),
            *packages == *old(packages),
            spec_upsert_pkg(old(packages).deep_view(), info@, 0) == spec_upsert_pkg(
                old(packages).deep_view(),
                info@,
                i as int,
            ),
        decreases packages.len() - i,
    {
        proof {
            assert(packages.deep_view()[i as int] == packages@[i as int]@);
        }
        if str_eq(&packages[i].name, &info.name) {
            let ghost old_deep = packages.deep_view();
            let ghost iv = info@;
            packages.remove(i);
            packages.insert(i, info);
            proof {
                assert(packages.deep_view() =~= old_deep.update(i as int, iv));
            }
            return ;
        }
        i = i + 1;
    }
    let ghost old_deep = packages.deep_view();
    let ghost iv = info@;
    packages.push(info);
    proof {
        assert(packages.deep_view() =~= old_deep.push(iv));
    }
}

impl Workspace {
    /// Builds the workspace for a pattern list: each pattern is expanded to
    /// `root/pattern/package.json` and matched against the manifest store;
    /// each matching manifest that declares a name registers a package.
    pub fn from_patterns(root: &String, patterns: &Vec<String>, store: &ManifestStore) -> (r:
        Workspace)
        ensures
            r@ == spec_from_patterns(root@, patterns.deep_view(), store.store_view()),
    {
        let mut packages: Vec<PackageInfo> = Vec::new();
        proof {
            assert(packages.deep_view() =~= Seq::<PackageInfoView>::empty());
        }
        let mut j: usize = 0;
        while j < patterns.len()
            invariant
                j <= patterns.len(),
                patterns.deep_view().len() == patterns.len(),
                spec_scan_patterns(
                    Seq::<PackageInfoView>::empty(),
                    root@,
                    patterns.deep_view(),
                    store.store_view(),
                    0,
                ) == spec_scan_patterns(
                    packages.deep_view(),
                    root@,
                    patterns.deep_view(),
                    store.store_view(),
                    j as int,
                ),
            decreases patterns.len() - j,
        {
            proof {
                assert(patterns.deep_view()[j as int] == patterns@[j as int]@);
            }
            let glob = join_path(
                &join_path(root, &patterns[j]),
                &String::from_str("package.json"),
            );
            let mut i: usize = 0;
            while i < store.entries.len()
                invariant
                    i <= store.entries.len(),
                    glob@ == spec_join_path(
                        spec_join_path(root@, patterns.deep_view()[j as int]),
                        "package.json"@,
                    ),
                    j < patterns.len(),
                    patterns.deep_view().len() == patterns.len(),
                    spec_scan_patterns(
                        Seq::<PackageInfoView>::empty(),
                        root@,
                        patterns.deep_view(),
                        store.store_view(),
                        0,
                    ) == spec_scan_patterns(
                        spec_scan_pattern(packages.deep_view(), glob@, store.store_view(), i as int),
                        root@,
                        patterns.deep_view(),
                        store.store_view(),
                        j + 1,
                    ),
                decreases store.entries.len() - i,
            {
                proof {
                    assert(store.store_view()[i as int] == (
                        store.entries@[i as int].path@,
                        store.entries@[i as int].manifest@,
                    ));
                }
                let entry = &store.entries[i];
                if glob_match(&glob, &entry.path) {
                    if let Some(n) = &entry.manifest.name {
                        proof {
                            assert(entry.manifest@.name == Some(n@));
                        }
                        let info = PackageInfo {
                            name: n.clone(),
                            path: parent_dir(&entry.path),
                            main: entry.manifest.main.clone(),
                            module: entry.manifest.module.clone(),
                            exports: match &entry.manifest.exports {
                                Some(e) => Some(e.clone()),
                                None => None,
                            },
                        };
                        proof {
                            assert(Some(info@) == spec_pkg_of_manifest(
                                store.store_view()[i as int].0,
                                store.store_view()[i as int].1,
                            ));
                        }
                        upsert_pkg(&mut packages, info);
                    }
                }
                i = i + 1;
            }
            j = j + 1;
        }
        Workspace { root: root.clone(), packages }
    }

    /// Detects a workspace: npm or yarn `workspaces` patterns take
    /// precedence over a pnpm `packages` list; an absent or empty pattern
    /// list means no workspace. The pattern lists come from the caller's
    /// parsed root manifests.
    pub fn detect(
        root: &String,
        npm_patterns: &Option<Vec<String>>,
        pnpm_patterns: &Option<Vec<String>>,
        store: &ManifestStore,
    ) -> (r: Option<Workspace>)
        ensures
            match r {
                Some(w) => Some(w@) == spec_detect(
                    root@,
                    npm_patterns.deep_view(),
                    pnpm_patterns.deep_view(),
                    store.store_view(),
                ),
                None => spec_detect(
                    root@,
                    npm_patterns.deep_view(),
                    pnpm_patterns.deep_view(),
                    store.store_view(),
                ) == None::<WorkspaceView>,
            },
    {
        if let Some(ps) = npm_patterns {
            if ps.len() > 0 {
                return Some(Self::from_patterns(root, ps, store));
            }
        }
        if let Some(ps) = pnpm_patterns {
            if ps.len() > 0 {
                return Some(Self::from_patterns(root, ps, store));
            }
        }
        None
    }
}

} // verus!
