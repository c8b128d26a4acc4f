//! String and path utilities.
//!
//! Paths are plain `String`s: absolute, `/`-separated and already
//! symlink-resolved by the caller. Everything here is ordinary character
//! logic; the specification functions define the meaning and the executable
//! functions compute them.

use vstd::prelude::*;

verus! {

/// Strict lexicographic order on character sequences, by code point.
pub open spec fn lex_lt(a: Seq<char>, b: Seq<char>) -> bool
    decreases a.len(),
{
    if b.len() == 0 {
        false
    } else if a.len() == 0 {
        true
    } else if (a[0] as int) < (b[0] as int) {
        true
    } else if (a[0] as int) > (b[0] as int) {
        false
    } else {
        lex_lt(a.drop_first(), b.drop_first())
    }
}

/// Non-strict lexicographic order.
pub open spec fn lex_le(a: Seq<char>, b: Seq<char>) -> bool {
    lex_lt(a, b) || a == b
}

/// Compares two strings in lexicographic code-point order.
pub fn str_lt(a: &String, b: &String) -> (r: bool)
    ensures
        r == lex_lt(a@, b@),
{
    let alen = a.as_str().unicode_len();
    let blen = b.as_str().unicode_len();
    let mut i: usize = 0;
    proof {
        assert(a@.skip(0) =~= a@);
        assert(b@.skip(0) =~= b@);
    }
    while i < alen && i < blen
        invariant
            i <= alen && i <= blen,
            alen == a@.len() && blen == b@.len(),
            lex_lt(a@, b@) == lex_lt(a@.skip(i as int), b@.skip(i as int)),
        decreases alen - i,
    {
        let ca = a.as_str().get_char(i);
        let cb = b.as_str().get_char(i);
        if (ca as u32) < (cb as u32) {
            proof {
                assert(a@.skip(i as int)[0] == ca);
                assert(b@.skip(i as int)[0] == cb);
            }
            return true;
        }
        if (ca as u32) > (cb as u32) {
            proof {
                assert(a@.skip(i as int)[0] == ca);
                assert(b@.skip(i as int)[0] == cb);
            }
            return false;
        }
        proof {
            assert(a@.skip(i as int)[0] == ca);
            assert(b@.skip(i as int)[0] == cb);
            assert(a@.skip(i as int).drop_first() =~= a@.skip(i + 1));
            assert(b@.skip(i as int).drop_first() =~= b@.skip(i + 1));
        }
        i = i + 1;
    }
    proof {
        if alen == blen {
            assert(a@.skip(i as int) =~= b@.skip(i as int));
        }
        if i == alen && alen < blen {
            assert(b@.skip(i as int).len() > 0);
        }
        if i == blen && blen < alen {
            assert(a@.skip(i as int).len() > 0);
        }
    }
    alen < blen
}

/// True when `a` is a prefix of `b`.
pub fn str_starts_with(b: &String, a: &String) -> (r: bool)
    ensures
        r == a@.is_prefix_of(b@),
{
    let alen = a.as_str().unicode_len();
    let blen = b.as_str().unicode_len();
    if alen > blen {
        return false;
    }
    let mut i: usize = 0;
    while i < alen
        invariant
            i <= alen <= blen,
            alen == a@.len() && blen == b@.len(),
            forall|j: int| 0 <= j < i ==> a@[j] == b@[j],
        decreases alen - i,
    {
        if a.as_str().get_char(i) != b.as_str().get_char(i) {
            return false;
        }
        i = i + 1;
    }
    proof {
        assert(a@ =~= b@.subrange(0, alen as int));
    }
    true
}

/// Equality test on strings, stated over their views.
pub fn str_eq(a: &String, b: &String) -> (r: bool)
    ensures
        r == (a@ == b@),
{
    a.eq(b)
}

/// Copies the character range `[from, to)` of `s` into a fresh string.
pub fn substr_string(s: &String, from: usize, to: usize) -> (r: String)
    requires
        from <= to <= s@.len(),
    ensures
        r@ == s@.subrange(from as int, to as int),
{
    String::from_str(s.as_str().substring_char(from, to))
}

/// Concatenation of two strings.
pub fn str_concat(a: &String, b: &String) -> (r: String)
    ensures
        r@ == a@ + b@,
{
    a.clone().concat(b.as_str())
}

/// The pieces of `s` between occurrences of `c`; splitting the empty string
/// gives one empty piece, and a separator at the end yields a final empty
/// piece, as `str::split` does.
pub open spec fn split_on_char(s: Seq<char>, c: char) -> Seq<Seq<char>>
    decreases s.len(),
{
    if s.len() == 0 {
        seq![Seq::<char>::empty()]
    } else {
        let rest = split_on_char(s.drop_last(), c);
        if s.last() == c {
            rest.push(Seq::<char>::empty())
        } else {
            rest.update(rest.len() - 1, rest.last().push(s.last()))
        }
    }
}

/// Splits `s` at every occurrence of `c`.
pub fn split_char(s: &String, c: char) -> (r: Vec<String>)
    ensures
        r.deep_view() == split_on_char(s@, c),
{
    let len = s.as_str().unicode_len();
    let mut r: Vec<String> = Vec::new();
    r.push(String::new());
    let mut i: usize = 0;
    proof {
        assert(s@.take(0) =~= Seq::<char>::empty());
        assert(r.deep_view() =~= split_on_char(s@.take(0), c));
    }
    while i < len
        invariant
            i <= len,
            len == s@.len(),
            r.deep_view() == split_on_char(s@.take(i as int), c),
            r.len() >= 1,
        decreases len - i,
    {
        let ch = s.as_str().get_char(i);
        proof {
            assert(s@.take(i + 1).drop_last() =~= s@.take(i as int));
            assert(s@.take(i + 1).last() == s@[i as int]);
        }
        if ch == c {
            r.push(String::new());
            proof {
                assert(r.deep_view() =~= split_on_char(s@.take(i as int), c).push(
                    Seq::<char>::empty(),
                ));
            }
        } else {
            let ghost old_r = r.deep_view();
            let last_idx = r.len() - 1;
            let mut piece = r.remove(last_idx);
            piece = piece.concat(s.as_str().substring_char(i, i + 1));
            r.push(piece);
            proof {
                assert(s@.subrange(i as int, i + 1) =~= seq![s@[i as int]]);
                assert(old_r.last().push(s@[i as int]) =~= old_r.last() + seq![s@[i as int]]);
                assert(r.deep_view() =~= old_r.update(old_r.len() - 1, old_r.last().push(
                    s@[i as int],
                )));
            }
        }
        i = i + 1;
    }
    proof {
        assert(s@.take(len as int) =~= s@);
    }
    r
}

/// The pieces joined back together with `sep` between them.
pub open spec fn join_with(pieces: Seq<Seq<char>>, sep: Seq<char>) -> Seq<char>
    decreases pieces.len(),
{
    if pieces.len() == 0 {
        Seq::<char>::empty()
    } else if pieces.len() == 1 {
        pieces[0]
    } else {
        pieces[0] + sep + join_with(pieces.drop_first(), sep)
    }
}

/// Appending one more piece appends one more separator.
pub proof fn lemma_join_with_push(pieces: Seq<Seq<char>>, sep: Seq<char>, x: Seq<char>)
    ensures
        join_with(pieces.push(x), sep) == if pieces.len() == 0 {
            x
        } else {
            join_with(pieces, sep) + sep + x
        },
    decreases pieces.len(),
{
    if pieces.len() == 0 {
        assert(pieces.push(x)[0] == x);
    } else if pieces.len() == 1 {
        assert(pieces.push(x).drop_first() =~= seq![x]);
        assert(join_with(pieces.push(x).drop_first(), sep) == x);
    } else {
        assert(pieces.push(x).drop_first() =~= pieces.drop_first().push(x));
        lemma_join_with_push(pieces.drop_first(), sep, x);
        assert(pieces.push(x)[0] == pieces[0]);
        assert(pieces[0] + sep + (join_with(pieces.drop_first(), sep) + sep + x) =~= (pieces[0]
            + sep + join_with(pieces.drop_first(), sep)) + sep + x);
    }
}

/// Joins `pieces` with the separator `sep`.
pub fn join_strings(pieces: &Vec<String>, sep: &String) -> (r: String)
    ensures
        r@ == join_with(pieces.deep_view(), sep@),
{
    if pieces.len() == 0 {
        return String::new();
    }
    let mut r = pieces[0].clone();
    let mut i: usize = 1;
    proof {
        assert(pieces.deep_view().take(1) =~= seq![pieces.deep_view()[0]]);
    }
    while i < pieces.len()
        invariant
            1 <= i <= pieces.len(),
            pieces.deep_view().len() == pieces.len(),
            r@ == join_with(pieces.deep_view().take(i as int), sep@),
        decreases pieces.len() - i,
    {
        proof {
            assert(pieces.deep_view().take(i + 1) =~= pieces.deep_view().take(i as int).push(
                pieces.deep_view()[i as int],
            ));
            lemma_join_with_push(pieces.deep_view().take(i as int), sep@, pieces.deep_view()[i as int]);
        }
        r.append(sep.as_str());
        r.append(pieces[i].as_str());
        i = i + 1;
    }
    proof {
        assert(pieces.deep_view().take(pieces.len() as int) =~= pieces.deep_view());
    }
    r
}

/// Position of the last occurrence of `c` in `s`, or `-1` if absent.
pub open spec fn find_last(s: Seq<char>, c: char) -> int
    decreases s.len(),
{
    if s.len() == 0 {
        -1
    } else if s.last() == c {
        s.len() - 1
    } else {
        find_last(s.drop_last(), c)
    }
}

pub proof fn lemma_find_last_range(s: Seq<char>, c: char)
    ensures
        -1 <= find_last(s, c) < s.len(),
        find_last(s, c) >= 0 ==> s[find_last(s, c)] == c,
    decreases s.len(),
{
    if s.len() > 0 && s.last() != c {
        lemma_find_last_range(s.drop_last(), c);
    }
}

/// Finds the last occurrence of `c` in `s`.
pub fn find_last_char(s: &String, c: char) -> (r: Option<usize>)
    ensures
        match r {
            Some(i) => i == find_last(s@, c),
            None => find_last(s@, c) == -1,
        },
{
    let len = s.as_str().unicode_len();
    let mut i: usize = len;
    proof {
        assert(s@.take(len as int) =~= s@);
    }
    while i > 0
        invariant
            i <= len,
            len == s@.len(),
            find_last(s@, c) == find_last(s@.take(i as int), c),
        decreases i,
    {
        proof {
            assert(s@.take(i as int).last() == s@[i - 1]);
            assert(s@.take(i as int).drop_last() =~= s@.take(i - 1));
        }
        if s.as_str().get_char(i - 1) == c {
            return Some(i - 1);
        }
        i = i - 1;
    }
    proof {
        assert(s@.take(0) =~= Seq::<char>::empty());
    }
    None
}

/// The directory part of a path: everything before the last `/`, with the
/// root directory kept as `/`. A path without `/` has the empty parent.
pub open spec fn spec_parent_dir(p: Seq<char>) -> Seq<char> {
    let i = find_last(p, '/');
    if i == -1 {
        Seq::<char>::empty()
    } else if i == 0 {
        seq!['/']
    } else {
        p.take(i)
    }
}

/// The directory containing the file at `p`.
pub fn parent_dir(p: &String) -> (r: String)
    ensures
        r@ == spec_parent_dir(p@),
{
    proof {
        lemma_find_last_range(p@, '/');
        reveal_strlit("/");
        reveal_strlit("");
    }
    match find_last_char(p, '/') {
        None => String::from_str(""),
        Some(0) => String::from_str("/"),
        Some(i) => substr_string(p, 0, i),
    }
}

/// A directory path and a path relative to it, joined with a single `/`.
pub open spec fn spec_join_path(dir: Seq<char>, rel: Seq<char>) -> Seq<char> {
    if dir.len() > 0 && dir.last() == '/' {
        dir + rel
    } else {
        dir + seq!['/'] + rel
    }
}

/// Joins a directory path and a relative path.
pub fn join_path(dir: &String, rel: &String) -> (r: String)
    ensures
        r@ == spec_join_path(dir@, rel@),
{
    let dlen = dir.as_str().unicode_len();
    let mut r = dir.clone();
    if dlen == 0 || dir.as_str().get_char(dlen - 1) != '/' {
        proof {
            reveal_strlit("/");
        }
        r.append("/");
        proof {
            assert(dir@ + "/"@ =~= dir@ + seq!['/']);
        }
    }
    r.append(rel.as_str());
    r
}

/// One step of lexical path normalization, applied to a list of path
/// components: empty components and `.` disappear, `..` removes the
/// component before it, everything else stays.
pub open spec fn norm_comps(comps: Seq<Seq<char>>) -> Seq<Seq<char>>
    decreases comps.len(),
{
    if comps.len() == 0 {
        Seq::<Seq<char>>::empty()
    } else {
        let rest = norm_comps(comps.drop_last());
        let last = comps.last();
        if last.len() == 0 || last == seq!['.'] {
            rest
        } else if last == seq!['.', '.'] {
            if rest.len() > 0 {
                rest.drop_last()
            } else {
                rest
            }
        } else {
            rest.push(last)
        }
    }
}

/// Lexical normalization of a path: redundant `.`, `..` and empty
/// components are resolved; a leading `/` is kept.
pub open spec fn spec_normalize_path(p: Seq<char>) -> Seq<char> {
    let joined = join_with(norm_comps(split_on_char(p, '/')), seq!['/']);
    if p.len() > 0 && p[0] == '/' {
        seq!['/'] + joined
    } else {
        joined
    }
}

/// Normalizes a path lexically, resolving `.`, `..` and doubled slashes.
pub fn normalize_path(p: &String) -> (r: String)
    ensures
        r@ == spec_normalize_path(p@),
{
    let comps = split_char(p, '/');
    let mut stack: Vec<String> = Vec::new();
    let mut i: usize = 0;
    proof {
        assert(comps.deep_view().take(0) =~= Seq::<Seq<char>>::empty());
        assert(stack.deep_view() =~= norm_comps(comps.deep_view().take(0)));
    }
    while i < comps.len()
        invariant
            i <= comps.len(),
            comps.deep_view().len() == comps.len(),
            forall|j: int| 0 <= j < comps.len() ==> comps.deep_view()[j] == comps@[j]@,
            stack.deep_view() == norm_comps(comps.deep_view().take(i as int)),
        decreases comps.len() - i,
    {
        proof {
            assert(comps.deep_view().take(i + 1).drop_last() =~= comps.deep_view().take(i as int));
            assert(comps.deep_view().take(i + 1).last() == comps.deep_view()[i as int]);
        }
        let c = &comps[i];
        let clen = c.as_str().unicode_len();
        if clen == 0 {
            // an empty component disappears
        } else if clen == 1 && c.as_str().get_char(0) == '.' {
            proof {
                assert(c@ =~= seq!['.']);
            }
        } else if clen == 2 && c.as_str().get_char(0) == '.' && c.as_str().get_char(1) == '.' {
            proof {
                assert(c@ =~= seq!['.', '.']);
            }
            if stack.len() > 0 {
                let ghost old_stack = stack.deep_view();
                stack.pop();
                proof {
                    assert(stack.deep_view() =~= old_stack.drop_last());
                }
            }
        } else {
            proof {
                assert(c@ != seq!['.'] && c@ != seq!['.', '.'] && c@.len() > 0);
            }
            stack.push(c.clone());
            proof {
                assert(stack.deep_view() =~= norm_comps(comps.deep_view().take(i as int)).push(c@));
            }
        }
        i = i + 1;
    }
    proof {
        assert(comps.deep_view().take(comps.len() as int) =~= comps.deep_view());
    }
    let sep = String::from_str("/");
    proof {
        reveal_strlit("/");
        assert(sep@ =~= seq!['/']);
    }
    let joined = join_strings(&stack, &sep);
    let plen = p.as_str().unicode_len();
    if plen > 0 && p.as_str().get_char(0) == '/' {
        let r = str_concat(&sep, &joined);
        r
    } else {
        joined
    }
}

/// The path `p` relative to `root`: the part after `root/` when `p` lies
/// under `root`, the empty string when `p` is `root` itself, and `p`
/// unchanged otherwise.
pub open spec fn spec_relative_path(p: Seq<char>, root: Seq<char>) -> Seq<char> {
    if root.len() > 0 && root.last() == '/' && root.is_prefix_of(p) {
        p.skip(root.len() as int)
    } else if root.is_prefix_of(p) && p.len() > root.len() && p[root.len() as int] == '/' {
        p.skip(root.len() as int + 1)
    } else if p == root {
        Seq::<char>::empty()
    } else {
        p
    }
}

/// Converts an absolute path to a path relative to `root` for display and
/// hashing; a path not under `root` is returned unchanged.
pub fn relative_path_string(path: &String, root: &String) -> (r: String)
    ensures
        r@ == spec_relative_path(path@, root@),
{
    let rlen = root.as_str().unicode_len();
    let plen = path.as_str().unicode_len();
    if str_starts_with(path, root) {
        if rlen > 0 && root.as_str().get_char(rlen - 1) == '/' {
            return substr_string(path, rlen, plen);
        }
        if plen > rlen && path.as_str().get_char(rlen) == '/' {
            return substr_string(path, rlen + 1, plen);
        }
        if plen == rlen {
            proof {
                assert(path@ =~= root@);
            }
            return String::new();
        }
    }
    path.clone()
}

/// Whitespace for the purpose of trimming configuration text.
pub open spec fn is_space(c: char) -> bool {
    c == ' ' || c == '\t' || c == '\r' || c == '\n'
}

pub open spec fn spec_trim_start(s: Seq<char>) -> Seq<char>
    decreases s.len(),
{
    if s.len() > 0 && is_space(s[0]) {
        spec_trim_start(s.drop_first())
    } else {
        s
    }
}

pub open spec fn spec_trim_end(s: Seq<char>) -> Seq<char>
    decreases s.len(),
{
    if s.len() > 0 && is_space(s.last()) {
        spec_trim_end(s.drop_last())
    } else {
        s
    }
}

/// `s` without leading and trailing whitespace.
pub open spec fn spec_trim(s: Seq<char>) -> Seq<char> {
    spec_trim_end(spec_trim_start(s))
}

proof fn lemma_trim_start_skip(s: Seq<char>, a: int)
    requires
        0 <= a <= s.len(),
        forall|j: int| 0 <= j < a ==> is_space(s[j]),
        a < s.len() ==> !is_space(s[a]),
    ensures
        spec_trim_start(s) == s.skip(a),
    decreases a,
{
    if a == 0 {
        assert(s.skip(0) =~= s);
    } else {
        assert(is_space(s[0]));
        lemma_trim_start_skip(s.drop_first(), a - 1);
        assert(s.drop_first().skip(a - 1) =~= s.skip(a));
    }
}

proof fn lemma_trim_end_take(s: Seq<char>, b: int)
    requires
        0 <= b <= s.len(),
        forall|j: int| b <= j < s.len() ==> is_space(s[j]),
        b > 0 ==> !is_space(s[b - 1]),
    ensures
        spec_trim_end(s) == s.take(b),
    decreases s.len() - b,
{
    if b == s.len() {
        assert(s.take(b) =~= s);
    } else {
        assert(is_space(s.last()));
        lemma_trim_end_take(s.drop_last(), b);
        assert(s.drop_last().take(b) =~= s.take(b));
    }
}

/// Whether `c` is whitespace, executably.
fn is_space_char(c: char) -> (r: bool)
    ensures
        r == is_space(c),
{
    c == ' ' || c == '\t' || c == '\r' || c == '\n'
}

/// Removes leading and trailing whitespace.
pub fn trim_string(s: &String) -> (r: String)
    ensures
        r@ == spec_trim(s@),
{
    let len = s.as_str().unicode_len();
    let mut a: usize = 0;
    while a < len && is_space_char(s.as_str().get_char(a))
        invariant
            a <= len,
            len == s@.len(),
            forall|j: int| 0 <= j < a ==> is_space(s@[j]),
        decreases len - a,
    {
        a = a + 1;
    }
    proof {
        lemma_trim_start_skip(s@, a as int);
    }
    let mut b: usize = len;
    while b > a && is_space_char(s.as_str().get_char(b - 1))
        invariant
            a <= b <= len,
            len == s@.len(),
            forall|j: int| b <= j < len ==> is_space(s@[j]),
        decreases b,
    {
        b = b - 1;
    }
    proof {
        let t = s@.skip(a as int);
        assert(forall|j: int| b - a <= j < t.len() ==> is_space(#[trigger] t[j]));
        if b > a {
            assert(!is_space(t[b - a - 1]));
        }
        lemma_trim_end_take(t, b - a);
        assert(t.take(b - a) =~= s@.subrange(a as int, b as int));
    }
    substr_string(s, a, b)
}

/// `p` with its file-name extension replaced by `ext` (without dot):
/// everything from the last `.` of the file name onward is dropped, unless
/// that dot starts the file name, and `.ext` is appended.
pub open spec fn spec_with_extension(p: Seq<char>, ext: Seq<char>) -> Seq<char> {
    let si = find_last(p, '/');
    let name = p.skip(si + 1);
    let di = find_last(name, '.');
    let stem_end = if di <= 0 {
        name.len() as int
    } else {
        di
    };
    p.take(si + 1 + stem_end) + seq!['.'] + ext
}

/// Replaces the extension of the file name in `p` by `ext`.
pub fn with_extension(p: &String, ext: &String) -> (r: String)
    ensures
        r@ == spec_with_extension(p@, ext@),
{
    let plen = p.as_str().unicode_len();
    proof {
        lemma_find_last_range(p@, '/');
    }
    let name_start: usize = match find_last_char(p, '/') {
        None => 0,
        Some(i) => i + 1,
    };
    let name = substr_string(p, name_start, plen);
    proof {
        assert(name@ =~= p@.skip(find_last(p@, '/') + 1));
        lemma_find_last_range(name@, '.');
    }
    let stem_end: usize = match find_last_char(&name, '.') {
        None => plen,
        Some(0) => plen,
        Some(d) => name_start + d,
    };
    let mut r = substr_string(p, 0, stem_end);
    proof {
        reveal_strlit(".");
    }
    r.append(".");
    r.append(ext.as_str());
    proof {
        assert(r@ =~= p@.take(find_last(p@, '/') + 1 + (if find_last(
            p@.skip(find_last(p@, '/') + 1),
            '.',
        ) <= 0 {
            p@.skip(find_last(p@, '/') + 1).len() as int
        } else {
            find_last(p@.skip(find_last(p@, '/') + 1), '.')
        })) + seq!['.'] + ext@);
    }
    r
}

/// Every `*` in `s` replaced by `sub`.
pub open spec fn spec_replace_star(s: Seq<char>, sub: Seq<char>) -> Seq<char> {
    join_with(split_on_char(s, '*'), sub)
}

/// Replaces each `*` in `s` by `sub`.
pub fn replace_star(s: &String, sub: &String) -> (r: String)
    ensures
        r@ == spec_replace_star(s@, sub@),
{
    let pieces = split_char(s, '*');
    join_strings(&pieces, sub)
}

/// Lexicographic order is total: two sequences that are not strictly
/// ordered either way are equal.
pub proof fn lemma_lex_total(a: Seq<char>, b: Seq<char>)
    requires
        !lex_lt(a, b),
        !lex_lt(b, a),
    ensures
        a == b,
    decreases a.len(),
{
    if a.len() == 0 && b.len() == 0 {
        assert(a =~= b);
    } else if a.len() > 0 && b.len() > 0 {
        lemma_lex_total(a.drop_first(), b.drop_first());
        assert((a[0] as u32) == (b[0] as u32));
        assert(a[0] == b[0]);
        assert(a =~= seq![a[0]] + a.drop_first());
        assert(b =~= seq![b[0]] + b.drop_first());
        assert(a =~= b);
    }
}

/// Lexicographic order is transitive.
pub proof fn lemma_lex_lt_trans(a: Seq<char>, b: Seq<char>, c: Seq<char>)
    requires
        lex_lt(a, b),
        lex_lt(b, c),
    ensures
        lex_lt(a, c),
    decreases a.len(),
{
    if a.len() > 0 && b.len() > 0 && c.len() > 0 {
        if (a[0] as int) == (b[0] as int) && (b[0] as int) == (c[0] as int) {
            lemma_lex_lt_trans(a.drop_first(), b.drop_first(), c.drop_first());
        }
    }
}

/// Lexicographic order is irreflexive.
pub proof fn lemma_lex_irrefl(a: Seq<char>)
    ensures
        !lex_lt(a, a),
    decreases a.len(),
{
    if a.len() > 0 {
        lemma_lex_irrefl(a.drop_first());
    }
}

/// Lexicographic order is asymmetric.
pub proof fn lemma_lex_asym(a: Seq<char>, b: Seq<char>)
    requires
        lex_lt(a, b),
    ensures
        !lex_lt(b, a),
    decreases a.len(),
{
    if a.len() > 0 && b.len() > 0 {
        if (a[0] as int) == (b[0] as int) {
            lemma_lex_asym(a.drop_first(), b.drop_first());
        }
    }
}

/// A list of strings in non-decreasing lexicographic order.
pub open spec fn is_sorted_strings(s: Seq<Seq<char>>) -> bool {
    forall|i: int, j: int| 0 <= i < j < s.len() ==> lex_le(#[trigger] s[i], #[trigger] s[j])
}

/// `x` inserted before the first element not below it.
pub open spec fn spec_insert_sorted(x: Seq<char>, s: Seq<Seq<char>>) -> Seq<Seq<char>>
    decreases s.len(),
{
    if s.len() == 0 {
        seq![x]
    } else if lex_le(x, s[0]) {
        seq![x] + s
    } else {
        seq![s[0]] + spec_insert_sorted(x, s.drop_first())
    }
}

/// The strings sorted lexicographically, by repeated insertion in order.
pub open spec fn spec_sort_lex(s: Seq<Seq<char>>) -> Seq<Seq<char>>
    decreases s.len(),
{
    if s.len() == 0 {
        Seq::<Seq<char>>::empty()
    } else {
        spec_insert_sorted(s.last(), spec_sort_lex(s.drop_last()))
    }
}

/// Inserting into a sorted list keeps it sorted and adds the element.
pub proof fn lemma_insert_sorted(x: Seq<char>, s: Seq<Seq<char>>)
    requires
        is_sorted_strings(s),
    ensures
        is_sorted_strings(spec_insert_sorted(x, s)),
        spec_insert_sorted(x, s).to_multiset() == s.to_multiset().insert(x),
        spec_insert_sorted(x, s).len() == s.len() + 1,
    decreases s.len(),
{
    broadcast use vstd::seq_lib::group_to_multiset_ensures;
    broadcast use vstd::multiset::group_multiset_axioms;

    let r = spec_insert_sorted(x, s);
    if s.len() == 0 {
        assert(r =~= Seq::<Seq<char>>::empty().push(x));
        assert(Seq::<Seq<char>>::empty().push(x).to_multiset() =~= Seq::<
            Seq<char>,
        >::empty().to_multiset().insert(x));
    } else if lex_le(x, s[0]) {
        assert forall|i: int, j: int| 0 <= i < j < r.len() implies lex_le(
            #[trigger] r[i],
            #[trigger] r[j],
        ) by {
            if i == 0 {
                if j > 1 {
                    assert(lex_le(s[0], s[j - 1]));
                    if lex_lt(s[0], s[j - 1]) {
                        if lex_lt(x, s[0]) {
                            lemma_lex_lt_trans(x, s[0], s[j - 1]);
                        }
                    }
                }
            } else {
                assert(r[i] == s[i - 1] && r[j] == s[j - 1]);
            }
        }
        lemma_multiset_prepend(x, s);
    } else {
        assert forall|i: int, j: int| 0 <= i < j < s.drop_first().len() implies lex_le(
            #[trigger] s.drop_first()[i],
            #[trigger] s.drop_first()[j],
        ) by {
            assert(s.drop_first()[i] == s[i + 1] && s.drop_first()[j] == s[j + 1]);
        }
        lemma_insert_sorted(x, s.drop_first());
        let rr = spec_insert_sorted(x, s.drop_first());
        assert forall|i: int, j: int| 0 <= i < j < r.len() implies lex_le(
            #[trigger] r[i],
            #[trigger] r[j],
        ) by {
            if i == 0 {
                assert(r[j] == rr[j - 1]);
                assert(rr.contains(rr[j - 1]));
                assert(rr.to_multiset().count(rr[j - 1]) > 0);
                if rr[j - 1] == x {
                    assert(!lex_le(x, s[0]));
                    if !lex_lt(s[0], x) {
                        lemma_lex_total(s[0], x);
                    }
                    assert(lex_le(s[0], x));
                } else {
                    assert(s.drop_first().to_multiset().count(rr[j - 1]) > 0);
                    assert(s.drop_first().contains(rr[j - 1]));
                    let k = choose|k: int|
                        0 <= k < s.drop_first().len() && s.drop_first()[k] == rr[j - 1];
                    assert(s.drop_first()[k] == s[k + 1]);
                    assert(lex_le(s[0], s[k + 1]));
                }
            } else {
                assert(r[i] == rr[i - 1] && r[j] == rr[j - 1]);
            }
        }
        lemma_multiset_prepend(s[0], s.drop_first());
        assert(s =~= seq![s[0]] + s.drop_first());
        lemma_multiset_prepend(s[0], spec_insert_sorted(x, s.drop_first()));
        assert(r.to_multiset() =~= s.to_multiset().insert(x));
    }
}

/// Prepending one element inserts it into the multiset.
pub proof fn lemma_multiset_prepend(x: Seq<char>, s: Seq<Seq<char>>)
    ensures
        (seq![x] + s).to_multiset() == s.to_multiset().insert(x),
    decreases s.len(),
{
    broadcast use vstd::seq_lib::group_to_multiset_ensures;
    broadcast use vstd::multiset::group_multiset_axioms;

    if s.len() == 0 {
        assert(seq![x] + s =~= Seq::<Seq<char>>::empty().push(x));
    } else {
        lemma_multiset_prepend(x, s.drop_last());
        assert(seq![x] + s =~= (seq![x] + s.drop_last()).push(s.last()));
        assert((seq![x] + s.drop_last()).push(s.last()).to_multiset() =~= (seq![x]
            + s.drop_last()).to_multiset().insert(s.last()));
        assert(s =~= s.drop_last().push(s.last()));
        assert(s.to_multiset() =~= s.drop_last().to_multiset().insert(s.last()));
        assert(s.drop_last().to_multiset().insert(x).insert(s.last())
            =~= s.drop_last().to_multiset().insert(s.last()).insert(x));
    }
}

/// The sorted form holds the same strings, in non-decreasing order.
pub proof fn lemma_sort_lex(s: Seq<Seq<char>>)
    ensures
        is_sorted_strings(spec_sort_lex(s)),
        spec_sort_lex(s).to_multiset() == s.to_multiset(),
        spec_sort_lex(s).len() == s.len(),
    decreases s.len(),
{
    broadcast use vstd::seq_lib::group_to_multiset_ensures;
    broadcast use vstd::multiset::group_multiset_axioms;

    if s.len() == 0 {
    } else {
        lemma_sort_lex(s.drop_last());
        lemma_insert_sorted(s.last(), spec_sort_lex(s.drop_last()));
        assert(s =~= s.drop_last().push(s.last()));
        assert(s.to_multiset() =~= s.drop_last().to_multiset().insert(s.last()));
    }
}

/// Inserts `x` into a sorted list of strings, before the first element not
/// below it.
pub fn insert_sorted(x: String, s: Vec<String>) -> (r: Vec<String>)
    ensures
        r.deep_view() == spec_insert_sorted(x@, s.deep_view()),
{
    let ghost sdeep = s.deep_view();
    let mut j: usize = 0;
    while j < s.len() && str_lt(&s[j], &x)
        invariant
            j <= s.len(),
            sdeep == s.deep_view(),
            s.deep_view().len() == s.len(),
            forall|k: int| 0 <= k < j ==> !lex_le(x@, #[trigger] s.deep_view()[k]),
        decreases s.len() - j,
    {
        proof {
            let sj = s.deep_view()[j as int];
            assert(lex_lt(sj, x@));
            if lex_lt(x@, sj) {
                lemma_lex_asym(x@, sj);
            }
            if x@ == sj {
                lemma_lex_irrefl(x@);
            }
            assert(!lex_le(x@, sj));
        }
        j = j + 1;
    }
    proof {
        if j < s.len() {
            let sj = s.deep_view()[j as int];
            if !lex_lt(x@, sj) {
                lemma_lex_total(x@, sj);
            }
            assert(lex_le(x@, sj));
        }
        lemma_insert_position(x@, s.deep_view(), j as int);
    }
    let mut r = s;
    r.insert(j, x);
    proof {
        assert(r.deep_view() =~= sdeep.take(j as int).add(seq![x@]).add(sdeep.skip(j as int)));
    }
    r
}

/// Where the first fitting position is `j`, insertion is insertion at `j`.
proof fn lemma_insert_position(x: Seq<char>, s: Seq<Seq<char>>, j: int)
    requires
        0 <= j <= s.len(),
        forall|k: int| 0 <= k < j ==> !lex_le(x, #[trigger] s[k]),
        j < s.len() ==> lex_le(x, s[j]),
    ensures
        spec_insert_sorted(x, s) == s.take(j).add(seq![x]).add(s.skip(j)),
    decreases j,
{
    if j == 0 {
        if s.len() == 0 {
            assert(spec_insert_sorted(x, s) =~= s.take(0).add(seq![x]).add(s.skip(0)));
        } else {
            assert(spec_insert_sorted(x, s) =~= s.take(0).add(seq![x]).add(s.skip(0)));
        }
    } else {
        assert(!lex_le(x, s[0]));
        assert forall|k: int| 0 <= k < j - 1 implies !lex_le(x, #[trigger] s.drop_first()[k]) by {
            assert(s.drop_first()[k] == s[k + 1]);
        }
        if j - 1 < s.drop_first().len() {
            assert(s.drop_first()[j - 1] == s[j]);
        }
        lemma_insert_position(x, s.drop_first(), j - 1);
        assert(s.drop_first().take(j - 1) =~= s.take(j).drop_first());
        assert(s.drop_first().skip(j - 1) =~= s.skip(j));
        assert(seq![s[0]] + (s.take(j).drop_first().add(seq![x]).add(s.skip(j))) =~= s.take(j).add(
            seq![x],
        ).add(s.skip(j)));
    }
}

/// Sorts strings lexicographically by code point.
pub fn sort_strings(v: &Vec<String>) -> (r: Vec<String>)
    ensures
        r.deep_view() == spec_sort_lex(v.deep_view()),
        is_sorted_strings(r.deep_view()),
        r.deep_view().to_multiset() == v.deep_view().to_multiset(),
        r.len() == v.len(),
{
    let mut r: Vec<String> = Vec::new();
    let mut i: usize = 0;
    proof {
        assert(v.deep_view().take(0) =~= Seq::<Seq<char>>::empty());
        assert(r.deep_view() =~= spec_sort_lex(v.deep_view().take(0)));
    }
    while i < v.len()
        invariant
            i <= v.len(),
            v.deep_view().len() == v.len(),
            r.deep_view() == spec_sort_lex(v.deep_view().take(i as int)),
        decreases v.len() - i,
    {
        proof {
            assert(v.deep_view().take(i + 1).drop_last() =~= v.deep_view().take(i as int));
            assert(v.deep_view().take(i + 1).last() == v.deep_view()[i as int]);
        }
        r = insert_sorted(v[i].clone(), r);
        i = i + 1;
    }
    proof {
        assert(v.deep_view().take(v.len() as int) =~= v.deep_view());
        lemma_sort_lex(v.deep_view());
    }
    r
}


/// Position of the first occurrence of `sep` in `s`, or `-1` if absent.
pub open spec fn find_sub(s: Seq<char>, sep: Seq<char>) -> int
    decreases s.len(),
{
    if sep.is_prefix_of(s) {
        0
    } else if s.len() == 0 {
        -1
    } else {
        let r = find_sub(s.drop_first(), sep);
        if r == -1 {
            -1
        } else {
            1 + r
        }
    }
}

pub proof fn lemma_find_sub(s: Seq<char>, sep: Seq<char>)
    ensures
        -1 <= find_sub(s, sep) <= s.len(),
        find_sub(s, sep) >= 0 ==> sep.is_prefix_of(s.skip(find_sub(s, sep))) && find_sub(s, sep)
            + sep.len() <= s.len(),
        find_sub(s, sep) >= 0 ==> forall|i: int|
            0 <= i < find_sub(s, sep) ==> !sep.is_prefix_of(s.skip(i)),
        find_sub(s, sep) == -1 ==> forall|i: int|
            0 <= i <= s.len() ==> !sep.is_prefix_of(s.skip(i)),
    decreases s.len(),
{
    if sep.is_prefix_of(s) {
        assert(s.skip(0) =~= s);
    } else if s.len() == 0 {
        assert forall|i: int| 0 <= i <= s.len() implies !sep.is_prefix_of(s.skip(i)) by {
            assert(s.skip(i) =~= s);
        }
    } else {
        lemma_find_sub(s.drop_first(), sep);
        assert forall|i: int| 1 <= i <= s.len() implies s.skip(i) =~= s.drop_first().skip(
            i - 1,
        ) by {}
        let r = find_sub(s.drop_first(), sep);
        if r == -1 {
            assert forall|i: int| 0 <= i <= s.len() implies !sep.is_prefix_of(s.skip(i)) by {
                if i == 0 {
                    assert(s.skip(0) =~= s);
                } else {
                    assert(s.skip(i) =~= s.drop_first().skip(i - 1));
                }
            }
        } else {
            assert(s.skip(1 + r) =~= s.drop_first().skip(r));
            assert forall|i: int| 0 <= i < 1 + r implies !sep.is_prefix_of(s.skip(i)) by {
                if i == 0 {
                    assert(s.skip(0) =~= s);
                } else {
                    assert(s.skip(i) =~= s.drop_first().skip(i - 1));
                }
            }
        }
    }
}

/// Whether `sep` occurs in `s` starting at position `i`.
fn matches_at(s: &String, sep: &String, i: usize) -> (r: bool)
    requires
        i + sep@.len() <= s@.len(),
    ensures
        r == sep@.is_prefix_of(s@.skip(i as int)),
{
    let seplen = sep.as_str().unicode_len();
    let slen = s.as_str().unicode_len();
    let mut j: usize = 0;
    while j < seplen
        invariant
            j <= seplen,
            seplen == sep@.len(),
            slen == s@.len(),
            i + seplen <= s@.len(),
            forall|k: int| 0 <= k < j ==> sep@[k] == s@[i + k],
        decreases seplen - j,
    {
        if sep.as_str().get_char(j) != s.as_str().get_char(i + j) {
            proof {
                assert(s@.skip(i as int).subrange(0, sep@.len() as int)[j as int] == s@[i + j]);
            }
            return false;
        }
        j = j + 1;
    }
    proof {
        assert(sep@ =~= s@.skip(i as int).subrange(0, sep@.len() as int));
    }
    true
}

/// Finds the first occurrence of `sep` in `s`.
pub fn find_substring(s: &String, sep: &String) -> (r: Option<usize>)
    requires
        sep@.len() > 0,
    ensures
        match r {
            Some(i) => i == find_sub(s@, sep@),
            None => find_sub(s@, sep@) == -1,
        },
{
    proof {
        lemma_find_sub(s@, sep@);
    }
    let slen = s.as_str().unicode_len();
    let seplen = sep.as_str().unicode_len();
    if seplen > slen {
        return None;
    }
    let lim = slen - seplen;
    let mut i: usize = 0;
    while i <= lim
        invariant
            lim == slen - seplen,
            seplen <= slen,
            seplen > 0,
            i <= lim + 1,
            slen == s@.len() && seplen == sep@.len(),
            forall|k: int| 0 <= k < i ==> !sep@.is_prefix_of(s@.skip(k)),
            -1 <= find_sub(s@, sep@) <= s@.len(),
            find_sub(s@, sep@) >= 0 ==> sep@.is_prefix_of(s@.skip(find_sub(s@, sep@)))
                && find_sub(s@, sep@) + sep@.len() <= s@.len(),
            find_sub(s@, sep@) >= 0 ==> forall|k: int|
                0 <= k < find_sub(s@, sep@) ==> !sep@.is_prefix_of(s@.skip(k)),
            find_sub(s@, sep@) == -1 ==> forall|k: int|
                0 <= k <= s@.len() ==> !sep@.is_prefix_of(s@.skip(k)),
        decreases slen - i,
    {
        if matches_at(s, sep, i) {
            return Some(i);
        }
        i = i + 1;
    }
    proof {
        if find_sub(s@, sep@) >= 0 {
            assert(!sep@.is_prefix_of(s@.skip(find_sub(s@, sep@))));
        }
    }
    None
}

/// The pieces of `s` between occurrences of the separator `sep`.
pub open spec fn split_on_sub(s: Seq<char>, sep: Seq<char>) -> Seq<Seq<char>>
    decreases s.len(),
{
    if sep.len() == 0 {
        seq![s]
    } else {
        let i = find_sub(s, sep);
        if i < 0 || i + sep.len() > s.len() {
            seq![s]
        } else {
            seq![s.take(i)] + split_on_sub(s.skip(i + sep.len()), sep)
        }
    }
}

/// Splits `s` at every occurrence of `sep`.
pub fn split_substring(s: &String, sep: &String) -> (r: Vec<String>)
    requires
        sep@.len() > 0,
    ensures
        r.deep_view() == split_on_sub(s@, sep@),
{
    let seplen = sep.as_str().unicode_len();
    let mut rem = s.clone();
    let mut acc: Vec<String> = Vec::new();
    proof {
        assert(acc.deep_view() + split_on_sub(rem@, sep@) =~= split_on_sub(s@, sep@));
    }
    loop
        invariant
            seplen == sep@.len() > 0,
            acc.deep_view() + split_on_sub(rem@, sep@) == split_on_sub(s@, sep@),
        decreases rem@.len(),
    {
        proof {
            lemma_find_sub(rem@, sep@);
        }
        match find_substring(&rem, sep) {
            Some(i) => {
                let ghost old_acc = acc.deep_view();
                let ghost old_rem = rem@;
                let rlen = rem.as_str().unicode_len();
                let piece = substr_string(&rem, 0, i);
                acc.push(piece);
                rem = substr_string(&rem, i + seplen, rlen);
                proof {
                    assert(old_rem.take(i as int) =~= old_rem.subrange(0, i as int));
                    assert(old_rem.skip(i + sep@.len()) =~= old_rem.subrange(
                        i + seplen,
                        old_rem.len() as int,
                    ));
                    assert(acc.deep_view() =~= old_acc.push(old_rem.take(i as int)));
                    assert(old_acc + (seq![old_rem.take(i as int)] + split_on_sub(rem@, sep@))
                        =~= acc.deep_view() + split_on_sub(rem@, sep@));
                }
            },
            None => {
                acc.push(rem);
                proof {
                    assert(acc.deep_view() =~= split_on_sub(s@, sep@));
                }
                return acc;
            },
        }
    }
}

} // verus!
