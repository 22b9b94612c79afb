//! Relative paths written with `/`: checking, joining and normalizing them.
use vstd::prelude::*;

use crate::error::VdmError;
use crate::text::{
    ends_with, find_char, find_char_from, has_glob_char, has_glob_char_exec, has_suffix, join_char, join_char_exec,
    lemma_find_char_first, lemma_find_char_from_bounds, lemma_find_char_none, push_all, slice_chars, split_char,
    split_char_exec,
};

verus! {

pub open spec fn dot() -> Seq<char> {
    seq!['.']
}

pub open spec fn dot_dot() -> Seq<char> {
    seq!['.', '.']
}

/// Every component of `s`, read as a Unix path, is a plain name: `s` is not
/// absolute, does not start with `.`, and has no `..` piece.  (This is when all
/// of `std::path::Path::components` are `Component::Normal`.)
pub open spec fn path_all_normal(s: Seq<char>) -> bool {
    let segs = split_char(s, '/');
    &&& !(s.len() > 0 && s[0] == '/')
    &&& segs[0] != dot()
    &&& forall|i: int| 0 <= i < segs.len() ==> segs[i] != dot_dot()
}

/// A single path component (holding no `/`) is a plain name.
pub open spec fn component_is_normal(part: Seq<char>) -> bool {
    part.len() > 0 && part != dot() && part != dot_dot()
}

/// `a` joined with `b` as `PathBuf::join` does for `/`-separated paths.
pub open spec fn path_join(a: Seq<char>, b: Seq<char>) -> Seq<char> {
    if b.len() > 0 && b[0] == '/' {
        b
    } else if a.len() == 0 || a.last() == '/' {
        a + b
    } else {
        a.push('/') + b
    }
}

/// One step of repository path normalization: `""` and `"."` vanish, `".."`
/// removes the last kept part (and fails when there is none), anything else is kept.
pub open spec fn push_part(parts: Option<Seq<Seq<char>>>, part: Seq<char>) -> Option<Seq<Seq<char>>> {
    match parts {
        None => None,
        Some(ps) => if part.len() == 0 || part == dot() {
            Some(ps)
        } else if part == dot_dot() {
            if ps.len() == 0 {
                None
            } else {
                Some(ps.drop_last())
            }
        } else {
            Some(ps.push(part))
        },
    }
}

/// The parts kept after normalizing all of `segs`, or `None` on escape.
pub open spec fn fold_parts(segs: Seq<Seq<char>>) -> Option<Seq<Seq<char>>>
    decreases segs.len(),
{
    if segs.len() == 0 {
        Some(Seq::empty())
    } else {
        push_part(fold_parts(segs.drop_last()), segs.last())
    }
}

/// Some part holds a glob character.
pub open spec fn any_glob_part(parts: Seq<Seq<char>>) -> bool {
    exists|i: int| 0 <= i < parts.len() && has_glob_char(#[trigger] parts[i])
}

/// The canonical form of a repository path: pieces split at `/`, empty and `.`
/// pieces dropped, `..` resolved, joined with `/`; a folder glob (a path ending in
/// `/` with a glob part) keeps its recursive meaning through a final `**`.
pub open spec fn spec_normalize_repository_path(path: Seq<char>) -> Result<Seq<char>, VdmError> {
    match fold_parts(split_char(path, '/')) {
        None => Err(VdmError::PathEscapesRepository),
        Some(ps) => {
            let kept = if has_suffix(path, seq!['/']) && any_glob_part(ps) {
                ps.push(seq!['*', '*'])
            } else {
                ps
            };
            Ok(join_char(kept, '/'))
        },
    }
}

/// Whether every component of `s` is a plain name.
pub fn path_all_normal_exec(s: &[char]) -> (r: bool)
    ensures
        r == path_all_normal(s@),
{
    if s.len() > 0 && s[0] == '/' {
        return false;
    }
    let segs = split_char_exec(s, '/');
    let ghost v = segs@.map_values(|p: Vec<char>| p@);
    assert(v.len() > 0) by {
        lemma_split_nonempty(s@, '/');
    }
    assert(v[0] == segs@[0]@);
    if segs[0].len() == 1 && segs[0][0] == '.' {
        assert(segs@[0]@ =~= dot());
        return false;
    }
    assert(segs@[0]@ != dot());
    let mut i: usize = 0;
    while i < segs.len()
        invariant
            i <= segs@.len(),
            v == segs@.map_values(|p: Vec<char>| p@),
            v == split_char(s@, '/'),
            forall|j: int| 0 <= j < i ==> v[j] != dot_dot(),
        decreases segs@.len() - i,
    {
        assert(v[i as int] == segs@[i as int]@);
        if segs[i].len() == 2 && segs[i][0] == '.' && segs[i][1] == '.' {
            assert(segs@[i as int]@ =~= dot_dot());
            return false;
        }
        assert(segs@[i as int]@ != dot_dot());
        i += 1;
    }
    true
}

/// `split_char` always yields at least one piece.
pub proof fn lemma_split_nonempty(s: Seq<char>, c: char)
    ensures
        split_char(s, c).len() > 0,
    decreases s.len(),
{
    match find_char(s, c) {
        None => {},
        Some(i) => {
            lemma_find_char_from_bounds(s, c, 0);
            lemma_split_nonempty(s.skip(i + 1), c);
        },
    }
}

/// Whether a single component (holding no `/`) is a plain name.
pub fn component_is_normal_exec(part: &[char]) -> (r: bool)
    ensures
        r == component_is_normal(part@),
{
    if part.len() == 0 {
        return false;
    }
    if part.len() == 1 && part[0] == '.' {
        assert(part@ =~= dot());
        return false;
    }
    if part.len() == 2 && part[0] == '.' && part[1] == '.' {
        assert(part@ =~= dot_dot());
        return false;
    }
    assert(part@ != dot() && part@ != dot_dot());
    true
}

/// `a` joined with `b`.
pub fn path_join_exec(a: &[char], b: &[char]) -> (r: Vec<char>)
    ensures
        r@ == path_join(a@, b@),
{
    if b.len() > 0 && b[0] == '/' {
        return slice_chars(b, 0, b.len());
    }
    let mut r = slice_chars(a, 0, a.len());
    if !(a.len() == 0 || a[a.len() - 1] == '/') {
        r.push('/');
    }
    push_all(&mut r, b);
    assert(a@.subrange(0, a@.len() as int) =~= a@);
    r
}

/// The pieces of `path` kept by normalization: `""` and `"."` dropped, `".."`
/// resolved; `None` when a `".."` has nothing left to remove.
pub fn fold_segments(path: &[char]) -> (r: Option<Vec<Vec<char>>>)
    ensures
        match r {
            Some(parts) => fold_parts(split_char(path@, '/')) == Some(parts@.map_values(|p: Vec<char>| p@)),
            None => fold_parts(split_char(path@, '/')) is None,
        },
{
    let segs = split_char_exec(path, '/');
    let ghost v = segs@.map_values(|p: Vec<char>| p@);
    let mut parts: Vec<Vec<char>> = Vec::new();
    let mut i: usize = 0;
    assert(v.take(0) =~= Seq::<Seq<char>>::empty());
    assert(parts@.map_values(|p: Vec<char>| p@) =~= Seq::<Seq<char>>::empty());
    while i < segs.len()
        invariant
            i <= segs@.len(),
            v == segs@.map_values(|p: Vec<char>| p@),
            v == split_char(path@, '/'),
            fold_parts(v.take(i as int)) == Some(parts@.map_values(|p: Vec<char>| p@)),
        decreases segs@.len() - i,
    {
        let ghost before = parts@.map_values(|p: Vec<char>| p@);
        assert(v.take(i + 1).drop_last() =~= v.take(i as int));
        assert(v.take(i + 1).last() == segs@[i as int]@);
        let seg = &segs[i];
        if seg.len() == 0 || (seg.len() == 1 && seg[0] == '.') {
            assert(seg@.len() == 0 || seg@ =~= dot());
        } else if seg.len() == 2 && seg[0] == '.' && seg[1] == '.' {
            assert(seg@ =~= dot_dot());
            if parts.len() == 0 {
                assert(fold_parts(v.take(i + 1)) is None);
                assert(fold_parts(v) is None) by {
                    lemma_fold_none_stays(v, i as int + 1);
                }
                return None;
            }
            parts.pop();
            assert(parts@.map_values(|p: Vec<char>| p@) =~= before.drop_last());
        } else {
            assert(seg@ != dot() && seg@ != dot_dot());
            parts.push(seg.clone());
            assert(parts@.map_values(|p: Vec<char>| p@) =~= before.push(seg@));
        }
        i += 1;
    }
    assert(v.take(v.len() as int) =~= v);
    Some(parts)
}

/// A relative path reduced to its plain components, as a walk over
/// `std::path::Path::components` does: `.` dropped, `..` removing the last kept
/// component; `None` for an absolute path or a `..` that has nothing to remove.
pub open spec fn spec_normalize_components(path: Seq<char>) -> Option<Seq<char>> {
    if path.len() > 0 && path[0] == '/' {
        None
    } else {
        match fold_parts(split_char(path, '/')) {
            Some(ps) => Some(join_char(ps, '/')),
            None => None,
        }
    }
}

/// Reduces a relative path to its plain components.
pub fn normalize_components(path: &[char]) -> (r: Option<Vec<char>>)
    ensures
        opt_chars_view(r) == spec_normalize_components(path@),
{
    if path.len() > 0 && path[0] == '/' {
        return None;
    }
    match fold_segments(path) {
        Some(parts) => Some(join_char_exec(&parts, '/')),
        None => None,
    }
}

/// The view of an optional character vector.
pub open spec fn opt_chars_view(r: Option<Vec<char>>) -> Option<Seq<char>> {
    match r {
        Some(v) => Some(v@),
        None => None,
    }
}

/// The canonical form of a repository path.
pub fn normalize_repository_path(path: &[char]) -> (r: Result<Vec<char>, VdmError>)
    ensures
        match r {
            Ok(p) => spec_normalize_repository_path(path@) == Ok::<Seq<char>, VdmError>(p@),
            Err(e) => spec_normalize_repository_path(path@) == Err::<Seq<char>, VdmError>(e),
        },
{
    let mut parts = match fold_segments(path) {
        Some(parts) => parts,
        None => return Err(VdmError::PathEscapesRepository),
    };
    let ghost ps = parts@.map_values(|p: Vec<char>| p@);
    let mut any_glob = false;
    let mut k: usize = 0;
    while k < parts.len()
        invariant
            k <= parts@.len(),
            ps == parts@.map_values(|p: Vec<char>| p@),
            any_glob == exists|j: int| 0 <= j < k && has_glob_char(#[trigger] ps[j]),
        decreases parts@.len() - k,
    {
        if has_glob_char_exec(parts[k].as_slice()) {
            assert(has_glob_char(ps[k as int]));
            any_glob = true;
        }
        k += 1;
    }
    let slash: [char; 1] = ['/'];
    if ends_with(path, &slash) && any_glob {
        assert(slash@ =~= seq!['/']);
        parts.push(vec!['*', '*']);
        assert(parts@.map_values(|p: Vec<char>| p@) =~= ps.push(seq!['*', '*']));
    } else {
        assert(slash@ =~= seq!['/']);
    }
    Ok(join_char_exec(&parts, '/'))
}

/// Once normalization fails it stays failed.
pub proof fn lemma_fold_none_stays(v: Seq<Seq<char>>, n: int)
    requires
        0 <= n <= v.len(),
        fold_parts(v.take(n)) is None,
    ensures
        fold_parts(v) is None,
    decreases v.len() - n,
{
    if n < v.len() {
        assert(v.take(n + 1).drop_last() =~= v.take(n));
        lemma_fold_none_stays(v, n + 1);
    } else {
        assert(v.take(n) =~= v);
    }
}

/// What `std::path::Path::parent` gives for `path`, as text.
pub uninterp spec fn std_path_parent(path: Seq<char>) -> Option<Seq<char>>;

/// What `std::path::Path::with_extension` gives for `path` and `extension`, as text.
pub uninterp spec fn std_path_with_extension(path: Seq<char>, extension: Seq<char>) -> Seq<char>;

/// Calls `std::path::Path::parent`: the path without its final component, if
/// it has one.  That is a part of the path before its last component, so it is
/// shorter than the path.
#[verifier::external_body]
pub(crate) fn path_parent(path: &str) -> (r: Option<String>)
    ensures
        opt_string_view(r) == std_path_parent(path@),
        r matches Some(p) ==> p@.len() < path@.len(),
{
    match std::path::Path::new(path).parent() {
        Some(p) => Some(p.to_string_lossy().into_owned()),
        None => None,
    }
}

/// Calls `std::path::Path::with_extension`: the path with its extension replaced.
/// An extension that holds a path separator is left out: std may panic on it.
#[verifier::external_body]
pub(crate) fn path_with_extension(path: &str, extension: &str) -> (r: String)
    requires
        !extension@.contains('/'),
    ensures
        r@ == std_path_with_extension(path@, extension@),
{
    std::path::Path::new(path).with_extension(extension).to_string_lossy().into_owned()
}

/// The view of an optional string.
pub open spec fn opt_string_view(s: Option<String>) -> Option<Seq<char>> {
    match s {
        Some(t) => Some(t@),
        None => None,
    }
}

/// The parent of `path`, or the empty path when it has none.
pub open spec fn parent_or_empty(path: Seq<char>) -> Seq<char> {
    match std_path_parent(path) {
        Some(p) => p,
        None => Seq::empty(),
    }
}

/// The parent of `path`, or the empty path when it has none.
pub fn parent_or_empty_exec(path: &str) -> (r: String)
    ensures
        r@ == parent_or_empty(path@),
{
    match path_parent(path) {
        Some(p) => p,
        None => {
            let e = String::new();
            e
        },
    }
}

/// A kept piece of a normalized path: a plain name without `/`.
pub open spec fn kept_part(p: Seq<char>) -> bool {
    component_is_normal(p) && !p.contains('/')
}

proof fn lemma_find_none_absent(s: Seq<char>, c: char, start: int)
    requires
        0 <= start,
        find_char_from(s, c, start) is None,
    ensures
        forall|j: int| start <= j < s.len() ==> s[j] != c,
    decreases s.len() - start,
{
    if start < s.len() {
        lemma_find_none_absent(s, c, start + 1);
    }
}

proof fn lemma_split_pieces_lack_sep(s: Seq<char>, c: char)
    ensures
        forall|i: int| 0 <= i < split_char(s, c).len() ==> !(#[trigger] split_char(s, c)[i]).contains(c),
    decreases s.len(),
{
    match find_char(s, c) {
        None => {
            lemma_find_none_absent(s, c, 0);
        },
        Some(k) => {
            lemma_find_char_from_bounds(s, c, 0);
            lemma_split_pieces_lack_sep(s.skip(k + 1), c);
            let rest = split_char(s.skip(k + 1), c);
            assert(split_char(s, c) == seq![s.take(k)] + rest);
            assert forall|i: int| 0 <= i < split_char(s, c).len() implies !(#[trigger] split_char(s, c)[i]).contains(c) by {
                if i == 0 {
                    assert(split_char(s, c)[0] == s.take(k));
                } else {
                    assert(split_char(s, c)[i] == rest[i - 1]);
                }
            }
        },
    }
}

proof fn lemma_split_single(s: Seq<char>, c: char)
    requires
        !s.contains(c),
    ensures
        split_char(s, c) == seq![s],
{
    lemma_find_char_none(s, c);
}

proof fn lemma_split_around(x: Seq<char>, y: Seq<char>, c: char)
    ensures
        split_char(x.push(c) + y, c) == split_char(x, c) + split_char(y, c),
    decreases x.len(),
{
    let s = x.push(c) + y;
    match find_char(x, c) {
        Some(i) => {
            lemma_find_char_from_bounds(x, c, 0);
            lemma_find_char_first(s, c, i);
            lemma_split_around(x.skip(i + 1), y, c);
            assert(s.take(i) =~= x.take(i));
            assert(s.skip(i + 1) =~= x.skip(i + 1).push(c) + y);
        },
        None => {
            lemma_find_none_absent(x, c, 0);
            lemma_find_char_first(s, c, x.len() as int);
            lemma_find_char_none(x, c);
            assert(s.take(x.len() as int) =~= x);
            assert(s.skip(x.len() as int + 1) =~= y);
        },
    }
}

proof fn lemma_split_join(ps: Seq<Seq<char>>, c: char)
    requires
        ps.len() > 0,
        forall|i: int| 0 <= i < ps.len() ==> !(#[trigger] ps[i]).contains(c),
    ensures
        split_char(join_char(ps, c), c) == ps,
    decreases ps.len(),
{
    if ps.len() == 1 {
        lemma_split_single(ps[0], c);
        assert(seq![ps[0]] =~= ps);
    } else {
        let front = ps.drop_last();
        lemma_split_join(front, c);
        lemma_split_around(join_char(front, c), ps.last(), c);
        lemma_split_single(ps.last(), c);
        assert(front + seq![ps.last()] =~= ps);
    }
}

proof fn lemma_join_last(ps: Seq<Seq<char>>, c: char)
    requires
        ps.len() > 0,
        ps.last().len() > 0,
    ensures
        join_char(ps, c).len() > 0,
        join_char(ps, c).last() == ps.last().last(),
    decreases ps.len(),
{
}

proof fn lemma_fold_plain(ps: Seq<Seq<char>>)
    requires
        forall|i: int| 0 <= i < ps.len() ==> kept_part(#[trigger] ps[i]),
    ensures
        fold_parts(ps) == Some(ps),
    decreases ps.len(),
{
    if ps.len() > 0 {
        lemma_fold_plain(ps.drop_last());
        assert(ps.drop_last().push(ps.last()) =~= ps);
    }
}

proof fn lemma_fold_yields_plain(segs: Seq<Seq<char>>)
    requires
        forall|i: int| 0 <= i < segs.len() ==> !(#[trigger] segs[i]).contains('/'),
    ensures
        fold_parts(segs) matches Some(ps) ==> forall|i: int| 0 <= i < ps.len() ==> kept_part(#[trigger] ps[i]),
    decreases segs.len(),
{
    if segs.len() > 0 {
        lemma_fold_yields_plain(segs.drop_last());
        assert(!segs.last().contains('/')) by {
            assert(segs.last() == segs[segs.len() - 1]);
        }
    }
}

/// Normalizing a normalized repository path changes nothing.
pub proof fn lemma_normalize_idempotent(path: Seq<char>)
    ensures
        spec_normalize_repository_path(path) matches Ok(p) ==> spec_normalize_repository_path(p) == Ok::<
            Seq<char>,
            VdmError,
        >(p),
{
    lemma_split_pieces_lack_sep(path, '/');
    lemma_fold_yields_plain(split_char(path, '/'));
    match fold_parts(split_char(path, '/')) {
        None => {},
        Some(ps) => {
            let stars = seq!['*', '*'];
            let kept = if has_suffix(path, seq!['/']) && any_glob_part(ps) {
                ps.push(stars)
            } else {
                ps
            };
            assert(kept_part(stars));
            assert forall|i: int| 0 <= i < kept.len() implies kept_part(#[trigger] kept[i]) by {
                if i < ps.len() {
                    assert(kept[i] == ps[i]);
                }
            }
            let p = join_char(kept, '/');
            if kept.len() == 0 {
                assert(p =~= Seq::<char>::empty());
                lemma_split_single(p, '/');
                assert(seq![p].drop_last() =~= Seq::<Seq<char>>::empty());
                assert(seq![p].last() == p);
                assert(fold_parts(seq![p]) == push_part(fold_parts(Seq::<Seq<char>>::empty()), p));
                assert(join_char(Seq::<Seq<char>>::empty(), '/') =~= p);
            } else {
                lemma_split_join(kept, '/');
                lemma_fold_plain(kept);
                lemma_join_last(kept, '/');
                assert(!has_suffix(p, seq!['/'])) by {
                    let last = kept[kept.len() - 1];
                    assert(kept_part(last));
                    assert(last[last.len() - 1] == p.last());
                    assert(last.contains(p.last()));
                    assert(p.skip(p.len() - 1) =~= seq![p.last()]);
                    if has_suffix(p, seq!['/']) {
                        assert(p.skip(p.len() - 1)[0] == seq!['/'][0]);
                        assert(p.last() == '/');
                    }
                }
            }
        },
    }
}

/// The shape of normalizing a repository path: it fails exactly when a `..`
/// piece, read left to right with empty and `.` pieces skipped, has no kept
/// piece left to remove; what it gives is empty or made of plain names joined
/// by single `/`s (no empty, `.` or `..` piece, so no leading or trailing `/`);
/// and normalizing that again gives it back.
pub proof fn lemma_normalize_shape(path: Seq<char>)
    ensures
        spec_normalize_repository_path(path) is Err <==> fold_parts(split_char(path, '/')) is None,
        spec_normalize_repository_path(path) matches Ok(p) ==> (p.len() == 0 || forall|i: int|
            0 <= i < split_char(p, '/').len() ==> component_is_normal(#[trigger] split_char(p, '/')[i])),
        spec_normalize_repository_path(path) matches Ok(p) ==> spec_normalize_repository_path(p) == Ok::<
            Seq<char>,
            VdmError,
        >(p),
{
    lemma_normalize_idempotent(path);
    lemma_split_pieces_lack_sep(path, '/');
    lemma_fold_yields_plain(split_char(path, '/'));
    match fold_parts(split_char(path, '/')) {
        None => {},
        Some(ps) => {
            let stars = seq!['*', '*'];
            let kept = if has_suffix(path, seq!['/']) && any_glob_part(ps) {
                ps.push(stars)
            } else {
                ps
            };
            assert(kept_part(stars));
            assert forall|i: int| 0 <= i < kept.len() implies kept_part(#[trigger] kept[i]) by {
                if i < ps.len() {
                    assert(kept[i] == ps[i]);
                }
            }
            let p = join_char(kept, '/');
            if kept.len() == 0 {
                assert(p =~= Seq::<char>::empty());
            } else {
                lemma_split_join(kept, '/');
                assert forall|i: int| 0 <= i < split_char(p, '/').len() implies component_is_normal(
                    #[trigger] split_char(p, '/')[i],
                ) by {
                    assert(kept_part(kept[i]));
                }
            }
        },
    }
}

} // verus!
