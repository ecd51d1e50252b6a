//! Laws that span the operations of the library, stated over the model that
//! the operations' contracts use.
use vstd::prelude::*;
use crate::lemmas::{
    lemma_append_slash_chars, lemma_components_clean, lemma_components_join,
    lemma_components_root, lemma_join_clean_chars, lemma_join_first, lemma_join_last,
    lemma_last_slash, lemma_prepend_slash_chars,
};
use crate::path::{matches_mode, EntryMode};
use crate::spec::{
    absolute_path, basename, components, dot_piece_at, ends_with_slash, has_prefix,
    is_component, join_slash, no_dot_piece, no_double_slash, last_slash, no_slash, normalized_path, normalized_root, parent, relative_path,
    root_path, rooted_absolute_path, starts_with_slash, without_trailing_slash,
};

verus! {

/// Normalizing keeps the components of a path, and the path names a directory
/// afterwards exactly when it did before or when it had no component (the root).
pub proof fn law_normalize_path_keeps_components(s: Seq<char>)
    ensures
        components(normalized_path(s)) == components(s),
        ends_with_slash(normalized_path(s)) == (ends_with_slash(s) || components(s).len() == 0),
{
    let c = components(s);
    lemma_components_clean(s);
    lemma_components_root();
    if c.len() > 0 {
        lemma_components_join(c);
        assert forall|k: int| 0 <= k < c.len() implies (#[trigger] c[k]).len() > 0 by {
            assert(is_component(c[k]));
        }
        lemma_join_last(c);
        assert(no_slash(c[c.len() - 1]));
        assert(c.last()[c.last().len() - 1] != '/');
        let j = join_slash(c);
        assert((j + seq!['/']).last() == '/');
    }
}

/// Normalizing a normalized path changes nothing.
pub proof fn law_normalize_path_idempotent(s: Seq<char>)
    ensures
        normalized_path(normalized_path(s)) == normalized_path(s),
{
    law_normalize_path_keeps_components(s);
}

/// A normalized path is the root `/`, or it does not start with `/`.
pub proof fn law_normalized_path_is_relative(s: Seq<char>)
    ensures
        normalized_path(s) == root_path() || !starts_with_slash(normalized_path(s)),
{
    let c = components(s);
    lemma_components_clean(s);
    if c.len() > 0 {
        assert forall|k: int| 0 <= k < c.len() implies (#[trigger] c[k]).len() > 0 by {
            assert(is_component(c[k]));
        }
        lemma_join_first(c);
        assert(no_slash(c[0]));
        assert(c[0][0] != '/');
        let j = join_slash(c);
        assert((j + seq!['/'])[0] == j[0]);
    }
}

/// A normalized root starts and ends with `/` and keeps the components of the path.
pub proof fn law_normalize_root_shape(s: Seq<char>)
    ensures
        starts_with_slash(normalized_root(s)),
        ends_with_slash(normalized_root(s)),
        components(normalized_root(s)) == components(s),
{
    let c = components(s);
    lemma_components_clean(s);
    lemma_components_root();
    if c.len() > 0 {
        lemma_components_join(c);
        let r = seq!['/'] + join_slash(c) + seq!['/'];
        assert(r[0] == '/');
        assert(r.last() == '/');
    }
}

/// Normalizing a normalized root changes nothing.
pub proof fn law_normalize_root_idempotent(s: Seq<char>)
    ensures
        normalized_root(normalized_root(s)) == normalized_root(s),
{
    law_normalize_root_shape(s);
}

/// Normalizing a path first does not change the root it normalizes to.
pub proof fn law_normalize_root_of_normalized_path(s: Seq<char>)
    ensures
        normalized_root(normalized_path(s)) == normalized_root(s),
{
    law_normalize_path_keeps_components(s);
}

/// Apart from the root, a path is its parent followed by its basename, or, where
/// it holds no `/` before its trailing one, its parent is the root and its
/// basename is the whole path.
pub proof fn law_parent_then_basename(s: Seq<char>)
    requires
        s != root_path(),
    ensures
        parent(s) + basename(s) == s || (parent(s) == root_path() && basename(s) == s),
{
    let t = without_trailing_slash(s);
    lemma_last_slash(t);
    let i = last_slash(t);
    if i < 0 {
        assert(s.skip(0) =~= s);
    } else {
        assert(s.take(i + 1) + s.skip(i + 1) =~= s);
    }
}

/// Taking the root off a path under it, built with the root's leading `/`,
/// gives the path back.
pub proof fn law_relative_undoes_rooted_absolute(root: Seq<char>, path: Seq<char>)
    requires
        starts_with_slash(root),
        ends_with_slash(root),
        !starts_with_slash(path),
    ensures
        starts_with_slash(rooted_absolute_path(root, path)),
        has_prefix(rooted_absolute_path(root, path), root),
        relative_path(root, rooted_absolute_path(root, path)) == path,
{
    let a = root + path;
    assert(path != root_path());
    assert(a[0] == root[0]);
    assert(a.take(root.len() as int) =~= root);
    assert(a.skip(root.len() as int) =~= path);
}

/// Taking the root off a path under it, built without the root's leading `/`,
/// gives the path back, for a root whose second character is not `/`.
pub proof fn law_relative_undoes_absolute(root: Seq<char>, path: Seq<char>)
    requires
        starts_with_slash(root),
        ends_with_slash(root),
        root.len() > 1 ==> root[1] != '/',
        !starts_with_slash(path),
    ensures
        !starts_with_slash(absolute_path(root, path)),
        has_prefix(absolute_path(root, path), root.skip(1)),
        relative_path(root, absolute_path(root, path)) == path,
{
    let r1 = root.skip(1);
    let a = r1 + path;
    assert(path != root_path());
    if r1.len() > 0 {
        assert(a[0] == root[1]);
    } else {
        assert(a =~= path);
    }
    assert(a.take(r1.len() as int) =~= r1);
    assert(a.skip(root.len() - 1) =~= path);
}

/// The rooted form of a path under a root is the other form behind a `/`.
pub proof fn law_rooted_is_slash_then_absolute(root: Seq<char>, path: Seq<char>)
    requires
        starts_with_slash(root),
    ensures
        rooted_absolute_path(root, path) == seq!['/'] + absolute_path(root, path),
{
    assert(root =~= seq!['/'] + root.skip(1));
    assert(seq!['/'] + (root.skip(1) + path) =~= root + path);
}

/// A non-empty path is either a file path or a directory path, never both, and
/// never of the unknown mode.
pub proof fn law_file_or_dir(path: Seq<char>)
    requires
        path.len() > 0,
    ensures
        matches_mode(path, EntryMode::FILE) != matches_mode(path, EntryMode::DIR),
        !matches_mode(path, EntryMode::Unknown),
{
}

/// The parent of any path names a directory.
pub proof fn law_parent_is_dir(s: Seq<char>)
    ensures
        matches_mode(parent(s), EntryMode::DIR),
{
    let t = without_trailing_slash(s);
    lemma_last_slash(t);
    let i = last_slash(t);
    if s != root_path() && i >= 0 {
        assert(t[i] == s[i]);
    }
}

/// A normalized path is never empty; it is `/` exactly when the path has no
/// component, and otherwise does not start with `/`; it holds no two `/` in a row
/// and no piece `.`; it ends with `/` exactly when it is `/` or the path ended
/// with `/`; and it has the same components as the path.
pub proof fn law_normalized_path_form(s: Seq<char>)
    ensures
        normalized_path(s).len() > 0,
        (normalized_path(s) == seq!['/']) == (components(s).len() == 0),
        normalized_path(s) == seq!['/'] || normalized_path(s)[0] != '/',
        no_double_slash(normalized_path(s)),
        no_dot_piece(normalized_path(s)),
        (normalized_path(s)[normalized_path(s).len() - 1] == '/') == (normalized_path(s) == seq![
            '/',
        ] || (s.len() > 0 && s[s.len() - 1] == '/')),
        components(normalized_path(s)) == components(s),
{
    let c = components(s);
    let n = normalized_path(s);
    law_normalize_path_keeps_components(s);
    lemma_components_clean(s);
    if c.len() == 0 {
        assert(n == seq!['/']);
        assert(no_double_slash(n));
        assert forall|i: int| 0 <= i < n.len() implies !#[trigger] dot_piece_at(n, i) by {}
    } else {
        lemma_join_clean_chars(c);
        let j = join_slash(c);
        if ends_with_slash(s) {
            lemma_append_slash_chars(j);
            assert((j + seq!['/'])[0] == j[0]);
            assert(n.len() > 1);
        } else {
            assert(n == j);
            if n == seq!['/'] {
                assert(n[0] == '/');
            }
        }
    }
}

/// A normalized root starts and ends with `/`, holds no two `/` in a row and no
/// piece `.`, and has the same components as the path.
pub proof fn law_normalized_root_form(s: Seq<char>)
    ensures
        normalized_root(s).len() > 0,
        normalized_root(s)[0] == '/',
        normalized_root(s)[normalized_root(s).len() - 1] == '/',
        no_double_slash(normalized_root(s)),
        no_dot_piece(normalized_root(s)),
        components(normalized_root(s)) == components(s),
{
    let c = components(s);
    let n = normalized_root(s);
    law_normalize_root_shape(s);
    lemma_components_clean(s);
    if c.len() == 0 {
        assert(n == seq!['/']);
        assert(no_double_slash(n));
        assert forall|i: int| 0 <= i < n.len() implies !#[trigger] dot_piece_at(n, i) by {}
    } else {
        lemma_join_clean_chars(c);
        let j = join_slash(c);
        lemma_prepend_slash_chars(j);
        let u = seq!['/'] + j;
        assert(u[0] == '/');
        lemma_append_slash_chars(u);
        assert(n == u + seq!['/']);
    }
}

/// The parent and basename of a path split it at its last `/` before a
/// trailing one: the parent ends with `/`; the basename holds no `/` but for a
/// trailing one, which it has exactly when the path has; and the parent followed
/// by the basename is the path, or, where the path holds no such `/`, the parent
/// is `/` and the basename is the whole path. The root is its own parent and basename.
pub proof fn law_parent_and_basename_split(s: Seq<char>)
    ensures
        s == seq!['/'] ==> parent(s) == seq!['/'] && basename(s) == seq!['/'],
        parent(s).len() > 0 && parent(s)[parent(s).len() - 1] == '/',
        s != seq!['/'] ==> forall|i: int|
            0 <= i && i + 1 < basename(s).len() ==> #[trigger] basename(s)[i] != '/',
        s != seq!['/'] ==> ((basename(s).len() > 0 && basename(s)[basename(s).len() - 1] == '/')
            == (s.len() > 0 && s[s.len() - 1] == '/')),
        s != seq!['/'] ==> (parent(s) + basename(s) == s || (parent(s) == seq!['/'] && basename(
            s,
        ) == s)),
{
    law_parent_is_dir(s);
    if s != seq!['/'] {
        law_parent_then_basename(s);
        let t = without_trailing_slash(s);
        lemma_last_slash(t);
        let ls = last_slash(t);
        let b = basename(s);
        assert(b == s.skip(ls + 1));
        assert forall|i: int| 0 <= i && i + 1 < b.len() implies #[trigger] b[i] != '/' by {
            assert(b[i] == s[ls + 1 + i]);
            assert(t[ls + 1 + i] == s[ls + 1 + i]);
        }
        if b.len() > 0 {
            assert(b[b.len() - 1] == s[s.len() - 1]);
        } else if s.len() > 0 {
            assert(ls + 1 == s.len());
            assert(!ends_with_slash(s));
        }
    }
}

/// Under a root starting with `/`, the path `/` names the root itself, and any
/// other path stands right after the root; the form without the root's leading
/// `/` is the rooted form with its first character taken off.
pub proof fn law_rooted_path_names_root(root: Seq<char>, path: Seq<char>)
    requires
        root.len() > 0 && root[0] == '/',
    ensures
        rooted_absolute_path(root, seq!['/']) == root,
        path != seq!['/'] ==> rooted_absolute_path(root, path) == root + path,
        rooted_absolute_path(root, path).take(root.len() as int) == root,
        absolute_path(root, path) == rooted_absolute_path(root, path).skip(1),
{
    assert(root_path() == seq!['/']);
    let r = rooted_absolute_path(root, path);
    assert(r.take(root.len() as int) =~= root);
    if path == seq!['/'] {
        assert(r.skip(1) =~= root.skip(1));
    } else {
        assert(r.skip(1) =~= root.skip(1) + path);
    }
}

/// Putting the root back in front of a relative path gives the path it was taken
/// from: the whole root for a path starting with `/`, the root without its
/// leading `/` otherwise.
pub proof fn law_relative_path_completes(root: Seq<char>, path: Seq<char>)
    requires
        starts_with_slash(root),
        ends_with_slash(root),
        starts_with_slash(path) ==> has_prefix(path, root),
        !starts_with_slash(path) ==> has_prefix(path, root.skip(1)),
    ensures
        path.len() > 0 && path[0] == '/' ==> root + relative_path(root, path) == path,
        !(path.len() > 0 && path[0] == '/') ==> root.skip(1) + relative_path(root, path) == path,
{
    if starts_with_slash(path) {
        assert(path.take(root.len() as int) + path.skip(root.len() as int) =~= path);
    } else {
        assert(path.take(root.len() - 1) + path.skip(root.len() - 1) =~= path);
    }
}

/// Whether a non-empty path is a directory or a file path depends on its last
/// character alone: a directory path ends with `/`, a file path does not, and
/// no path is of the unknown mode.
pub proof fn law_validate_path_by_last_char(path: Seq<char>)
    requires
        path.len() > 0,
    ensures
        matches_mode(path, EntryMode::DIR) == (path[path.len() - 1] == '/'),
        matches_mode(path, EntryMode::FILE) == (path[path.len() - 1] != '/'),
        !matches_mode(path, EntryMode::Unknown),
{
}

} // verus!
