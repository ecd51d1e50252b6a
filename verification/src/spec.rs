//! The mathematical model of paths: a path is the sequence of its characters,
//! and the functions below say what each operation of the library computes.
use vstd::prelude::*;

verus! {

/// The single-character path `/`, the root.
pub open spec fn root_path() -> Seq<char> {
    seq!['/']
}

/// `s` starts with `/`.
pub open spec fn starts_with_slash(s: Seq<char>) -> bool {
    s.len() > 0 && s[0] == '/'
}

/// `s` ends with `/`: the path names a directory.
pub open spec fn ends_with_slash(s: Seq<char>) -> bool {
    s.len() > 0 && s.last() == '/'
}

/// `prefix` is an initial part of `s`.
pub open spec fn has_prefix(s: Seq<char>, prefix: Seq<char>) -> bool {
    prefix.len() <= s.len() && s.take(prefix.len() as int) == prefix
}

/// No character of `seg` is `/`.
pub open spec fn no_slash(seg: Seq<char>) -> bool {
    forall|i: int| 0 <= i < seg.len() ==> seg[i] != '/'
}

/// The pieces of `s` between `/` separators, as splitting a string at every `/`
/// yields them: `a//b` gives `a`, ``, `b`, and the empty path gives one empty piece.
pub open spec fn split_slash(s: Seq<char>) -> Seq<Seq<char>>
    decreases s.len(),
{
    if s.len() == 0 {
        seq![Seq::<char>::empty()]
    } else {
        let prev = split_slash(s.drop_last());
        if s.last() == '/' {
            prev.push(Seq::<char>::empty())
        } else {
            prev.update(prev.len() - 1, prev.last().push(s.last()))
        }
    }
}

/// A piece that names something: neither empty nor the current-directory `.`.
pub open spec fn is_component(seg: Seq<char>) -> bool {
    seg.len() > 0 && seg != seq!['.']
}

/// The pieces of `segs` that are components, in their order.
pub open spec fn keep_components(segs: Seq<Seq<char>>) -> Seq<Seq<char>>
    decreases segs.len(),
{
    if segs.len() == 0 {
        Seq::<Seq<char>>::empty()
    } else {
        let kept = keep_components(segs.drop_last());
        if is_component(segs.last()) {
            kept.push(segs.last())
        } else {
            kept
        }
    }
}

/// The components of a path: its pieces between `/` that are neither empty nor `.`.
pub open spec fn components(s: Seq<char>) -> Seq<Seq<char>> {
    keep_components(split_slash(s))
}

/// The pieces joined with a `/` between each two of them.
pub open spec fn join_slash(segs: Seq<Seq<char>>) -> Seq<char>
    decreases segs.len(),
{
    if segs.len() == 0 {
        Seq::<char>::empty()
    } else if segs.len() == 1 {
        segs[0]
    } else {
        join_slash(segs.drop_last()) + seq!['/'] + segs.last()
    }
}

/// The normal form of a path: its components joined by `/`, with a trailing `/`
/// where the path ended with one; `/` where it has no component.
pub open spec fn normalized_path(s: Seq<char>) -> Seq<char> {
    let comps = components(s);
    if comps.len() == 0 {
        root_path()
    } else if ends_with_slash(s) {
        join_slash(comps) + seq!['/']
    } else {
        join_slash(comps)
    }
}

/// The normal form of a root: `/`, the components joined by `/`, and `/`;
/// just `/` where the path has no component.
pub open spec fn normalized_root(s: Seq<char>) -> Seq<char> {
    let comps = components(s);
    if comps.len() == 0 {
        root_path()
    } else {
        seq!['/'] + join_slash(comps) + seq!['/']
    }
}

/// The index of the last `/` in `s`, or -1 where `s` holds none.
pub open spec fn last_slash(s: Seq<char>) -> int
    decreases s.len(),
{
    if s.len() == 0 {
        -1
    } else if s.last() == '/' {
        s.len() - 1
    } else {
        last_slash(s.drop_last())
    }
}

/// The path without its trailing `/`, if it has one.
pub open spec fn without_trailing_slash(s: Seq<char>) -> Seq<char> {
    if ends_with_slash(s) {
        s.drop_last()
    } else {
        s
    }
}

/// The last name of a path: what follows the last `/` before the trailing one,
/// trailing `/` included; `/` for the root.
pub open spec fn basename(s: Seq<char>) -> Seq<char> {
    if s == root_path() {
        root_path()
    } else {
        s.skip(last_slash(without_trailing_slash(s)) + 1)
    }
}

/// The directory holding a path: everything up to and including the last `/`
/// before the trailing one; `/` where there is none, and for the root.
pub open spec fn parent(s: Seq<char>) -> Seq<char> {
    if s == root_path() {
        root_path()
    } else if last_slash(without_trailing_slash(s)) < 0 {
        root_path()
    } else {
        s.take(last_slash(without_trailing_slash(s)) + 1)
    }
}

/// A path under a root given as `/abc/def/`, without the root's leading `/`.
pub open spec fn absolute_path(root: Seq<char>, path: Seq<char>) -> Seq<char> {
    if path == root_path() {
        root.skip(1)
    } else {
        root.skip(1) + path
    }
}

/// A path under a root given as `/abc/def/`, with the root's leading `/`.
pub open spec fn rooted_absolute_path(root: Seq<char>, path: Seq<char>) -> Seq<char> {
    if path == root_path() {
        root
    } else {
        root + path
    }
}

/// What remains of a path once the root is taken off its front: the whole root
/// where the path starts with `/`, the root without its leading `/` otherwise.
pub open spec fn relative_path(root: Seq<char>, path: Seq<char>) -> Seq<char> {
    if starts_with_slash(path) {
        path.skip(root.len() as int)
    } else {
        path.skip(root.len() - 1)
    }
}

/// Number of characters in the alphabet of temporary-path postfixes.
pub open spec fn postfix_alphabet_len() -> int {
    62
}

/// The code point of the character at index `i` of the postfix alphabet
/// `A`..`Z`, `a`..`z`, `0`..`9`.
pub open spec fn postfix_code(i: int) -> int {
    if i < 26 {
        65 + i
    } else if i < 52 {
        97 + (i - 26)
    } else {
        48 + (i - 52)
    }
}

/// `c` is an ASCII letter or digit: a character of the postfix alphabet.
pub open spec fn is_postfix_char(c: char) -> bool {
    ('A' <= c && c <= 'Z') || ('a' <= c && c <= 'z') || ('0' <= c && c <= '9')
}

/// The postfix character drawn from a random `seed`: the alphabet's character
/// at the seed's remainder modulo the alphabet's size.
pub open spec fn postfix_char(seed: u64) -> char {
    postfix_code((seed % 62) as int) as char
}

/// A temporary path of `path`: its last name, a `.`, and one postfix character per seed.
pub open spec fn tmp_path(path: Seq<char>, seeds: Seq<u64>) -> Seq<char> {
    basename(path) + seq!['.'] + seeds.map_values(|seed: u64| postfix_char(seed))
}

/// Two `/` in a row start at index `i` of `t`.
pub open spec fn double_slash_at(t: Seq<char>, i: int) -> bool {
    t[i] == '/' && t[i + 1] == '/'
}

/// `t` holds no two `/` in a row.
pub open spec fn no_double_slash(t: Seq<char>) -> bool {
    forall|i: int| 0 <= i && i + 1 < t.len() ==> !#[trigger] double_slash_at(t, i)
}

/// A piece `.` stands at index `i` of `t`: a `.` with the start of `t` or a `/`
/// before it, and the end of `t` or a `/` after it.
pub open spec fn dot_piece_at(t: Seq<char>, i: int) -> bool {
    &&& t[i] == '.'
    &&& (i == 0 || t[i - 1] == '/')
    &&& (i + 1 == t.len() || t[i + 1] == '/')
}

/// `t` holds no piece `.`.
pub open spec fn no_dot_piece(t: Seq<char>) -> bool {
    forall|i: int| 0 <= i < t.len() ==> !#[trigger] dot_piece_at(t, i)
}

} // verus!
