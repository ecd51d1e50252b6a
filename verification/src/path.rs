//! The path operations.
use vstd::prelude::*;
use crate::lemmas::{
    lemma_components_clean, lemma_join_empty, lemma_join_push, lemma_keep_components_nonempty,
    lemma_last_slash, lemma_split_shape,
};
use crate::spec::{
    absolute_path, basename, components, ends_with_slash, has_prefix, is_component,
    is_postfix_char, join_slash, keep_components, last_slash, normalized_path, normalized_root,
    parent, postfix_char, relative_path, root_path, rooted_absolute_path, split_slash,
    starts_with_slash, tmp_path, without_trailing_slash,
};
use crate::text::{chars_of, push_range};
use std::collections::hash_map::{DefaultHasher, RandomState};
use std::hash::{BuildHasher, Hasher};

verus! {

/// Whether the characters are exactly the root `/`.
fn is_root_chars(v: &Vec<char>) -> (b: bool)
    ensures
        b == (v@ == root_path()),
{
    if v.len() == 1 && v[0] == '/' {
        assert(v@ =~= root_path());
        true
    } else {
        assert(v@ != root_path()) by {
            if v@ == root_path() {
                assert(v@[0] == '/');
            }
        }
        false
    }
}

/// Whether the characters end with `/`.
fn ends_with_slash_chars(v: &Vec<char>) -> (b: bool)
    ensures
        b == ends_with_slash(v@),
{
    v.len() > 0 && v[v.len() - 1] == '/'
}

/// Whether the characters start with `/`.
fn starts_with_slash_chars(v: &Vec<char>) -> (b: bool)
    ensures
        b == starts_with_slash(v@),
{
    v.len() > 0 && v[0] == '/'
}

/// Build an absolute path by joining root and path, stripping the leading `/` from root.
///
/// # Rules
///
/// - Input root MUST be the format like `/abc/def/`
/// - Output will be the format like `path/to/root/path`.
pub fn build_absolute_path(root: &str, path: &str) -> (r: String)
    requires
        starts_with_slash(root@),
        ends_with_slash(root@),
        path@ != root_path() ==> !starts_with_slash(path@),
    ensures
        r@ == absolute_path(root@, path@),
{
    let rv = chars_of(root);
    let pv = chars_of(path);
    let mut p = String::new();
    push_range(&mut p, &rv, 1, rv.len());
    assert(rv@.subrange(1, rv@.len() as int) =~= root@.skip(1));
    if is_root_chars(&pv) {
        p
    } else {
        push_range(&mut p, &pv, 0, pv.len());
        assert(pv@.subrange(0, pv@.len() as int) =~= path@);
        p
    }
}

/// Deprecated: use [`build_absolute_path`] instead.
pub fn build_abs_path(root: &str, path: &str) -> (r: String)
    requires
        starts_with_slash(root@),
        ends_with_slash(root@),
        path@ != root_path() ==> !starts_with_slash(path@),
    ensures
        r@ == absolute_path(root@, path@),
{
    build_absolute_path(root, path)
}

/// Build a rooted absolute path by joining root and path, preserving the leading `/`.
///
/// # Rules
///
/// - Input root MUST be the format like `/abc/def/`
/// - Output will be the format like `/path/to/root/path`.
pub fn build_rooted_absolute_path(root: &str, path: &str) -> (r: String)
    requires
        starts_with_slash(root@),
        ends_with_slash(root@),
        path@ != root_path() ==> !starts_with_slash(path@),
    ensures
        r@ == rooted_absolute_path(root@, path@),
{
    let rv = chars_of(root);
    let pv = chars_of(path);
    let mut p = String::new();
    push_range(&mut p, &rv, 0, rv.len());
    assert(rv@.subrange(0, rv@.len() as int) =~= root@);
    if is_root_chars(&pv) {
        p
    } else {
        push_range(&mut p, &pv, 0, pv.len());
        assert(pv@.subrange(0, pv@.len() as int) =~= path@);
        p
    }
}

/// Deprecated: use [`build_rooted_absolute_path`] instead.
pub fn build_rooted_abs_path(root: &str, path: &str) -> (r: String)
    requires
        starts_with_slash(root@),
        ends_with_slash(root@),
        path@ != root_path() ==> !starts_with_slash(path@),
    ensures
        r@ == rooted_absolute_path(root@, path@),
{
    build_rooted_absolute_path(root, path)
}

/// Build a relative path from a rooted absolute path by stripping the root prefix.
///
/// # Rules
///
/// - Input root MUST be the format like `/abc/def/`
/// - Input path MUST start with root like `/abc/def/path/to/file`
/// - Output will be the format like `path/to/file`.
pub fn build_relative_path(root: &str, path: &str) -> (r: String)
    requires
        starts_with_slash(root@),
        ends_with_slash(root@),
        root@ != path@,
        starts_with_slash(path@) ==> has_prefix(path@, root@),
        !starts_with_slash(path@) ==> has_prefix(path@, root@.skip(1)),
    ensures
        r@ == relative_path(root@, path@),
{
    let rv = chars_of(root);
    let pv = chars_of(path);
    let from = if starts_with_slash_chars(&pv) {
        rv.len()
    } else {
        rv.len() - 1
    };
    let mut p = String::new();
    push_range(&mut p, &pv, from, pv.len());
    assert(pv@.subrange(from as int, pv@.len() as int) =~= path@.skip(from as int));
    p
}

/// Deprecated: use [`build_relative_path`] instead.
pub fn build_rel_path(root: &str, path: &str) -> (r: String)
    requires
        starts_with_slash(root@),
        ends_with_slash(root@),
        root@ != path@,
        starts_with_slash(path@) ==> has_prefix(path@, root@),
        !starts_with_slash(path@) ==> has_prefix(path@, root@.skip(1)),
    ensures
        r@ == relative_path(root@, path@),
{
    build_relative_path(root, path)
}

/// Appends the piece `v[start..end]` to `out` if it is a component, after a `/`
/// where a component was appended before (`any`). Says whether one has been now.
fn push_piece(v: &Vec<char>, start: usize, end: usize, out: &mut String, any: bool) -> (now_any:
    bool)
    requires
        start <= end <= v@.len(),
    ensures
        is_component(v@.subrange(start as int, end as int)) ==> {
            &&& final(out)@ == old(out)@ + (if any {
                seq!['/']
            } else {
                Seq::<char>::empty()
            }) + v@.subrange(start as int, end as int)
            &&& now_any
        },
        !is_component(v@.subrange(start as int, end as int)) ==> {
            &&& final(out)@ == old(out)@
            &&& now_any == any
        },
{
    let ghost seg = v@.subrange(start as int, end as int);
    if start == end {
        return any;
    }
    if end - start == 1 && v[start] == '.' {
        assert(seg =~= seq!['.']);
        return any;
    }
    assert(is_component(seg)) by {
        assert(seg.len() == end - start);
        if seg =~= seq!['.'] {
            assert(seg[0] == v@[start as int]);
            assert(seg[0] == '.');
        }
    }
    let ghost base = out@;
    if any {
        out.push('/');
    }
    push_range(out, v, start, end);
    assert(base + (if any {
        seq!['/']
    } else {
        Seq::<char>::empty()
    }) =~= if any {
        base.push('/')
    } else {
        base
    });
    true
}

/// Appends the components of `v`, joined by `/`, to `out`; says whether there is any.
fn push_components(v: &Vec<char>, out: &mut String) -> (any: bool)
    ensures
        final(out)@ == old(out)@ + join_slash(components(v@)),
        any == (components(v@).len() > 0),
{
    let ghost base = out@;
    let n = v.len();
    let mut start: usize = 0;
    let mut any = false;
    let mut i: usize = 0;
    assert(v@.take(0) =~= Seq::<char>::empty());
    assert(split_slash(v@.take(0)).drop_last() =~= Seq::<Seq<char>>::empty());
    assert(v@.subrange(0, 0) =~= Seq::<char>::empty());
    while i < n
        invariant
            n == v@.len(),
            start <= i <= n,
            split_slash(v@.take(i as int)).len() >= 1,
            split_slash(v@.take(i as int)).last() == v@.subrange(start as int, i as int),
            out@ == base + join_slash(keep_components(split_slash(v@.take(i as int)).drop_last())),
            any == (keep_components(split_slash(v@.take(i as int)).drop_last()).len() > 0),
        decreases n - i,
    {
        let ghost prev = split_slash(v@.take(i as int));
        let ghost kept = keep_components(prev.drop_last());
        assert(v@.take(i + 1).drop_last() =~= v@.take(i as int));
        assert(v@.take(i + 1).last() == v@[i as int]);
        if v[i] == '/' {
            let ghost seg = prev.last();
            any = push_piece(v, start, i, out, any);
            proof {
                assert(prev =~= prev.drop_last().push(seg));
                let now = split_slash(v@.take(i + 1));
                assert(now.drop_last() =~= prev);
                lemma_components_clean(v@);
                lemma_split_shape(v@.take(i as int));
                lemma_keep_components_nonempty(prev.drop_last());
                lemma_join_empty(kept);
                lemma_join_push(kept, seg);
                if is_component(seg) {
                    assert(keep_components(prev) == kept.push(seg));
                    if kept.len() > 0 {
                        assert(out@ =~= base + (join_slash(kept) + seq!['/'] + seg));
                    } else {
                        assert(out@ =~= base + seg);
                    }
                }
                assert(v@.subrange(i + 1, i + 1) =~= Seq::<char>::empty());
            }
            start = i + 1;
        } else {
            proof {
                let now = split_slash(v@.take(i + 1));
                assert(now.drop_last() =~= prev.drop_last());
                assert(now.last() =~= v@.subrange(start as int, i + 1));
            }
        }
        i += 1;
    }
    proof {
        assert(v@.take(n as int) =~= v@);
    }
    let ghost prev = split_slash(v@);
    let ghost kept = keep_components(prev.drop_last());
    let ghost seg = prev.last();
    any = push_piece(v, start, n, out, any);
    proof {
        assert(prev =~= prev.drop_last().push(seg));
        lemma_split_shape(v@);
        lemma_keep_components_nonempty(prev.drop_last());
        lemma_join_empty(kept);
        lemma_join_push(kept, seg);
        if is_component(seg) {
            assert(keep_components(prev) == kept.push(seg));
            if kept.len() > 0 {
                assert(out@ =~= base + (join_slash(kept) + seq!['/'] + seg));
            } else {
                assert(out@ =~= base + seg);
            }
        }
    }
    any
}

/// Normalize an OpenDAL path for uniform internal representation.
///
/// - Path ending with `/` means it's a dir path.
/// - Otherwise, it's a file path.
///
/// # Normalize Rules
///
/// - Leading `/` is stripped: `/abc` => `abc`
/// - Internal `//` is collapsed: `abc///def` => `abc/def`
/// - `.` segments are removed: `./a/./b` => `a/b`, `./` => `/`
/// - Trailing `/` is preserved: `abc/` => `abc/`
/// - Empty path becomes `/`: `` => `/`
///
/// Content within path components (including whitespace) is preserved.
/// This aligns with POSIX, URI, and object-store conventions where
/// whitespace is significant content — `"file"` and `"file "` are
/// distinct objects.
pub fn normalize_path(path: &str) -> (r: String)
    ensures
        r@ == normalized_path(path@),
{
    let v = chars_of(path);
    let mut out = String::new();
    let any = push_components(&v, &mut out);
    assert(out@ =~= join_slash(components(path@)));
    if !any {
        let mut root = String::new();
        root.push('/');
        assert(root@ =~= root_path());
        return root;
    }
    if ends_with_slash_chars(&v) {
        out.push('/');
    }
    out
}

/// Normalize a root path to the style `/abc/def/`.
///
/// # Normalize Rules
///
/// - Leading `/` is stripped then re-added: `///abc` => `/abc/`
/// - Internal `//` is collapsed: `abc///def` => `/abc/def/`
/// - `.` segments are removed: `./data/./root/` => `/data/root/`
/// - Leading `/` is ensured: `abc/` => `/abc/`
/// - Trailing `/` is ensured: `/abc` => `/abc/`
/// - Empty path becomes `/`: `` => `/`
///
/// Content within path components (including whitespace) is preserved.
pub fn normalize_root(v: &str) -> (r: String)
    ensures
        r@ == normalized_root(v@),
{
    let chars = chars_of(v);
    let mut out = String::new();
    out.push('/');
    let any = push_components(&chars, &mut out);
    if any {
        out.push('/');
    } else {
        proof {
            lemma_keep_components_nonempty(split_slash(v@));
            lemma_join_empty(components(v@));
        }
        assert(out@ =~= root_path());
    }
    out
}

/// The index of the last `/` among the first `end` characters, if any.
fn rfind_slash(v: &Vec<char>, end: usize) -> (r: Option<usize>)
    requires
        end <= v@.len(),
    ensures
        match r {
            Some(i) => i as int == last_slash(v@.take(end as int)),
            None => last_slash(v@.take(end as int)) < 0,
        },
{
    let mut j = end;
    while j > 0
        invariant
            j <= end <= v@.len(),
            last_slash(v@.take(end as int)) == last_slash(v@.take(j as int)),
        decreases j,
    {
        assert(v@.take(j as int).last() == v@[j - 1]);
        if v[j - 1] == '/' {
            return Some(j - 1);
        }
        assert(v@.take(j as int).drop_last() =~= v@.take(j - 1));
        j -= 1;
    }
    assert(v@.take(0) =~= Seq::<char>::empty());
    None
}

/// The characters of `v` before a trailing `/`, counted.
fn stem_len(v: &Vec<char>) -> (n: usize)
    ensures
        n <= v@.len(),
        v@.take(n as int) == without_trailing_slash(v@),
{
    if ends_with_slash_chars(v) {
        assert(v@.take(v@.len() - 1) =~= v@.drop_last());
        v.len() - 1
    } else {
        assert(v@.take(v@.len() as int) =~= v@);
        v.len()
    }
}

/// Get basename from path.
pub fn get_basename(path: &str) -> (r: &str)
    ensures
        r@ == basename(path@),
{
    let v = chars_of(path);
    if is_root_chars(&v) {
        return path;
    }
    let end = stem_len(&v);
    proof {
        lemma_last_slash(without_trailing_slash(path@));
    }
    match rfind_slash(&v, end) {
        Some(i) => {
            let name = path.substring_char(i + 1, v.len());
            assert(path@.subrange(i + 1, path@.len() as int) =~= path@.skip(i + 1));
            name
        },
        None => {
            assert(path@.skip(0) =~= path@);
            path
        },
    }
}

/// Get parent from path.
pub fn get_parent(path: &str) -> (r: &str)
    ensures
        r@ == parent(path@),
        ends_with_slash(r@),
{
    let v = chars_of(path);
    if is_root_chars(&v) {
        return path;
    }
    let end = stem_len(&v);
    proof {
        lemma_last_slash(without_trailing_slash(path@));
    }
    match rfind_slash(&v, end) {
        Some(i) => {
            let dir = path.substring_char(0, i + 1);
            assert(path@.subrange(0, i + 1) =~= path@.take(i + 1));
            assert(without_trailing_slash(path@)[i as int] == path@[i as int]);
            dir
        },
        None => {
            let root = "/";
            proof {
                reveal_strlit("/");
            }
            assert(root@ =~= root_path());
            root
        },
    }
}

/// The kind of entry a path names.
#[allow(non_camel_case_types)]
#[derive(Clone, Copy, Debug, PartialEq, Eq, Hash, Default)]
pub enum EntryMode {
    /// A file: its path does not end with `/`.
    FILE,
    /// A directory: its path ends with `/`.
    DIR,
    /// Nothing is known of the entry.
    #[default]
    Unknown,
}

/// Whether a path of the given form can name an entry of the given mode.
pub open spec fn matches_mode(path: Seq<char>, mode: EntryMode) -> bool {
    match mode {
        EntryMode::FILE => !ends_with_slash(path),
        EntryMode::DIR => ends_with_slash(path),
        EntryMode::Unknown => false,
    }
}

/// Validate given path is match with given EntryMode.
pub fn validate_path(path: &str, mode: EntryMode) -> (b: bool)
    requires
        path@.len() > 0,
    ensures
        b == matches_mode(path@, mode),
{
    let v = chars_of(path);
    match mode {
        EntryMode::FILE => !ends_with_slash_chars(&v),
        EntryMode::DIR => ends_with_slash_chars(&v),
        EntryMode::Unknown => false,
    }
}

/// Number of random characters after the `.` of a temporary path.
pub const RANDOM_TMP_PATH_POSTFIX_LENGTH: usize = 8;

/// Number of characters in the postfix alphabet.
const CHARS_LENGTH: u64 = 62;

/// The postfix character for one random seed.
pub fn postfix_char_of(seed: u64) -> (c: char)
    ensures
        c == postfix_char(seed),
        is_postfix_char(c),
{
    let i = (seed % CHARS_LENGTH) as u8;
    if i < 26 {
        (65u8 + i) as char
    } else if i < 52 {
        (97u8 + (i - 26)) as char
    } else {
        (48u8 + (i - 52)) as char
    }
}

/// Build a temporary path of a file path from the given random seeds: the
/// basename, a `.`, and one postfix character for each seed.
pub fn build_tmp_path_from_seeds(path: &str, seeds: &[u64]) -> (r: String)
    ensures
        r@ == tmp_path(path@, seeds@),
{
    let name = get_basename(path);
    let nv = chars_of(name);
    let mut buf = String::new();
    push_range(&mut buf, &nv, 0, nv.len());
    assert(nv@.subrange(0, nv@.len() as int) =~= basename(path@));
    buf.push('.');
    let ghost head = buf@;
    let mut k: usize = 0;
    while k < seeds.len()
        invariant
            k <= seeds@.len(),
            buf@ == head + seeds@.take(k as int).map_values(|seed: u64| postfix_char(seed)),
        decreases seeds@.len() - k,
    {
        let c = postfix_char_of(seeds[k]);
        buf.push(c);
        k += 1;
        assert(seeds@.take(k as int).map_values(|seed: u64| postfix_char(seed)) =~= seeds@.take(
            k - 1,
        ).map_values(|seed: u64| postfix_char(seed)).push(c));
    }
    assert(seeds@.take(seeds@.len() as int) =~= seeds@);
    buf
}

/// `RandomState::new` from std: a hasher builder with fresh random keys.
/// Its keys depend on chance, so nothing is promised of it.
#[verifier::external_body]
fn new_random_state() -> RandomState {
    RandomState::new()
}

/// `BuildHasher::build_hasher` of std on a `RandomState`: a hasher keyed by the
/// state's random keys. What it will hash to depends on chance, so nothing is
/// promised of it.
#[verifier::external_body]
fn build_random_hasher(state: &RandomState) -> DefaultHasher {
    state.build_hasher()
}

/// Build a temporary path of a file path.
///
/// `build_tmp_path_of` appends a dot following a random generated postfix.
/// Don't use it with a path to a folder.
pub fn build_tmp_path_of(path: &str) -> (r: String)
    ensures
        exists|seeds: Seq<u64>|
            seeds.len() == RANDOM_TMP_PATH_POSTFIX_LENGTH && r@ == #[trigger] tmp_path(path@, seeds),
        r@.len() == basename(path@).len() + 1 + RANDOM_TMP_PATH_POSTFIX_LENGTH,
        r@.take(basename(path@).len() + 1int) == basename(path@).push('.'),
        forall|k: int|
            basename(path@).len() + 1 <= k < r@.len() ==> is_postfix_char(#[trigger] r@[k]),
{
    let mut seeds: Vec<u64> = Vec::new();
    let mut k: usize = 0;
    while k < RANDOM_TMP_PATH_POSTFIX_LENGTH
        invariant
            k <= RANDOM_TMP_PATH_POSTFIX_LENGTH,
            seeds@.len() == k,
        decreases RANDOM_TMP_PATH_POSTFIX_LENGTH - k,
    {
        let state = new_random_state();
        let hasher = build_random_hasher(&state);
        seeds.push(hasher.finish());
        k += 1;
    }
    let r = build_tmp_path_from_seeds(path, seeds.as_slice());
    proof {
        let b = basename(path@);
        let post = seeds@.map_values(|seed: u64| postfix_char(seed));
        assert(r@ == b + seq!['.'] + post);
        assert(r@.take(b.len() + 1int) =~= b.push('.'));
        assert forall|k: int| b.len() + 1 <= k < r@.len() implies is_postfix_char(
            #[trigger] r@[k],
        ) by {
            assert(r@[k] == post[k - b.len() - 1]);
            lemma_postfix_char_in_alphabet(seeds@[k - b.len() - 1]);
        }
    }
    r
}

/// Every postfix character is an ASCII letter or digit.
proof fn lemma_postfix_char_in_alphabet(seed: u64)
    ensures
        is_postfix_char(postfix_char(seed)),
{
}

} // verus!
