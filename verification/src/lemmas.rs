//! Facts about the path model that the operations and the laws rest on.
use vstd::prelude::*;
use crate::spec::{
    components, dot_piece_at, double_slash_at, is_component, join_slash, keep_components,
    last_slash, no_dot_piece, no_double_slash, no_slash, root_path, split_slash,
};

verus! {

/// Every piece is a component free of `/`.
pub open spec fn all_clean(segs: Seq<Seq<char>>) -> bool {
    forall|k: int| 0 <= k < segs.len() ==> is_component(#[trigger] segs[k]) && no_slash(segs[k])
}

/// Splitting yields at least one piece, and no piece holds a `/`.
pub proof fn lemma_split_shape(s: Seq<char>)
    ensures
        split_slash(s).len() >= 1,
        forall|k: int| 0 <= k < split_slash(s).len() ==> no_slash(#[trigger] split_slash(s)[k]),
    decreases s.len(),
{
    if s.len() > 0 {
        lemma_split_shape(s.drop_last());
        let prev = split_slash(s.drop_last());
        if s.last() != '/' {
            let l = prev.last().push(s.last());
            assert(no_slash(prev[prev.len() - 1]));
            assert(no_slash(l));
        }
    }
}

/// The kept pieces are components, and free of `/` where all pieces are.
pub proof fn lemma_keep_shape(segs: Seq<Seq<char>>)
    requires
        forall|k: int| 0 <= k < segs.len() ==> no_slash(#[trigger] segs[k]),
    ensures
        all_clean(keep_components(segs)),
        keep_components(segs).len() <= segs.len(),
    decreases segs.len(),
{
    if segs.len() > 0 {
        let d = segs.drop_last();
        assert forall|k: int| 0 <= k < d.len() implies no_slash(#[trigger] d[k]) by {
            assert(d[k] == segs[k]);
        }
        lemma_keep_shape(d);
        assert(no_slash(segs[segs.len() - 1]));
    }
}

/// The components of any path are clean.
pub proof fn lemma_components_clean(s: Seq<char>)
    ensures
        all_clean(components(s)),
{
    lemma_split_shape(s);
    lemma_keep_shape(split_slash(s));
}

/// Joining non-empty pieces gives a non-empty result ending where the last piece ends.
pub proof fn lemma_join_last(segs: Seq<Seq<char>>)
    requires
        segs.len() > 0,
        forall|k: int| 0 <= k < segs.len() ==> (#[trigger] segs[k]).len() > 0,
    ensures
        join_slash(segs).len() > 0,
        join_slash(segs).last() == segs.last().last(),
    decreases segs.len(),
{
    if segs.len() > 1 {
        let d = segs.drop_last();
        assert forall|k: int| 0 <= k < d.len() implies (#[trigger] d[k]).len() > 0 by {
            assert(d[k] == segs[k]);
        }
        lemma_join_last(d);
        assert(segs[segs.len() - 1].len() > 0);
    }
}

/// Joining pieces gives the empty sequence exactly when there are none, for non-empty pieces.
pub proof fn lemma_join_empty(segs: Seq<Seq<char>>)
    requires
        forall|k: int| 0 <= k < segs.len() ==> (#[trigger] segs[k]).len() > 0,
    ensures
        (join_slash(segs).len() == 0) == (segs.len() == 0),
{
    if segs.len() > 0 {
        lemma_join_last(segs);
    }
}

/// Joining one more piece.
pub proof fn lemma_join_push(segs: Seq<Seq<char>>, seg: Seq<char>)
    ensures
        join_slash(segs.push(seg)) == if segs.len() == 0 {
            seg
        } else {
            join_slash(segs) + seq!['/'] + seg
        },
{
    assert(segs.push(seg).drop_last() =~= segs);
    if segs.len() == 0 {
        assert(segs.push(seg)[0] == seg);
    }
}

/// Splitting at a `/` splits the pieces: those of the part before it, then
/// those of the part after it.
pub proof fn lemma_split_concat(a: Seq<char>, b: Seq<char>)
    ensures
        split_slash(a + seq!['/'] + b) == split_slash(a) + split_slash(b),
    decreases b.len(),
{
    let x = a + seq!['/'] + b;
    if b.len() == 0 {
        assert(x.drop_last() =~= a);
        assert(split_slash(b) =~= seq![Seq::<char>::empty()]);
        assert(split_slash(x) =~= split_slash(a) + split_slash(b));
    } else {
        assert(x.drop_last() =~= a + seq!['/'] + b.drop_last());
        lemma_split_concat(a, b.drop_last());
        lemma_split_shape(b.drop_last());
        let q = split_slash(b.drop_last());
        let pa = split_slash(a);
        if b.last() == '/' {
            assert(split_slash(x) =~= split_slash(a) + split_slash(b));
        } else {
            let whole = pa + q;
            assert(whole.last() == q.last());
            assert(whole.update(whole.len() - 1, whole.last().push(b.last())) =~= pa + q.update(
                q.len() - 1,
                q.last().push(b.last()),
            ));
        }
    }
}

/// A piece without `/` splits into itself.
pub proof fn lemma_split_no_slash(s: Seq<char>)
    requires
        no_slash(s),
    ensures
        split_slash(s) == seq![s],
    decreases s.len(),
{
    if s.len() == 0 {
        assert(s =~= Seq::<char>::empty());
        assert(split_slash(s) =~= seq![s]);
    } else {
        let d = s.drop_last();
        assert(no_slash(d)) by {
            assert forall|i: int| 0 <= i < d.len() implies d[i] != '/' by {
                assert(d[i] == s[i]);
            }
        }
        lemma_split_no_slash(d);
        assert(s[s.len() - 1] != '/');
        assert(d.push(s.last()) =~= s);
        let prev = split_slash(d);
        assert(prev.len() == 1 && prev.last() == d);
        assert(prev.update(0, d.push(s.last())) =~= seq![s]);
    }
}

/// Keeping components distributes over concatenation.
pub proof fn lemma_keep_concat(a: Seq<Seq<char>>, b: Seq<Seq<char>>)
    ensures
        keep_components(a + b) == keep_components(a) + keep_components(b),
    decreases b.len(),
{
    if b.len() == 0 {
        assert(a + b =~= a);
        assert(keep_components(a) + keep_components(b) =~= keep_components(a));
    } else {
        assert((a + b).drop_last() =~= a + b.drop_last());
        lemma_keep_concat(a, b.drop_last());
        assert((a + b).last() == b.last());
        if is_component(b.last()) {
            assert(keep_components(a + b) =~= keep_components(a) + keep_components(b));
        } else {
            assert(keep_components(a + b) =~= keep_components(a) + keep_components(b));
        }
    }
}

/// Pieces that are all components are all kept.
pub proof fn lemma_keep_all(segs: Seq<Seq<char>>)
    requires
        forall|k: int| 0 <= k < segs.len() ==> is_component(#[trigger] segs[k]),
    ensures
        keep_components(segs) == segs,
    decreases segs.len(),
{
    if segs.len() > 0 {
        let d = segs.drop_last();
        assert forall|k: int| 0 <= k < d.len() implies is_component(#[trigger] d[k]) by {
            assert(d[k] == segs[k]);
        }
        lemma_keep_all(d);
        assert(is_component(segs[segs.len() - 1]));
        assert(d.push(segs.last()) =~= segs);
    }
}

/// Joined pieces without `/` split back into the same pieces.
pub proof fn lemma_split_join(segs: Seq<Seq<char>>)
    requires
        segs.len() > 0,
        forall|k: int| 0 <= k < segs.len() ==> no_slash(#[trigger] segs[k]),
    ensures
        split_slash(join_slash(segs)) == segs,
    decreases segs.len(),
{
    if segs.len() == 1 {
        assert(no_slash(segs[0]));
        lemma_split_no_slash(segs[0]);
        assert(segs =~= seq![segs[0]]);
    } else {
        let d = segs.drop_last();
        assert forall|k: int| 0 <= k < d.len() implies no_slash(#[trigger] d[k]) by {
            assert(d[k] == segs[k]);
        }
        lemma_split_join(d);
        assert(no_slash(segs[segs.len() - 1]));
        lemma_split_no_slash(segs.last());
        lemma_split_concat(join_slash(d), segs.last());
        assert(d + seq![segs.last()] =~= segs);
    }
}

/// The components of clean pieces joined by `/` are those pieces.
pub proof fn lemma_components_join(segs: Seq<Seq<char>>)
    requires
        segs.len() > 0,
        all_clean(segs),
    ensures
        components(join_slash(segs)) == segs,
        components(join_slash(segs) + seq!['/']) == segs,
        components(seq!['/'] + join_slash(segs) + seq!['/']) == segs,
{
    let j = join_slash(segs);
    let e = Seq::<char>::empty();
    assert forall|k: int| 0 <= k < segs.len() implies no_slash(#[trigger] segs[k]) by {}
    assert forall|k: int| 0 <= k < segs.len() implies is_component(#[trigger] segs[k]) by {}
    lemma_split_join(segs);
    lemma_keep_all(segs);
    // A trailing `/` adds one empty piece.
    lemma_split_concat(j, e);
    assert(j + seq!['/'] + e =~= j + seq!['/']);
    assert(split_slash(e) =~= seq![e]);
    lemma_keep_concat(segs, seq![e]);
    assert(keep_components(Seq::<Seq<char>>::empty()) =~= Seq::<Seq<char>>::empty());
    assert(seq![e].drop_last() =~= Seq::<Seq<char>>::empty());
    assert(!is_component(seq![e].last()));
    assert(keep_components(seq![e]) =~= Seq::<Seq<char>>::empty());
    assert(keep_components(segs) + Seq::<Seq<char>>::empty() =~= segs);
    // A leading `/` adds one more.
    lemma_split_concat(e, j + seq!['/']);
    assert(e + seq!['/'] + (j + seq!['/']) =~= seq!['/'] + j + seq!['/']);
    lemma_keep_concat(seq![e], segs + seq![e]);
    assert(Seq::<Seq<char>>::empty() + segs =~= segs);
}

/// `last_slash` names the last `/`, or -1 where there is none.
pub proof fn lemma_last_slash(s: Seq<char>)
    ensures
        -1 <= last_slash(s) < s.len(),
        last_slash(s) >= 0 ==> s[last_slash(s)] == '/',
        forall|j: int| last_slash(s) < j < s.len() ==> s[j] != '/',
    decreases s.len(),
{
    if s.len() > 0 && s.last() != '/' {
        let d = s.drop_last();
        lemma_last_slash(d);
        assert forall|j: int| last_slash(s) < j < s.len() implies s[j] != '/' by {
            if j < d.len() {
                assert(d[j] == s[j]);
            }
        }
    }
}

/// Joining non-empty pieces gives a result starting where the first piece starts.
pub proof fn lemma_join_first(segs: Seq<Seq<char>>)
    requires
        segs.len() > 0,
        forall|k: int| 0 <= k < segs.len() ==> (#[trigger] segs[k]).len() > 0,
    ensures
        join_slash(segs).len() > 0,
        join_slash(segs)[0] == segs[0][0],
    decreases segs.len(),
{
    if segs.len() > 1 {
        let d = segs.drop_last();
        assert forall|k: int| 0 <= k < d.len() implies (#[trigger] d[k]).len() > 0 by {
            assert(d[k] == segs[k]);
        }
        lemma_join_first(d);
        assert(d[0] == segs[0]);
    }
}

/// The root has no component.
pub proof fn lemma_components_root()
    ensures
        components(root_path()) == Seq::<Seq<char>>::empty(),
{
    let e = Seq::<char>::empty();
    lemma_split_concat(e, e);
    assert(e + seq!['/'] + e =~= root_path());
    assert(split_slash(e) =~= seq![e]);
    lemma_keep_concat(seq![e], seq![e]);
    assert(keep_components(Seq::<Seq<char>>::empty()) =~= Seq::<Seq<char>>::empty());
    assert(seq![e].drop_last() =~= Seq::<Seq<char>>::empty());
    assert(!is_component(seq![e].last()));
    assert(keep_components(seq![e]) =~= Seq::<Seq<char>>::empty());
    assert(seq![e] + seq![e] =~= split_slash(root_path()));
}

/// Kept pieces are non-empty.
pub proof fn lemma_keep_components_nonempty(segs: Seq<Seq<char>>)
    ensures
        forall|k: int|
            0 <= k < keep_components(segs).len() ==> (#[trigger] keep_components(segs)[k]).len()
                > 0,
    decreases segs.len(),
{
    if segs.len() > 0 {
        let d = segs.drop_last();
        lemma_keep_components_nonempty(d);
        let kd = keep_components(d);
        assert forall|k: int| 0 <= k < keep_components(segs).len() implies (
        #[trigger] keep_components(segs)[k]).len() > 0 by {
            if k < kd.len() {
                assert(keep_components(segs)[k] == kd[k]);
            }
        }
    }
}

/// Clean pieces joined by `/` neither start nor end with `/`, hold no two `/`
/// in a row, and hold no piece `.`.
pub proof fn lemma_join_clean_chars(segs: Seq<Seq<char>>)
    requires
        segs.len() > 0,
        all_clean(segs),
    ensures
        join_slash(segs).len() > 0,
        join_slash(segs)[0] != '/',
        join_slash(segs).last() != '/',
        no_double_slash(join_slash(segs)),
        no_dot_piece(join_slash(segs)),
    decreases segs.len(),
{
    let j = join_slash(segs);
    let l = segs.last();
    assert(is_component(segs[segs.len() - 1]) && no_slash(segs[segs.len() - 1]));
    if segs.len() == 1 {
        assert(j == l);
        assert forall|i: int| 0 <= i && i + 1 < j.len() implies !#[trigger] double_slash_at(j, i) by {
            assert(l[i] != '/');
        }
        assert forall|i: int| 0 <= i < j.len() implies !#[trigger] dot_piece_at(j, i) by {
            if dot_piece_at(j, i) {
                if i > 0 {
                    assert(l[i - 1] != '/');
                }
                if i + 1 < j.len() {
                    assert(l[i + 1] != '/');
                }
                assert(l =~= seq!['.']);
            }
        }
    } else {
        let d = segs.drop_last();
        assert forall|k: int| 0 <= k < d.len() implies is_component(#[trigger] d[k]) && no_slash(
            d[k],
        ) by {
            assert(d[k] == segs[k]);
        }
        lemma_join_clean_chars(d);
        let a = join_slash(d);
        let n = a.len();
        assert(j == a + seq!['/'] + l);
        assert(j[0] == a[0]);
        assert(j.last() == l.last());
        assert(l[l.len() - 1] != '/');
        assert forall|i: int| 0 <= i && i + 1 < j.len() implies !#[trigger] double_slash_at(j, i) by {
            if i + 1 < n {
                assert(!double_slash_at(a, i));
                assert(j[i] == a[i] && j[i + 1] == a[i + 1]);
            } else if i + 1 == n {
                assert(j[i] == a.last());
            } else if i == n {
                assert(j[i + 1] == l[0]);
                assert(l[0] != '/');
            } else {
                assert(j[i] == l[i - n - 1]);
                assert(l[i - n - 1] != '/');
            }
        }
        assert forall|i: int| 0 <= i < j.len() implies !#[trigger] dot_piece_at(j, i) by {
            if i < n {
                assert(j[i] == a[i]);
                if i > 0 {
                    assert(j[i - 1] == a[i - 1]);
                }
                if i + 1 < n {
                    assert(j[i + 1] == a[i + 1]);
                    assert(!dot_piece_at(a, i));
                } else {
                    assert(j[i + 1] == '/');
                    assert(!dot_piece_at(a, i));
                }
            } else if i == n {
                assert(j[i] == '/');
            } else {
                let k = i - n - 1;
                assert(j[i] == l[k]);
                if dot_piece_at(j, i) {
                    if k > 0 {
                        assert(j[i - 1] == l[k - 1]);
                        assert(l[k - 1] != '/');
                    }
                    if i + 1 < j.len() {
                        assert(j[i + 1] == l[k + 1]);
                        assert(l[k + 1] != '/');
                    }
                    assert(l =~= seq!['.']);
                }
            }
        }
    }
}

/// A `/` after a last character that is not `/` keeps a path free of two `/`
/// in a row and of pieces `.`.
pub proof fn lemma_append_slash_chars(t: Seq<char>)
    requires
        t.len() > 0,
        t.last() != '/',
        no_double_slash(t),
        no_dot_piece(t),
    ensures
        no_double_slash(t + seq!['/']),
        no_dot_piece(t + seq!['/']),
{
    let u = t + seq!['/'];
    let n = t.len();
    assert forall|i: int| 0 <= i && i + 1 < u.len() implies !#[trigger] double_slash_at(u, i) by {
        assert(u[i] == t[i]);
        if i + 1 < n {
            assert(u[i + 1] == t[i + 1]);
            assert(!double_slash_at(t, i));
        }
    }
    assert forall|i: int| 0 <= i < u.len() implies !#[trigger] dot_piece_at(u, i) by {
        if i < n {
            assert(u[i] == t[i]);
            assert(!dot_piece_at(t, i));
            if i > 0 {
                assert(u[i - 1] == t[i - 1]);
            }
            if i + 1 < n {
                assert(u[i + 1] == t[i + 1]);
            }
        }
    }
}

/// A `/` before a first character that is not `/` keeps a path free of two `/`
/// in a row and of pieces `.`.
pub proof fn lemma_prepend_slash_chars(t: Seq<char>)
    requires
        t.len() > 0,
        t[0] != '/',
        no_double_slash(t),
        no_dot_piece(t),
    ensures
        no_double_slash(seq!['/'] + t),
        no_dot_piece(seq!['/'] + t),
        (seq!['/'] + t).last() == t.last(),
{
    let u = seq!['/'] + t;
    assert forall|i: int| 0 <= i && i + 1 < u.len() implies !#[trigger] double_slash_at(u, i) by {
        assert(u[i + 1] == t[i]);
        if i > 0 {
            assert(u[i] == t[i - 1]);
            assert(!double_slash_at(t, i - 1));
        }
    }
    assert forall|i: int| 0 <= i < u.len() implies !#[trigger] dot_piece_at(u, i) by {
        if i > 0 {
            assert(u[i] == t[i - 1]);
            assert(!dot_piece_at(t, i - 1));
            if i > 1 {
                assert(u[i - 1] == t[i - 2]);
            }
            if i + 1 < u.len() {
                assert(u[i + 1] == t[i]);
            }
        }
    }
}

} // verus!
