//! Character-level access to strings.
use vstd::prelude::*;

verus! {

/// `String::push` from std appends one character to the end of the string;
/// this states that, over the strings' characters.
pub assume_specification[ String::push ](s: &mut String, ch: char)
    ensures
        final(s)@ == old(s)@.push(ch),
;

/// The characters of `s`, in order.
pub fn chars_of(s: &str) -> (v: Vec<char>)
    ensures
        v@ == s@,
{
    let mut v: Vec<char> = Vec::new();
    for c in it: s.chars()
        invariant
            v@ == it.seq().take(it.index() as int),
    {
        v.push(c);
    }
    v
}

/// Appends the characters `v[start..end]` to `out`.
pub fn push_range(out: &mut String, v: &Vec<char>, start: usize, end: usize)
    requires
        start <= end <= v@.len(),
    ensures
        final(out)@ == old(out)@ + v@.subrange(start as int, end as int),
{
    let ghost base = out@;
    let mut i = start;
    while i < end
        invariant
            start <= i <= end <= v@.len(),
            out@ == base + v@.subrange(start as int, i as int),
        decreases end - i,
    {
        out.push(v[i]);
        i += 1;
        assert(base + v@.subrange(start as int, i as int) =~= (base + v@.subrange(
            start as int,
            i - 1,
        )).push(v@[i - 1]));
    }
}

} // verus!
