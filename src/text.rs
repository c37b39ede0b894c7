use vstd::prelude::*;

verus! {

/// Relies on str::chars, collected into a vector: the characters of `s` in order.
#[verifier::external_body]
pub(crate) fn chars_of(s: &str) -> (r: Vec<char>)
    ensures
        r@ == s@,
{
    s.chars().collect()
}

/// Relies on collecting chars into a String: the string holds the characters in order.
#[verifier::external_body]
pub(crate) fn string_of(v: &Vec<char>) -> (r: String)
    ensures
        r@ == v@,
{
    v.iter().collect()
}

/// Copies the characters of `src` to the end of `dst`.
pub(crate) fn push_all(dst: &mut Vec<char>, src: &Vec<char>)
    ensures
        final(dst)@ == old(dst)@ + src@,
{
    let mut i: usize = 0;
    while i < src.len()
        invariant
            i <= src@.len(),
            dst@ == old(dst)@ + src@.subrange(0, i as int),
        decreases src@.len() - i,
    {
        dst.push(src[i]);
        i = i + 1;
        assert(src@.subrange(0, i as int) == src@.subrange(0, i - 1 as int).push(src@[i - 1]));
    }
    assert(src@.subrange(0, src@.len() as int) == src@);
}

/// Whether the characters of `s` from `start` on begin with `pat`.
pub(crate) fn has_at(s: &Vec<char>, start: usize, pat: &Vec<char>) -> (r: bool)
    requires
        start <= s@.len(),
    ensures
        r == (start + pat@.len() <= s@.len() && s@.subrange(
            start as int,
            start + pat@.len(),
        ) == pat@),
{
    if pat.len() > s.len() - start {
        return false;
    }
    let n = s.len();
    let mut i: usize = 0;
    while i < pat.len()
        invariant
            i <= pat@.len(),
            start <= s@.len(),
            s@.len() <= usize::MAX,
            start + pat@.len() <= s@.len(),
            forall|k: int| 0 <= k < i ==> s@[start + k] == pat@[k],
        decreases pat@.len() - i,
    {
        if s[start + i] != pat[i] {
            assert(s@.subrange(start as int, start + pat@.len())[i as int] != pat@[i as int]);
            return false;
        }
        i = i + 1;
    }
    assert(s@.subrange(start as int, start + pat@.len()) =~= pat@);
    true
}

} // verus!
