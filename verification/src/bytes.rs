use vstd::prelude::*;

verus! {

/// The first place at or after `from` where `s` holds `b`, if there is one.
pub open spec fn first_at(s: Seq<u8>, b: u8, from: int) -> Option<int>
    decreases s.len() - from,
{
    if from < 0 || from >= s.len() {
        None
    } else if s[from] == b {
        Some(from)
    } else {
        first_at(s, b, from + 1)
    }
}

/// `first_at` finds the least place that holds the byte, and finds nothing
/// only where no place holds it.
pub proof fn lemma_first_at(s: Seq<u8>, b: u8, from: int)
    requires
        0 <= from,
    ensures
        match first_at(s, b, from) {
            Some(i) => from <= i < s.len() && s[i] == b && forall|j: int|
                from <= j < i ==> s[j] != b,
            None => forall|j: int| from <= j < s.len() ==> s[j] != b,
        },
    decreases s.len() - from,
{
    if from < s.len() && s[from] != b {
        lemma_first_at(s, b, from + 1);
    }
}

/// A place that holds the byte, with none before it from `from` on, is the
/// place that `first_at` finds.
pub proof fn lemma_first_at_is(s: Seq<u8>, b: u8, from: int, at: int)
    requires
        0 <= from <= at < s.len(),
        s[at] == b,
        forall|j: int| from <= j < at ==> s[j] != b,
    ensures
        first_at(s, b, from) == Some(at),
    decreases at - from,
{
    if from < at {
        lemma_first_at_is(s, b, from + 1, at);
    }
}

/// Looks for `b` in `s` from `from` on.
pub fn find_byte(s: &[u8], b: u8, from: usize) -> (r: Option<usize>)
    ensures
        match r {
            Some(i) => first_at(s@, b, from as int) == Some(i as int) && from <= i < s@.len()
                <= usize::MAX,
            None => first_at(s@, b, from as int) is None,
        },
{
    let mut i: usize = from;
    while i < s.len()
        invariant
            from <= i,
            first_at(s@, b, from as int) == first_at(s@, b, i as int),
        decreases s.len() - i,
    {
        if s[i] == b {
            return Some(i);
        }
        i += 1;
    }
    None
}

/// The twenty bytes of `s` that start at `at`.
pub fn twenty_at(s: &[u8], at: usize) -> (out: [u8; 20])
    requires
        at + 20 <= s@.len(),
    ensures
        out@ == s@.subrange(at as int, at + 20),
{
    let len = s.len();
    let mut out = [0u8; 20];
    let mut i: usize = 0;
    while i < 20
        invariant
            i <= 20,
            at + 20 <= len == s@.len(),
            forall|j: int| 0 <= j < i ==> out@[j] == s@[at + j],
        decreases 20 - i,
    {
        out[i] = s[at + i];
        i += 1;
    }
    assert(out@ =~= s@.subrange(at as int, at + 20));
    out
}

/// Appends a copy of `src` to `out`.
pub fn append_bytes(out: &mut Vec<u8>, src: &[u8])
    ensures
        final(out)@ == old(out)@ + src@,
{
    let mut i: usize = 0;
    while i < src.len()
        invariant
            i <= src@.len(),
            out@ == old(out)@ + src@.take(i as int),
        decreases src.len() - i,
    {
        out.push(src[i]);
        assert(src@.take(i + 1) =~= src@.take(i as int).push(src@[i as int]));
        i += 1;
    }
    assert(src@.take(i as int) =~= src@);
}

} // verus!
