//! Byte-sequence helpers shared by the request parser and the blacklist
//! engine: searching for a byte, prefix tests, ASCII-whitespace trimming and
//! splitting a buffer into lines.

use vstd::prelude::*;

verus! {

/// First index of byte `b` in `s` at or after `from`, if any.
pub open spec fn spec_find_byte(s: Seq<u8>, b: u8, from: int) -> Option<int>
    decreases s.len() - from when 0 <= from
{
    if 0 <= from && from < s.len() {
        if s[from] == b {
            Some(from)
        } else {
            spec_find_byte(s, b, from + 1)
        }
    } else {
        None
    }
}

/// Last index of byte `b` in `s`, if any.
pub open spec fn spec_rfind_byte(s: Seq<u8>, b: u8) -> Option<int>
    decreases s.len()
{
    if s.len() == 0 {
        None
    } else if s[s.len() - 1] == b {
        Some(s.len() - 1)
    } else {
        spec_rfind_byte(s.drop_last(), b)
    }
}

/// `p` is a prefix of `s`.
pub open spec fn spec_starts_with(s: Seq<u8>, p: Seq<u8>) -> bool {
    p.len() <= s.len() && s.take(p.len() as int) == p
}

/// ASCII whitespace: tab through carriage return, and space.
pub open spec fn spec_is_ws(b: u8) -> bool {
    b == 32 || (9 <= b && b <= 13)
}

/// `s` without leading ASCII whitespace.
pub open spec fn spec_trim_front(s: Seq<u8>) -> Seq<u8>
    decreases s.len()
{
    if s.len() > 0 && spec_is_ws(s[0]) {
        spec_trim_front(s.skip(1))
    } else {
        s
    }
}

/// `s` without trailing ASCII whitespace.
pub open spec fn spec_trim_back(s: Seq<u8>) -> Seq<u8>
    decreases s.len()
{
    if s.len() > 0 && spec_is_ws(s[s.len() - 1]) {
        spec_trim_back(s.drop_last())
    } else {
        s
    }
}

/// `s` without leading or trailing ASCII whitespace.
pub open spec fn spec_trim(s: Seq<u8>) -> Seq<u8> {
    spec_trim_back(spec_trim_front(s))
}

/// The segments of `s[pos..]` split on LF bytes. The separators are not
/// kept; a trailing LF yields a final empty segment, as `slice::split` does.
pub open spec fn spec_lines_from(s: Seq<u8>, pos: int) -> Seq<Seq<u8>>
    decreases s.len() - pos when 0 <= pos <= s.len()
{
    match spec_find_byte(s, 10, pos) {
        Some(i) => if pos <= i < s.len() {
            seq![s.subrange(pos, i)] + spec_lines_from(s, i + 1)
        } else {
            seq![s.subrange(pos, s.len() as int)]
        },
        None => seq![s.subrange(pos, s.len() as int)],
    }
}

/// `s` split on LF bytes.
pub open spec fn spec_lines(s: Seq<u8>) -> Seq<Seq<u8>> {
    spec_lines_from(s, 0)
}

/// A found index lies in range and carries the byte searched for.
pub proof fn lemma_find_byte_in_range(s: Seq<u8>, b: u8, from: int, i: int)
    requires
        0 <= from,
        spec_find_byte(s, b, from) == Some(i),
    ensures
        from <= i < s.len(),
        s[i] == b,
    decreases s.len() - from,
{
    if from < s.len() && s[from] != b {
        lemma_find_byte_in_range(s, b, from + 1, i);
    }
}

/// A found last index lies in range and carries the byte searched for.
pub proof fn lemma_rfind_byte_in_range(s: Seq<u8>, b: u8, i: int)
    requires
        spec_rfind_byte(s, b) == Some(i),
    ensures
        0 <= i < s.len(),
        s[i] == b,
    decreases s.len(),
{
    if s.len() > 0 && s[s.len() - 1] != b {
        lemma_rfind_byte_in_range(s.drop_last(), b, i);
    }
}

/// First index of `b` at or after `from`, as executable code.
pub fn find_byte(s: &[u8], b: u8, from: usize) -> (r: Option<usize>)
    ensures
        match r {
            Some(i) => spec_find_byte(s@, b, from as int) == Some(i as int),
            None => spec_find_byte(s@, b, from as int) is None,
        },
{
    let mut i: usize = from;
    if i >= s.len() {
        return None;
    }
    while i < s.len()
        invariant
            from <= i <= s@.len(),
            spec_find_byte(s@, b, from as int) == spec_find_byte(s@, b, i as int),
        decreases s@.len() - i,
    {
        if s[i] == b {
            return Some(i);
        }
        i += 1;
    }
    None
}

/// Last index of `b` in `s`, as executable code.
pub fn rfind_byte(s: &[u8], b: u8) -> (r: Option<usize>)
    ensures
        match r {
            Some(i) => spec_rfind_byte(s@, b) == Some(i as int),
            None => spec_rfind_byte(s@, b) is None,
        },
{
    let mut i: usize = s.len();
    assert(s@.take(s@.len() as int) =~= s@);
    while i > 0
        invariant
            i <= s@.len(),
            spec_rfind_byte(s@, b) == spec_rfind_byte(s@.take(i as int), b),
        decreases i,
    {
        i -= 1;
        if s[i] == b {
            assert(s@.take(i + 1)[i as int] == b);
            return Some(i);
        }
        assert(s@.take(i + 1).drop_last() =~= s@.take(i as int));
    }
    assert(s@.take(0).len() == 0);
    None
}

/// Byte-for-byte equality of two slices.
pub fn bytes_eq(a: &[u8], b: &[u8]) -> (r: bool)
    ensures
        r == (a@ == b@),
{
    if a.len() != b.len() {
        return false;
    }
    let mut i: usize = 0;
    while i < a.len()
        invariant
            i <= a@.len(),
            a@.len() == b@.len(),
            forall|j: int| 0 <= j < i ==> a@[j] == b@[j],
        decreases a@.len() - i,
    {
        if a[i] != b[i] {
            return false;
        }
        i += 1;
    }
    assert(a@ =~= b@);
    true
}

/// Whether `p` is a prefix of `s`.
pub fn starts_with(s: &[u8], p: &[u8]) -> (r: bool)
    ensures
        r == spec_starts_with(s@, p@),
{
    if p.len() > s.len() {
        return false;
    }
    let mut i: usize = 0;
    while i < p.len()
        invariant
            i <= p@.len() <= s@.len(),
            forall|j: int| 0 <= j < i ==> s@[j] == p@[j],
        decreases p@.len() - i,
    {
        if s[i] != p[i] {
            assert(s@.take(p@.len() as int)[i as int] != p@[i as int]);
            return false;
        }
        i += 1;
    }
    assert(s@.take(p@.len() as int) =~= p@);
    true
}

/// A copy of `s[lo..hi]` as a fresh vector.
pub fn copy_range(s: &[u8], lo: usize, hi: usize) -> (r: Vec<u8>)
    requires
        lo <= hi <= s@.len(),
    ensures
        r@ == s@.subrange(lo as int, hi as int),
{
    let mut r: Vec<u8> = Vec::new();
    let mut i: usize = lo;
    while i < hi
        invariant
            lo <= i <= hi <= s@.len(),
            r@ =~= s@.subrange(lo as int, i as int),
        decreases hi - i,
    {
        r.push(s[i]);
        i += 1;
        assert(r@ =~= s@.subrange(lo as int, i as int));
    }
    assert(r@ =~= s@.subrange(lo as int, hi as int));
    r
}

/// `s` with leading and trailing ASCII whitespace removed, as a fresh vector.
pub fn trim_copy(s: &[u8]) -> (r: Vec<u8>)
    ensures
        r@ == spec_trim(s@),
{
    let mut lo: usize = 0;
    assert(s@.skip(0) =~= s@);
    while lo < s.len() && is_ws(s[lo])
        invariant
            lo <= s@.len(),
            spec_trim_front(s@) == spec_trim_front(s@.skip(lo as int)),
        decreases s@.len() - lo,
    {
        assert(s@.skip(lo as int).skip(1) =~= s@.skip(lo as int + 1));
        lo += 1;
    }
    assert(spec_trim_front(s@.skip(lo as int)) == s@.skip(lo as int));
    assert(s@.subrange(lo as int, s@.len() as int) =~= s@.skip(lo as int));
    let mut hi: usize = s.len();
    while hi > lo && is_ws(s[hi - 1])
        invariant
            lo <= hi <= s@.len(),
            spec_trim(s@) == spec_trim_back(s@.subrange(lo as int, hi as int)),
        decreases hi,
    {
        assert(s@.subrange(lo as int, hi as int).drop_last() =~= s@.subrange(
            lo as int,
            hi as int - 1,
        ));
        hi -= 1;
    }
    assert(spec_trim_back(s@.subrange(lo as int, hi as int)) == s@.subrange(lo as int, hi as int));
    copy_range(s, lo, hi)
}

/// ASCII-whitespace test, as executable code.
pub fn is_ws(b: u8) -> (r: bool)
    ensures
        r == spec_is_ws(b),
{
    b == 32 || (9 <= b && b <= 13)
}

} // verus!
