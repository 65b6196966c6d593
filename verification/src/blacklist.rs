//! The blacklist decision engine.
//!
//! Domains are normalized — ASCII-lowercased, then stripped of leading
//! `www.` prefixes — and matched against patterns either exactly, as a
//! parent suffix (`a.b.c` matches `b.c` and `c`), or, in LOOSE mode, as a
//! substring.

use vstd::prelude::*;
use crate::bytes::bytes_eq;
use crate::bytes::spec_starts_with;
use crate::bytes::spec_trim;
use crate::bytes::spec_lines;
use crate::bytes::spec_lines_from;
use crate::bytes::trim_copy;

verus! {

/// How FILE blacklist patterns are matched against a query domain.
#[derive(Clone, Copy, Debug, PartialEq, Eq, Structural)]
pub enum DomainMatching {
    Strict,
    Loose,
}

/// ASCII lowercase of one byte.
pub open spec fn spec_lower_byte(b: u8) -> u8 {
    if 65 <= b <= 90 {
        (b + 32) as u8
    } else {
        b
    }
}

/// ASCII lowercase of a byte sequence.
pub open spec fn spec_lower(s: Seq<u8>) -> Seq<u8> {
    s.map_values(|b: u8| spec_lower_byte(b))
}

/// The bytes of `www.`.
pub open spec fn spec_www() -> Seq<u8> {
    seq![119u8, 119u8, 119u8, 46u8]
}

/// `s` with every leading `www.` prefix removed.
pub open spec fn spec_strip_www(s: Seq<u8>) -> Seq<u8>
    decreases s.len()
{
    if spec_starts_with(s, spec_www()) {
        spec_strip_www(s.skip(4))
    } else {
        s
    }
}

/// Domain normalization: lowercase, then strip leading `www.` prefixes.
pub open spec fn spec_normalize(s: Seq<u8>) -> Seq<u8> {
    spec_strip_www(spec_lower(s))
}

/// `p` occurs somewhere inside `d`.
pub open spec fn spec_is_substring(p: Seq<u8>, d: Seq<u8>) -> bool {
    exists|j: int| 0 <= j && j + p.len() <= d.len() && #[trigger] d.subrange(j, j + p.len()) == p
}

/// `p` is a suffix of `d` that starts right after a dot.
pub open spec fn spec_is_parent_suffix(p: Seq<u8>, d: Seq<u8>) -> bool {
    exists|j: int| 1 <= j <= d.len() && d[j - 1] == 46 && d.skip(j) == p
}

/// One pattern matches the (already normalized) domain `d`.
pub open spec fn spec_matches_pattern(p: Seq<u8>, d: Seq<u8>, loose: bool) -> bool {
    ||| p == d
    ||| spec_is_parent_suffix(p, d)
    ||| (loose && spec_is_substring(p, d))
}

/// Some pattern in `patterns` matches the normalization of `domain`.
pub open spec fn spec_domain_blocked(
    patterns: Seq<Seq<u8>>,
    matching: DomainMatching,
    domain: Seq<u8>,
) -> bool {
    exists|k: int|
        0 <= k < patterns.len() && spec_matches_pattern(
            patterns[k],
            spec_normalize(domain),
            matching matches DomainMatching::Loose,
        )
}

/// ASCII lowercase of a byte slice, as a fresh vector.
pub fn to_lower(s: &[u8]) -> (r: Vec<u8>)
    ensures
        r@ == spec_lower(s@),
{
    let mut r: Vec<u8> = Vec::new();
    let mut i: usize = 0;
    while i < s.len()
        invariant
            i <= s@.len(),
            r@.len() == i,
            forall|j: int| 0 <= j < i ==> r@[j] == spec_lower_byte(s@[j]),
        decreases s@.len() - i,
    {
        let b = s[i];
        if 65 <= b && b <= 90 {
            r.push(b + 32);
        } else {
            r.push(b);
        }
        i += 1;
    }
    assert(r@ =~= spec_lower(s@));
    r
}

/// Normalize a domain: ASCII-lowercase it and strip leading `www.` prefixes.
pub fn normalize_domain(s: &[u8]) -> (r: Vec<u8>)
    ensures
        r@ == spec_normalize(s@),
{
    let lower = to_lower(s);
    let mut off: usize = 0;
    assert(lower@.skip(0) =~= lower@);
    while lower.len() - off >= 4 && lower[off] == 119 && lower[off + 1] == 119 && lower[off + 2]
        == 119 && lower[off + 3] == 46
        invariant
            off <= lower@.len(),
            spec_strip_www(lower@) == spec_strip_www(lower@.skip(off as int)),
        decreases lower@.len() - off,
    {
        assert(spec_starts_with(lower@.skip(off as int), spec_www())) by {
            assert(lower@.skip(off as int).take(4) =~= spec_www());
        }
        assert(lower@.skip(off as int).skip(4) =~= lower@.skip(off as int + 4));
        off += 4;
    }
    proof {
        let rest = lower@.skip(off as int);
        if spec_starts_with(rest, spec_www()) {
            assert(rest.take(4) == spec_www());
            assert(rest[0] == 119 && rest[1] == 119 && rest[2] == 119 && rest[3] == 46);
            assert(false);
        }
    }
    let r = crate::bytes::copy_range(lower.as_slice(), off, lower.len());
    assert(r@ =~= lower@.skip(off as int));
    r
}

/// Whether `s[lo..hi]` equals `p`, byte for byte.
pub fn range_eq(s: &[u8], lo: usize, hi: usize, p: &[u8]) -> (r: bool)
    requires
        lo <= hi <= s@.len(),
    ensures
        r == (s@.subrange(lo as int, hi as int) == p@),
{
    if hi - lo != p.len() {
        assert(s@.subrange(lo as int, hi as int).len() != p@.len());
        return false;
    }
    let mut i: usize = 0;
    while i < p.len()
        invariant
            i <= p@.len(),
            lo <= hi <= s@.len(),
            hi - lo == p@.len(),
            forall|j: int| 0 <= j < i ==> s@[lo + j] == p@[j],
        decreases p@.len() - i,
    {
        if s[lo + i] != p[i] {
            assert(s@.subrange(lo as int, hi as int)[i as int] != p@[i as int]);
            return false;
        }
        i += 1;
    }
    assert(s@.subrange(lo as int, hi as int) =~= p@);
    true
}

/// Whether one pattern matches the normalized domain `d`.
fn matches_pattern(p: &[u8], d: &[u8], loose: bool) -> (r: bool)
    ensures
        r == spec_matches_pattern(p@, d@, loose),
{
    if bytes_eq(p, d) {
        return true;
    }
    let mut jj: usize = 0;
    while jj < d.len()
        invariant
            jj <= d@.len(),
            forall|j2: int| 1 <= j2 <= jj ==> !(d@[j2 - 1] == 46 && d@.skip(j2) == p@),
        decreases d@.len() - jj,
    {
        if d[jj] == 46 && range_eq(d, jj + 1, d.len(), p) {
            assert(d@.subrange(jj as int + 1, d@.len() as int) =~= d@.skip(jj as int + 1));
            assert(spec_is_parent_suffix(p@, d@));
            return true;
        }
        proof {
            assert(d@.subrange(jj as int + 1, d@.len() as int) =~= d@.skip(jj as int + 1));
        }
        jj += 1;
    }
    assert(!spec_is_parent_suffix(p@, d@));
    if loose && p.len() <= d.len() {
        let limit = d.len() - p.len();
        let mut k: usize = 0;
        loop
            invariant_except_break
                loose,
                p@.len() <= d@.len(),
                d@.len() <= usize::MAX,
                limit == d@.len() - p@.len(),
                k <= limit,
                forall|k2: int| 0 <= k2 < k ==> #[trigger] d@.subrange(k2, k2 + p@.len()) != p@,
            ensures
                forall|k2: int|
                    0 <= k2 && k2 + p@.len() <= d@.len() ==> #[trigger] d@.subrange(
                        k2,
                        k2 + p@.len(),
                    ) != p@,
            decreases limit - k,
        {
            if range_eq(d, k, k + p.len(), p) {
                assert(d@.subrange(k as int, k as int + p@.len()) == p@);
                assert(spec_is_substring(p@, d@));
                return true;
            }
            assert(d@.subrange(k as int, k as int + p@.len()) != p@);
            if k == limit {
                break;
            }
            k += 1;
        }
        assert(!spec_is_substring(p@, d@));
        return false;
    }
    if loose {
        assert(!spec_is_substring(p@, d@)) by {
            assert(forall|j2: int|
                0 <= j2 && j2 + p@.len() <= d@.len() ==> #[trigger] d@.subrange(j2, j2 + p@.len())
                    != p@);
        }
    }
    false
}

/// FILE-mode decision: whether any pattern matches the domain after
/// normalization. Patterns are stored normalized by the loader.
pub fn is_domain_blocked(patterns: &Vec<Vec<u8>>, matching: DomainMatching, domain: &[u8]) -> (r:
    bool)
    ensures
        r == spec_domain_blocked(patterns.deep_view(), matching, domain@),
{
    let d = normalize_domain(domain);
    let loose = matching == DomainMatching::Loose;
    let mut k: usize = 0;
    while k < patterns.len()
        invariant
            k <= patterns@.len(),
            d@ == spec_normalize(domain@),
            loose == (matching matches DomainMatching::Loose),
            forall|k2: int| 0 <= k2 < k ==> !spec_matches_pattern(
                #[trigger] patterns.deep_view()[k2],
                spec_normalize(domain@),
                matching matches DomainMatching::Loose,
            ),
        decreases patterns@.len() - k,
    {
        if matches_pattern(patterns[k].as_slice(), d.as_slice(), loose) {
            assert(patterns.deep_view()[k as int] == patterns@[k as int]@);
            return true;
        }
        assert(patterns.deep_view()[k as int] == patterns@[k as int]@);
        k += 1;
    }
    false
}

/// A trimmed blacklist line is kept when it has at least two bytes and does
/// not start with `#`.
pub open spec fn spec_entry_ok(t: Seq<u8>) -> bool {
    t.len() >= 2 && t[0] != 35
}

/// The patterns loaded from a sequence of file lines: each line is trimmed,
/// comment and too-short lines are dropped, the rest are normalized.
pub open spec fn spec_blacklist_entries(lines: Seq<Seq<u8>>) -> Seq<Seq<u8>>
    decreases lines.len()
{
    if lines.len() == 0 {
        Seq::empty()
    } else {
        let t = spec_trim(lines[0]);
        let rest = spec_blacklist_entries(lines.skip(1));
        if spec_entry_ok(t) {
            seq![spec_normalize(t)] + rest
        } else {
            rest
        }
    }
}

proof fn lemma_entries_cons(l: Seq<u8>, rest: Seq<Seq<u8>>)
    ensures
        spec_blacklist_entries(seq![l] + rest) == (if spec_entry_ok(spec_trim(l)) {
            seq![spec_normalize(spec_trim(l))]
        } else {
            Seq::<Seq<u8>>::empty()
        }) + spec_blacklist_entries(rest),
{
    let s = seq![l] + rest;
    assert(s[0] == l);
    assert(s.skip(1) =~= rest);
    if spec_entry_ok(spec_trim(l)) {
        assert(spec_blacklist_entries(s) =~= seq![spec_normalize(spec_trim(l))]
            + spec_blacklist_entries(rest));
    } else {
        assert(Seq::<Seq<u8>>::empty() + spec_blacklist_entries(rest) =~= spec_blacklist_entries(
            rest,
        ));
    }
}

/// Parse the text of a blacklist file: one pattern per line, trimmed,
/// normalized; blank or short lines and lines starting with `#` skipped.
pub fn parse_blacklist(data: &[u8]) -> (r: Vec<Vec<u8>>)
    ensures
        r.deep_view() == spec_blacklist_entries(spec_lines(data@)),
{
    let mut out: Vec<Vec<u8>> = Vec::new();
    let mut pos: usize = 0;
    let dlen = data.len();
    assert(out.deep_view() =~= Seq::<Seq<u8>>::empty());
    loop
        invariant_except_break
            dlen == data@.len(),
            pos <= data@.len(),
            spec_blacklist_entries(spec_lines(data@)) == out.deep_view() + spec_blacklist_entries(
                spec_lines_from(data@, pos as int),
            ),
        ensures
            out.deep_view() == spec_blacklist_entries(spec_lines(data@)),
        decreases data@.len() - pos,
    {
        let ghost old_out = out.deep_view();
        let (hi, next, last): (usize, usize, bool) = match crate::bytes::find_byte(data, 10, pos) {
            Some(nl) => {
                proof {
                    crate::bytes::lemma_find_byte_in_range(data@, 10, pos as int, nl as int);
                }
                (nl, nl + 1, false)
            },
            None => (data.len(), data.len(), true),
        };
        let ghost line = data@.subrange(pos as int, hi as int);
        let ghost rest_lines = if last {
            Seq::<Seq<u8>>::empty()
        } else {
            spec_lines_from(data@, next as int)
        };
        proof {
            if last {
                assert(seq![line] + rest_lines =~= seq![line]);
                assert(spec_lines_from(data@, pos as int) == seq![line]);
            } else {
                assert(spec_lines_from(data@, pos as int) == seq![line] + rest_lines);
            }
            lemma_entries_cons(line, rest_lines);
        }
        let t = trim_copy(&data[pos..hi]);
        if t.len() >= 2 && t[0] != 35 {
            let n = normalize_domain(t.as_slice());
            assert(n@ == spec_normalize(spec_trim(line)));
            out.push(n);
            proof {
                assert(out.deep_view() =~~= old_out.push(spec_normalize(spec_trim(line))));
                assert(old_out.push(spec_normalize(spec_trim(line))) =~= old_out + seq![
                    spec_normalize(spec_trim(line)),
                ]);
                assert(old_out + (seq![spec_normalize(spec_trim(line))]
                    + spec_blacklist_entries(rest_lines)) =~= (old_out + seq![
                    spec_normalize(spec_trim(line)),
                ]) + spec_blacklist_entries(rest_lines));
            }
        } else {
            proof {
                assert(!spec_entry_ok(spec_trim(line)));
                assert(Seq::<Seq<u8>>::empty() + spec_blacklist_entries(rest_lines)
                    =~= spec_blacklist_entries(rest_lines));
            }
        }
        pos = next;
        if last {
            proof {
                assert(spec_blacklist_entries(Seq::<Seq<u8>>::empty()) == Seq::<Seq<u8>>::empty());
                assert(out.deep_view() + Seq::<Seq<u8>>::empty() =~= out.deep_view());
            }
            break;
        }
    }
    out
}

/// The outcome of one HTTPS probe of a domain, as AUTO mode classifies it.
#[derive(Clone, Copy, Debug, PartialEq, Eq, Structural)]
pub enum ProbeOutcome {
    /// Any HTTP response arrived, whatever its status.
    Response,
    /// The probe ran out of its time budget.
    Timeout,
    /// The probe failed some other way.
    OtherError,
}

/// A sequence of byte vectors holds `d`.
pub open spec fn spec_seq_contains(l: Seq<Seq<u8>>, d: Seq<u8>) -> bool {
    exists|i: int| 0 <= i < l.len() && l[i] == d
}

/// Whether `list` holds an entry equal to `d`.
pub fn contains_bytes(list: &Vec<Vec<u8>>, d: &[u8]) -> (r: bool)
    ensures
        r == spec_seq_contains(list.deep_view(), d@),
{
    let mut i: usize = 0;
    while i < list.len()
        invariant
            i <= list@.len(),
            forall|i2: int| 0 <= i2 < i ==> list.deep_view()[i2] != d@,
        decreases list@.len() - i,
    {
        if bytes_eq(list[i].as_slice(), d) {
            assert(list.deep_view()[i as int] == d@);
            return true;
        }
        assert(list.deep_view()[i as int] == list@[i as int]@);
        i += 1;
    }
    false
}

/// The blacklist decision engine in one of its three modes.
///
/// OFF fragments every domain. FILE matches against patterns loaded once
/// from disk and never mutated. AUTO keeps two growing sets filled by
/// probing: `blocked` (fragment) and `allowed` (leave alone).
pub enum BlacklistManager {
    Off,
    File { patterns: Vec<Vec<u8>>, matching: DomainMatching },
    Auto { blocked: Vec<Vec<u8>>, allowed: Vec<Vec<u8>> },
}

/// The decision `is_fragment_target` returns, over the manager's contents.
pub open spec fn spec_fragment_target(m: BlacklistManager, domain: Seq<u8>) -> bool {
    match m {
        BlacklistManager::Off => true,
        BlacklistManager::File { patterns, matching } => spec_domain_blocked(
            patterns.deep_view(),
            matching,
            domain,
        ),
        BlacklistManager::Auto { blocked, allowed } => spec_seq_contains(
            blocked.deep_view(),
            domain,
        ),
    }
}

/// AUTO mode probes a domain only when neither set has seen it.
pub open spec fn spec_probe_needed(m: BlacklistManager, domain: Seq<u8>) -> bool {
    match m {
        BlacklistManager::Auto { blocked, allowed } => !spec_seq_contains(
            blocked.deep_view(),
            domain,
        ) && !spec_seq_contains(allowed.deep_view(), domain),
        _ => false,
    }
}

impl BlacklistManager {
    /// Whether the proxy fragments the first TLS record for `domain`:
    /// always in OFF mode, on a pattern match in FILE mode, and on
    /// membership in the learned `blocked` set in AUTO mode.
    pub fn is_fragment_target(&self, domain: &[u8]) -> (r: bool)
        ensures
            r == spec_fragment_target(*self, domain@),
    {
        match self {
            BlacklistManager::Off => true,
            BlacklistManager::File { patterns, matching } => is_domain_blocked(
                patterns,
                *matching,
                domain,
            ),
            BlacklistManager::Auto { blocked, allowed: _ } => contains_bytes(blocked, domain),
        }
    }

    /// Whether an HTTPS probe of `domain` is due: AUTO mode only, and only
    /// when the domain sits in neither learned set.
    pub fn probe_needed(&self, domain: &[u8]) -> (r: bool)
        ensures
            r == spec_probe_needed(*self, domain@),
    {
        match self {
            BlacklistManager::Auto { blocked, allowed } => {
                !contains_bytes(blocked, domain) && !contains_bytes(allowed, domain)
            },
            _ => false,
        }
    }

    /// Record the outcome of a probe of `domain` in AUTO mode: a response
    /// marks it allowed, a timeout marks it blocked. The sets only grow.
    /// Returns whether the caller must append the domain to the blacklist
    /// file (exactly on a timeout in AUTO mode).
    pub fn apply_probe_result(&mut self, domain: &[u8], outcome: ProbeOutcome) -> (append: bool)
        ensures
            append == (old(self) matches BlacklistManager::Auto { .. } && outcome
                matches ProbeOutcome::Timeout),
            match *old(self) {
                BlacklistManager::Auto { blocked: ob, allowed: oa } => match *final (self) {
                    BlacklistManager::Auto { blocked: nb, allowed: na } => match outcome {
                        ProbeOutcome::Response => nb.deep_view() == ob.deep_view()
                            && na.deep_view() == oa.deep_view().push(domain@),
                        ProbeOutcome::Timeout => nb.deep_view() == ob.deep_view().push(domain@)
                            && na.deep_view() == oa.deep_view(),
                        ProbeOutcome::OtherError => nb.deep_view() == ob.deep_view()
                            && na.deep_view() == oa.deep_view(),
                    },
                    _ => false,
                },
                _ => *final (self) == *old(self),
            },
    {
        match self {
            BlacklistManager::Auto { blocked, allowed } => {
                match outcome {
                    ProbeOutcome::Response => {
                        let ghost oa = allowed.deep_view();
                        allowed.push(crate::bytes::copy_range(domain, 0, domain.len()));
                        proof {
                            assert(domain@.subrange(0, domain@.len() as int) =~= domain@);
                            assert(allowed.deep_view() =~~= oa.push(domain@));
                        }
                        false
                    },
                    ProbeOutcome::Timeout => {
                        let ghost ob = blocked.deep_view();
                        blocked.push(crate::bytes::copy_range(domain, 0, domain.len()));
                        proof {
                            assert(domain@.subrange(0, domain@.len() as int) =~= domain@);
                            assert(blocked.deep_view() =~~= ob.push(domain@));
                        }
                        true
                    },
                    ProbeOutcome::OtherError => false,
                }
            },
            _ => false,
        }
    }
}

/// Normalization depends on a domain only through its lowercase form, so
/// two spellings that differ in ASCII case normalize alike.
pub proof fn lemma_normalize_case_insensitive(d1: Seq<u8>, d2: Seq<u8>)
    requires
        spec_lower(d1) == spec_lower(d2),
    ensures
        spec_normalize(d1) == spec_normalize(d2),
{
}

/// A leading `www.` never changes what a domain normalizes to.
pub proof fn lemma_normalize_www_insensitive(d: Seq<u8>)
    ensures
        spec_normalize(spec_www() + d) == spec_normalize(d),
{
    assert(spec_lower(spec_www() + d) =~= spec_www() + spec_lower(d));
    assert(spec_starts_with(spec_www() + spec_lower(d), spec_www())) by {
        assert((spec_www() + spec_lower(d)).take(4) =~= spec_www());
    }
    assert((spec_www() + spec_lower(d)).skip(4) =~= spec_lower(d));
}

/// The blacklist decision is case-insensitive in the query domain.
pub proof fn lemma_blocked_case_insensitive(
    patterns: Seq<Seq<u8>>,
    matching: DomainMatching,
    d1: Seq<u8>,
    d2: Seq<u8>,
)
    requires
        spec_lower(d1) == spec_lower(d2),
    ensures
        spec_domain_blocked(patterns, matching, d1) == spec_domain_blocked(patterns, matching, d2),
{
    lemma_normalize_case_insensitive(d1, d2);
}

/// The blacklist decision ignores a leading `www.` on the query domain.
pub proof fn lemma_blocked_www_insensitive(
    patterns: Seq<Seq<u8>>,
    matching: DomainMatching,
    d: Seq<u8>,
)
    ensures
        spec_domain_blocked(patterns, matching, spec_www() + d) == spec_domain_blocked(
            patterns,
            matching,
            d,
        ),
{
    lemma_normalize_www_insensitive(d);
}

/// Every byte of a lowered sequence is its own lowercase.
pub open spec fn spec_is_lowered(s: Seq<u8>) -> bool {
    forall|i: int| 0 <= i < s.len() ==> spec_lower_byte(#[trigger] s[i]) == s[i]
}

proof fn lemma_strip_www_of_lowered(s: Seq<u8>)
    requires
        spec_is_lowered(s),
    ensures
        spec_is_lowered(spec_strip_www(s)),
        spec_lower(spec_strip_www(s)) == spec_strip_www(s),
        spec_strip_www(spec_strip_www(s)) == spec_strip_www(s),
    decreases s.len(),
{
    if spec_starts_with(s, spec_www()) {
        assert(spec_is_lowered(s.skip(4)));
        lemma_strip_www_of_lowered(s.skip(4));
    } else {
        assert(spec_lower(s) =~= s);
    }
}

/// Normalization is idempotent: normalizing a normalized domain changes
/// nothing.
pub proof fn lemma_normalize_idempotent(d: Seq<u8>)
    ensures
        spec_normalize(spec_normalize(d)) == spec_normalize(d),
{
    let l = spec_lower(d);
    assert(spec_is_lowered(l)) by {
        assert(forall|i: int|
            0 <= i < l.len() ==> spec_lower_byte(#[trigger] l[i]) == l[i]) by {
            assert(forall|i: int| 0 <= i < l.len() ==> l[i] == spec_lower_byte(d[i]));
        }
    }
    lemma_strip_www_of_lowered(l);
    assert(spec_lower(spec_normalize(d)) == spec_normalize(d));
}

} // verus!
