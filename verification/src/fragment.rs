//! The TLS ClientHello fragmentation engine.
//!
//! Both strategies re-encapsulate one TLS record body as several short TLS
//! records. Every emitted record carries a synthesized five-byte header
//! `16 03 04 LL LL` whose length field `LL LL` is the big-endian length of
//! that record's body, and the concatenation of the emitted record bodies is
//! the original body, byte for byte.

use vstd::prelude::*;
use rand::Rng;
use crate::bytes::find_byte;
use crate::bytes::spec_find_byte;
use crate::bytes::lemma_find_byte_in_range;

verus! {

/// One synthesized TLS record: type `16`, version `03 04`, a two-byte
/// big-endian length equal to the body length, then the body.
pub open spec fn spec_frame(body: Seq<u8>) -> Seq<u8> {
    seq![
        0x16u8,
        0x03u8,
        0x04u8,
        (body.len() / 256) as u8,
        (body.len() % 256) as u8,
    ] + body
}

/// Parse a byte stream as back-to-back synthesized TLS records and return
/// their bodies in order. `Some` exactly when the whole stream is a run of
/// records, each with header `16 03 04` and a length field that equals its
/// body length.
pub open spec fn spec_records(out: Seq<u8>) -> Option<Seq<Seq<u8>>>
    decreases out.len()
{
    if out.len() == 0 {
        Some(Seq::empty())
    } else if out.len() >= 5 && out[0] == 0x16 && out[1] == 0x03 && out[2] == 0x04 {
        let l = out[3] * 256 + out[4];
        if 5 + l <= out.len() {
            match spec_records(out.skip(5 + l)) {
                Some(rest) => Some(seq![out.subrange(5, 5 + l)] + rest),
                None => None,
            }
        } else {
            None
        }
    } else {
        None
    }
}

/// The concatenation of a sequence of byte sequences.
pub open spec fn spec_concat(bodies: Seq<Seq<u8>>) -> Seq<u8>
    decreases bodies.len()
{
    if bodies.len() == 0 {
        Seq::empty()
    } else {
        bodies[0] + spec_concat(bodies.skip(1))
    }
}

/// Each body framed as a record, laid end to end.
pub open spec fn spec_frame_all(bodies: Seq<Seq<u8>>) -> Seq<u8>
    decreases bodies.len()
{
    if bodies.len() == 0 {
        Seq::empty()
    } else {
        spec_frame(bodies[0]) + spec_frame_all(bodies.skip(1))
    }
}

pub proof fn lemma_frame_all_push(bodies: Seq<Seq<u8>>, b: Seq<u8>)
    ensures
        spec_frame_all(bodies.push(b)) == spec_frame_all(bodies) + spec_frame(b),
    decreases bodies.len(),
{
    if bodies.len() == 0 {
        assert(bodies.push(b)[0] == b);
        assert(bodies.push(b).skip(1) =~= Seq::<Seq<u8>>::empty());
        assert(spec_frame_all(Seq::<Seq<u8>>::empty()) == Seq::<u8>::empty());
        assert(spec_frame_all(bodies.push(b)) == spec_frame(b) + Seq::<u8>::empty());
        assert(spec_frame_all(bodies.push(b)) =~= spec_frame_all(bodies) + spec_frame(b));
    } else {
        assert(bodies.push(b).skip(1) =~= bodies.skip(1).push(b));
        lemma_frame_all_push(bodies.skip(1), b);
        assert(bodies.push(b)[0] == bodies[0]);
        assert(spec_frame_all(bodies.push(b)) == spec_frame(bodies[0]) + spec_frame_all(
            bodies.skip(1).push(b),
        ));
        assert(spec_frame_all(bodies.push(b)) == spec_frame(bodies[0]) + (spec_frame_all(
            bodies.skip(1),
        ) + spec_frame(b)));
        assert(spec_frame(bodies[0]) + (spec_frame_all(bodies.skip(1)) + spec_frame(b)) =~= (
        spec_frame(bodies[0]) + spec_frame_all(bodies.skip(1))) + spec_frame(b));
    }
}

pub proof fn lemma_concat_push(bodies: Seq<Seq<u8>>, b: Seq<u8>)
    ensures
        spec_concat(bodies.push(b)) == spec_concat(bodies) + b,
    decreases bodies.len(),
{
    if bodies.len() == 0 {
        assert(bodies.push(b)[0] == b);
        assert(bodies.push(b).skip(1) =~= Seq::<Seq<u8>>::empty());
        assert(spec_concat(Seq::<Seq<u8>>::empty()) == Seq::<u8>::empty());
        assert(spec_concat(bodies.push(b)) == b + Seq::<u8>::empty());
        assert(spec_concat(bodies.push(b)) =~= spec_concat(bodies) + b);
    } else {
        assert(bodies.push(b).skip(1) =~= bodies.skip(1).push(b));
        lemma_concat_push(bodies.skip(1), b);
        assert(bodies.push(b)[0] == bodies[0]);
        assert(spec_concat(bodies.push(b)) == bodies[0] + spec_concat(bodies.skip(1).push(b)));
        assert(spec_concat(bodies.push(b)) == bodies[0] + (spec_concat(bodies.skip(1)) + b));
        assert(bodies[0] + (spec_concat(bodies.skip(1)) + b) =~= (bodies[0] + spec_concat(
            bodies.skip(1),
        )) + b);
    }
}

/// A stream of framed records parses back to exactly the framed bodies.
pub proof fn lemma_records_of_frames(bodies: Seq<Seq<u8>>)
    requires
        forall|i: int| 0 <= i < bodies.len() ==> #[trigger] bodies[i].len() < 0x10000,
    ensures
        spec_records(spec_frame_all(bodies)) == Some(bodies),
    decreases bodies.len(),
{
    if bodies.len() == 0 {
    } else {
        let b0 = bodies[0];
        let rest = bodies.skip(1);
        let s = spec_frame_all(bodies);
        lemma_records_of_frames(rest);
        assert(s.len() >= 5);
        assert(s[0] == 0x16 && s[1] == 0x03 && s[2] == 0x04);
        assert(s[3] == (b0.len() / 256) as u8 && s[4] == (b0.len() % 256) as u8);
        assert(b0.len() / 256 < 256);
        let l = s[3] * 256 + s[4];
        assert(l == b0.len());
        assert(5 + l <= s.len());
        assert(s.subrange(5, 5 + l) =~= b0);
        assert(s.skip(5 + l) =~= spec_frame_all(rest));
        assert(seq![b0] + rest =~= bodies);
    }
}

/// Which fragmentation strategy reframes the first TLS record.
#[derive(Clone, Copy, Debug, PartialEq, Eq, Structural)]
pub enum FragmentMethod {
    Random,
    Sni,
}

/// What the RANDOM strategy guarantees of its output: it parses as a run
/// of well-formed records, the record bodies concatenate to the input byte
/// for byte, every body is non-empty, and when the input holds a zero byte
/// the first body ends exactly one byte past the first zero.
pub open spec fn spec_random_fragmented(out: Seq<u8>, data: Seq<u8>) -> bool {
    spec_records(out) matches Some(bodies) && {
        &&& spec_concat(bodies) == data
        &&& forall|i: int| 0 <= i < bodies.len() ==> 1 <= #[trigger] bodies[i].len()
        &&& (spec_find_byte(data, 0, 0) matches Some(z) ==> bodies.len() >= 1 && bodies[0].len()
            == z + 1)
    }
}

/// A stream that parses is exactly the framing of its record bodies: each
/// record in it carries the header `16 03 04` and a length field equal to
/// its body's length, with nothing in between or left over.
pub proof fn lemma_records_exact_framing(out: Seq<u8>)
    requires
        spec_records(out) is Some,
    ensures
        spec_frame_all(spec_records(out)->Some_0) == out,
    decreases out.len(),
{
    let bodies = spec_records(out)->Some_0;
    if out.len() == 0 {
        assert(spec_frame_all(bodies) =~= out);
    } else {
        let l = out[3] * 256 + out[4];
        let b0 = out.subrange(5, 5 + l);
        let rest = out.skip(5 + l);
        lemma_records_exact_framing(rest);
        let rbodies = spec_records(rest)->Some_0;
        assert(bodies == seq![b0] + rbodies);
        assert(bodies[0] == b0);
        assert(bodies.skip(1) =~= rbodies);
        assert(b0.len() == l);
        assert(l / 256 == out[3] && l % 256 == out[4]);
        assert(spec_frame(b0) =~= out.take(5 + l));
        assert(spec_frame_all(bodies) == spec_frame(b0) + spec_frame_all(rbodies));
        assert(spec_frame(b0) + rest =~= out);
    }
}

/// Relies on `rand::Rng::gen_range` over the inclusive range `lo..=hi`:
/// it returns a value inside the range and panics only when the range is
/// empty, which the precondition rules out.
#[verifier::external_body]
fn rand_in_range(lo: usize, hi: usize) -> (r: usize)
    requires
        lo <= hi,
    ensures
        lo <= r <= hi,
{
    rand::thread_rng().gen_range(lo..=hi)
}

/// Append one synthesized record framing `data[lo..hi]` to `out`.
fn push_record(out: &mut Vec<u8>, data: &[u8], lo: usize, hi: usize)
    requires
        lo <= hi <= data@.len(),
        hi - lo < 0x10000,
    ensures
        final(out)@ == old(out)@ + spec_frame(data@.subrange(lo as int, hi as int)),
{
    let len = hi - lo;
    out.push(0x16);
    out.push(0x03);
    out.push(0x04);
    out.push((len / 256) as u8);
    out.push((len % 256) as u8);
    let ghost header_done = out@;
    let mut i: usize = lo;
    while i < hi
        invariant
            lo <= i <= hi <= data@.len(),
            out@ =~= header_done + data@.subrange(lo as int, i as int),
        decreases hi - i,
    {
        out.push(data[i]);
        i += 1;
        assert(out@ =~= header_done + data@.subrange(lo as int, i as int));
    }
    assert(out@ =~= old(out)@ + spec_frame(data@.subrange(lo as int, hi as int)));
}

/// RANDOM strategy: cut the body into chunks of random size in
/// `[1, remaining]`, except that when the body holds a zero byte the first
/// chunk ends exactly one byte past the first zero. Each chunk is framed as
/// one synthesized record.
///
/// The postcondition carries the fragmenter's invariants: the output parses
/// as a run of well-formed records, their bodies concatenate to `data`
/// byte for byte, every body is non-empty, and the first-zero boundary rule
/// holds whenever a zero byte exists.
pub fn fragment_random(data: &[u8]) -> (out: Vec<u8>)
    requires
        data@.len() < 0x10000,
    ensures
        spec_random_fragmented(out@, data@),
{
    let mut out: Vec<u8> = Vec::new();
    let ghost mut bodies: Seq<Seq<u8>> = Seq::empty();
    let mut start: usize = 0;
    assert(spec_concat(bodies) =~= data@.take(0));
    match find_byte(data, 0, 0) {
        Some(pos) => {
            proof {
                lemma_find_byte_in_range(data@, 0, 0, pos as int);
            }
            push_record(&mut out, data, 0, pos + 1);
            proof {
                lemma_frame_all_push(bodies, data@.subrange(0, pos + 1));
                lemma_concat_push(bodies, data@.subrange(0, pos + 1));
                bodies = bodies.push(data@.subrange(0, pos + 1));
                assert(spec_concat(bodies) =~= data@.take(pos + 1));
            }
            start = pos + 1;
        },
        None => {},
    }
    while start < data.len()
        invariant
            start <= data@.len() < 0x10000,
            out@ == spec_frame_all(bodies),
            spec_concat(bodies) == data@.take(start as int),
            forall|i: int| 0 <= i < bodies.len() ==> 1 <= #[trigger] bodies[i].len() < 0x10000,
            spec_find_byte(data@, 0, 0) matches Some(z) ==> bodies.len() >= 1 && bodies[0].len()
                == z + 1,
        decreases data@.len() - start,
    {
        let chunk = rand_in_range(1, data.len() - start);
        push_record(&mut out, data, start, start + chunk);
        proof {
            lemma_frame_all_push(bodies, data@.subrange(start as int, start as int + chunk));
            lemma_concat_push(bodies, data@.subrange(start as int, start as int + chunk));
            bodies = bodies.push(data@.subrange(start as int, start as int + chunk));
            assert(spec_concat(bodies) =~= data@.take(start as int + chunk));
        }
        start = start + chunk;
    }
    proof {
        lemma_records_of_frames(bodies);
        assert(data@.take(start as int) =~= data@);
    }
    out
}

/// The SNI-detection heuristic holds at index `i`: six zero bytes in the
/// positions a single-hostname server-name extension with one-byte lengths
/// would have them, length fields that nest as `ext = list + 2`,
/// `list = name + 3`, and a hostname window that fits in the buffer.
pub open spec fn spec_is_sni_at(data: Seq<u8>, i: int) -> bool {
    &&& 0 <= i
    &&& i + 8 < data.len()
    &&& data[i] == 0
    &&& data[i + 1] == 0
    &&& data[i + 2] == 0
    &&& data[i + 4] == 0
    &&& data[i + 6] == 0
    &&& data[i + 7] == 0
    &&& data[i + 3] >= data[i + 5]
    &&& data[i + 5] >= data[i + 8]
    &&& data[i + 3] - data[i + 5] == 2
    &&& data[i + 5] - data[i + 8] == 3
    &&& i + 9 + data[i + 8] <= data.len()
}

/// First index at or after `from` where the SNI heuristic matches.
pub open spec fn spec_find_sni(data: Seq<u8>, from: int) -> Option<int>
    decreases data.len() - from when 0 <= from
{
    if 0 <= from && from + 8 < data.len() {
        if spec_is_sni_at(data, from) {
            Some(from)
        } else {
            spec_find_sni(data, from + 1)
        }
    } else {
        None
    }
}

/// A found SNI index matches the heuristic and nothing before it does.
pub proof fn lemma_find_sni_some(data: Seq<u8>, from: int, i: int)
    requires
        0 <= from,
        spec_find_sni(data, from) == Some(i),
    ensures
        from <= i,
        spec_is_sni_at(data, i),
        forall|j: int| from <= j < i ==> !spec_is_sni_at(data, j),
    decreases data.len() - from,
{
    if from + 8 < data.len() && !spec_is_sni_at(data, from) {
        lemma_find_sni_some(data, from + 1, i);
    }
}

/// SNI strategy output: nothing when no SNI position is found; otherwise the
/// prefix before the hostname, the two halves of the hostname (ceiling
/// split), and the suffix after it, each framed as one synthesized record.
pub open spec fn spec_fragment_sni(data: Seq<u8>) -> Seq<u8> {
    match spec_find_sni(data, 0) {
        None => Seq::empty(),
        Some(i) => {
            let start = i + 9;
            let end = i + 9 + data[i + 8];
            let mid = start + (end - start + 1) / 2;
            spec_frame(data.take(start)) + spec_frame(data.subrange(start, mid)) + spec_frame(
                data.subrange(mid, end),
            ) + spec_frame(data.skip(end))
        },
    }
}

/// Scan for the SNI hostname window `[start, end)`, as the heuristic finds
/// it at the first matching index.
pub fn extract_sni_position(data: &[u8]) -> (r: Option<(usize, usize)>)
    ensures
        match r {
            Some(w) => spec_find_sni(data@, 0) matches Some(i) && w.0 == i + 9 && w.1 == i + 9
                + data@[i + 8] && w.0 <= w.1 <= data@.len(),
            None => spec_find_sni(data@, 0) is None,
        },
{
    if data.len() < 9 {
        return None;
    }
    let mut i: usize = 0;
    while i < data.len() - 8
        invariant
            9 <= data@.len(),
            i <= data@.len(),
            spec_find_sni(data@, 0) == spec_find_sni(data@, i as int),
        decreases data@.len() - i,
    {
        if data[i] == 0 && data[i + 1] == 0 && data[i + 2] == 0 && data[i + 4] == 0 && data[i + 6]
            == 0 && data[i + 7] == 0 {
            let ext_len = data[i + 3];
            let list_len = data[i + 5];
            let name_len = data[i + 8];
            if ext_len >= list_len && list_len >= name_len && ext_len - list_len == 2 && list_len
                - name_len == 3 && (name_len as usize) <= data.len() - i - 9 {
                return Some((i + 9, i + 9 + name_len as usize));
            }
        }
        assert(!spec_is_sni_at(data@, i as int));
        i += 1;
    }
    None
}

/// SNI strategy: frame the bytes before the SNI hostname, each half of the
/// hostname, and the bytes after it as four synthesized records; emit
/// nothing when no SNI position is found.
pub fn fragment_sni(data: &[u8]) -> (out: Vec<u8>)
    requires
        data@.len() < 0x10000,
    ensures
        out@ == spec_fragment_sni(data@),
{
    let mut out: Vec<u8> = Vec::new();
    match extract_sni_position(data) {
        None => {},
        Some((start, end)) => {
            let mid = start + (end - start + 1) / 2;
            push_record(&mut out, data, 0, start);
            push_record(&mut out, data, start, mid);
            push_record(&mut out, data, mid, end);
            push_record(&mut out, data, end, data.len());
            proof {
                assert(data@.subrange(0, start as int) =~= data@.take(start as int));
                assert(data@.subrange(end as int, data@.len() as int) =~= data@.skip(end as int));
                assert(out@ =~= spec_fragment_sni(data@));
            }
        },
    }
    out
}

proof fn lemma_frame_all_four(a: Seq<u8>, b: Seq<u8>, c: Seq<u8>, d: Seq<u8>)
    ensures
        spec_frame_all(seq![a, b, c, d]) == spec_frame(a) + spec_frame(b) + spec_frame(c)
            + spec_frame(d),
{
    let s = seq![a, b, c, d];
    assert(s.skip(1) =~= seq![b, c, d]);
    assert(seq![b, c, d].skip(1) =~= seq![c, d]);
    assert(seq![c, d].skip(1) =~= seq![d]);
    assert(seq![d].skip(1) =~= Seq::<Seq<u8>>::empty());
    assert(spec_frame_all(Seq::<Seq<u8>>::empty()) == Seq::<u8>::empty());
    assert(spec_frame_all(seq![d]) =~= spec_frame(d));
    assert(spec_frame_all(seq![c, d]) =~= spec_frame(c) + spec_frame(d));
    assert(spec_frame_all(seq![b, c, d]) =~= spec_frame(b) + spec_frame(c) + spec_frame(d));
    assert(spec_frame_all(s) =~= spec_frame(a) + spec_frame(b) + spec_frame(c) + spec_frame(d));
}

proof fn lemma_concat_four(a: Seq<u8>, b: Seq<u8>, c: Seq<u8>, d: Seq<u8>)
    ensures
        spec_concat(seq![a, b, c, d]) == a + b + c + d,
{
    let s = seq![a, b, c, d];
    assert(s.skip(1) =~= seq![b, c, d]);
    assert(seq![b, c, d].skip(1) =~= seq![c, d]);
    assert(seq![c, d].skip(1) =~= seq![d]);
    assert(seq![d].skip(1) =~= Seq::<Seq<u8>>::empty());
    assert(spec_concat(Seq::<Seq<u8>>::empty()) == Seq::<u8>::empty());
    assert(spec_concat(seq![d]) =~= d);
    assert(spec_concat(seq![c, d]) =~= c + d);
    assert(spec_concat(seq![b, c, d]) =~= b + c + d);
    assert(spec_concat(s) =~= a + b + c + d);
}

/// The bodies of the four records that the SNI strategy emits concatenate to
/// the original body, byte for byte, whenever an SNI position is found.
pub proof fn lemma_fragment_sni_round_trip(data: Seq<u8>)
    requires
        data.len() < 0x10000,
        spec_find_sni(data, 0) is Some,
    ensures
        spec_records(spec_fragment_sni(data)) matches Some(bodies) && bodies.len() == 4
            && spec_concat(bodies) == data,
{
    match spec_find_sni(data, 0) {
        None => {},
        Some(i) => {
            lemma_find_sni_some(data, 0, i);
            let start = i + 9;
            let end = i + 9 + data[i + 8];
            let mid = start + (end - start + 1) / 2;
            let bodies = seq![
                data.take(start),
                data.subrange(start, mid),
                data.subrange(mid, end),
                data.skip(end),
            ];
            assert(start <= mid <= end <= data.len());
            lemma_frame_all_four(
                data.take(start),
                data.subrange(start, mid),
                data.subrange(mid, end),
                data.skip(end),
            );
            lemma_concat_four(
                data.take(start),
                data.subrange(start, mid),
                data.subrange(mid, end),
                data.skip(end),
            );
            assert(spec_fragment_sni(data) == spec_frame_all(bodies));
            lemma_records_of_frames(bodies);
            assert(spec_concat(bodies) =~= data);
        },
    }
}

} // verus!
