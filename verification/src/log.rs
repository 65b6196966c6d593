//! Log line formatting: the one access-log line a closing connection
//! emits, and the timestamped error-log line.

use vstd::prelude::*;
use crate::registry::ConnectionInfo;

verus! {

/// The decimal digits of a non-negative number, most significant first.
pub open spec fn spec_dec_digits(n: int) -> Seq<u8>
    decreases n when n >= 0
{
    if 0 <= n < 10 {
        seq![(48 + n) as u8]
    } else if n >= 10 {
        spec_dec_digits(n / 10).push((48 + n % 10) as u8)
    } else {
        Seq::empty()
    }
}

/// Render a counter as decimal digits.
pub fn u64_to_dec(n: u64) -> (r: Vec<u8>)
    ensures
        r@ == spec_dec_digits(n as int),
    decreases n,
{
    if n < 10 {
        let mut v: Vec<u8> = Vec::new();
        v.push(48 + n as u8);
        assert(v@ =~= spec_dec_digits(n as int));
        v
    } else {
        let mut v = u64_to_dec(n / 10);
        v.push(48 + (n % 10) as u8);
        assert(v@ =~= spec_dec_digits(n as int));
        v
    }
}

/// Append a whole slice to a byte vector.
pub fn push_bytes(out: &mut Vec<u8>, s: &[u8])
    ensures
        final (out)@ == old(out)@ + s@,
{
    let mut i: usize = 0;
    while i < s.len()
        invariant
            i <= s@.len(),
            out@ =~= old(out)@ + s@.take(i as int),
        decreases s@.len() - i,
    {
        out.push(s[i]);
        i += 1;
        assert(out@ =~= old(out)@ + s@.take(i as int));
    }
    assert(out@ =~= old(out)@ + s@);
}

/// The access-log line for one finished connection:
/// `<start_time> <src> <METHOD> <domain> <bytes_in> <bytes_out>`.
pub open spec fn spec_access_log_line(info: ConnectionInfo) -> Seq<u8> {
    info.start_time@ + seq![32u8] + info.src_ip@ + seq![32u8] + info.method@ + seq![32u8]
        + info.dst_domain@ + seq![32u8] + spec_dec_digits(info.traffic_in as int) + seq![32u8]
        + spec_dec_digits(info.traffic_out as int)
}

/// Render the access-log line for one finished connection.
pub fn access_log_line(info: &ConnectionInfo) -> (r: Vec<u8>)
    ensures
        r@ == spec_access_log_line(*info),
{
    let mut out: Vec<u8> = Vec::new();
    push_bytes(&mut out, info.start_time.as_slice());
    out.push(32);
    push_bytes(&mut out, info.src_ip.as_slice());
    out.push(32);
    push_bytes(&mut out, info.method.as_slice());
    out.push(32);
    push_bytes(&mut out, info.dst_domain.as_slice());
    out.push(32);
    let tin = u64_to_dec(info.traffic_in);
    push_bytes(&mut out, tin.as_slice());
    out.push(32);
    let tout = u64_to_dec(info.traffic_out);
    push_bytes(&mut out, tout.as_slice());
    assert(out@ =~= spec_access_log_line(*info));
    out
}

/// The bytes of `][ERROR]: `.
pub open spec fn spec_error_label() -> Seq<u8> {
    seq![93u8, 91u8, 69u8, 82u8, 82u8, 79u8, 82u8, 93u8, 58u8, 32u8]
}

/// The error-log line: `[<timestamp>][ERROR]: <message>`.
pub open spec fn spec_error_log_line(ts: Seq<u8>, msg: Seq<u8>) -> Seq<u8> {
    seq![91u8] + ts + spec_error_label() + msg
}

/// Render one timestamped error-log line.
pub fn error_log_line(ts: &[u8], msg: &[u8]) -> (r: Vec<u8>)
    ensures
        r@ == spec_error_log_line(ts@, msg@),
{
    let mut out: Vec<u8> = Vec::new();
    out.push(91);
    push_bytes(&mut out, ts);
    out.push(93);
    out.push(91);
    out.push(69);
    out.push(82);
    out.push(82);
    out.push(79);
    out.push(82);
    out.push(93);
    out.push(58);
    out.push(32);
    push_bytes(&mut out, msg);
    assert(out@ =~= spec_error_log_line(ts@, msg@));
    out
}

} // verus!
