//! The request parser: the first buffer read from a client yields the
//! method, the destination host, and the destination port.
//!
//! The buffer splits into lines on LF. The first line's first two
//! space-separated tokens are the method and the target. A `CONNECT` target
//! is `host:port` with the port defaulting to 443 when absent or invalid;
//! any other method takes its destination from the first following line
//! with the case-sensitive prefix `Host:`, whose trimmed value splits on
//! its last `:` into host and port (default 80).

use vstd::prelude::*;
use crate::bytes::copy_range;
use crate::bytes::find_byte;
use crate::bytes::lemma_find_byte_in_range;
use crate::bytes::rfind_byte;
use crate::bytes::spec_find_byte;
use crate::bytes::spec_rfind_byte;
use crate::bytes::spec_starts_with;
use crate::bytes::spec_trim;
use crate::bytes::starts_with;
use crate::bytes::trim_copy;
use crate::errors::ProxyError;

verus! {

/// All bytes are ASCII digits and there is at least one.
pub open spec fn spec_all_digits(s: Seq<u8>) -> bool {
    s.len() >= 1 && forall|i: int| 0 <= i < s.len() ==> 48 <= #[trigger] s[i] <= 57
}

/// The decimal value of a digit string.
pub open spec fn spec_dec_value(s: Seq<u8>) -> int
    decreases s.len()
{
    if s.len() == 0 {
        0
    } else {
        spec_dec_value(s.drop_last()) * 10 + (s.last() - 48)
    }
}

/// A port parses exactly when the text is all decimal digits and its value
/// fits: otherwise the caller falls back to the scheme default.
pub open spec fn spec_parse_port(s: Seq<u8>) -> Option<u16> {
    if spec_all_digits(s) && spec_dec_value(s) <= 65535 {
        Some(spec_dec_value(s) as u16)
    } else {
        None
    }
}

proof fn lemma_dec_value_nonneg(s: Seq<u8>)
    requires
        forall|i: int| 0 <= i < s.len() ==> 48 <= #[trigger] s[i] <= 57,
    ensures
        spec_dec_value(s) >= 0,
    decreases s.len(),
{
    if s.len() > 0 {
        assert(forall|i: int| 0 <= i < s.drop_last().len() ==> 48 <= #[trigger] s.drop_last()[i]
            <= 57);
        lemma_dec_value_nonneg(s.drop_last());
    }
}

proof fn lemma_dec_value_prefix_le(s: Seq<u8>, i: int)
    requires
        forall|k: int| 0 <= k < s.len() ==> 48 <= #[trigger] s[k] <= 57,
        0 <= i <= s.len(),
    ensures
        spec_dec_value(s.take(i)) <= spec_dec_value(s),
    decreases s.len() - i,
{
    if i == s.len() {
        assert(s.take(i) =~= s);
    } else {
        assert(forall|k: int| 0 <= k < s.take(i).len() ==> 48 <= #[trigger] s.take(i)[k] <= 57);
        lemma_dec_value_nonneg(s.take(i));
        assert(s.take(i + 1).drop_last() =~= s.take(i));
        assert(s.take(i + 1).last() == s[i]);
        assert(spec_dec_value(s.take(i + 1)) == spec_dec_value(s.take(i)) * 10 + (s[i] - 48));
        lemma_dec_value_prefix_le(s, i + 1);
    }
}

/// Parse a decimal port number; `None` when the text is empty, holds a
/// non-digit, or exceeds 65535.
pub fn parse_port(s: &[u8]) -> (r: Option<u16>)
    ensures
        r == spec_parse_port(s@),
{
    if s.len() == 0 {
        return None;
    }
    let mut acc: u32 = 0;
    let mut i: usize = 0;
    while i < s.len()
        invariant
            i <= s@.len(),
            s@.len() >= 1,
            forall|j: int| 0 <= j < i ==> 48 <= #[trigger] s@[j] <= 57,
            acc == spec_dec_value(s@.take(i as int)),
            acc <= 65535,
        decreases s@.len() - i,
    {
        let b = s[i];
        if b < 48 || b > 57 {
            assert(!spec_all_digits(s@));
            return None;
        }
        acc = acc * 10 + (b - 48) as u32;
        i += 1;
        proof {
            assert(s@.take(i as int).drop_last() =~= s@.take(i as int - 1));
            assert(s@.take(i as int).last() == s@[i as int - 1]);
        }
        if acc > 65535 {
            proof {
                if spec_all_digits(s@) {
                    lemma_dec_value_prefix_le(s@, i as int);
                }
            }
            return None;
        }
    }
    proof {
        assert(s@.take(s@.len() as int) =~= s@);
        assert(spec_all_digits(s@));
    }
    Some(acc as u16)
}

/// The bytes of `CONNECT`.
pub open spec fn spec_connect_method() -> Seq<u8> {
    seq![67u8, 79u8, 78u8, 78u8, 69u8, 67u8, 84u8]
}

/// The bytes of `Host:`.
pub open spec fn spec_host_prefix() -> Seq<u8> {
    seq![72u8, 111u8, 115u8, 116u8, 58u8]
}

/// The first line of the buffer: everything before the first LF, or the
/// whole buffer without one.
pub open spec fn spec_first_line(data: Seq<u8>) -> Seq<u8> {
    match spec_find_byte(data, 10, 0) {
        Some(i) => data.subrange(0, i),
        None => data,
    }
}

/// The first two space-separated tokens of the request line: the method and
/// the target. `None` when the line has no space at all.
pub open spec fn spec_request_tokens(line: Seq<u8>) -> Option<(Seq<u8>, Seq<u8>)> {
    match spec_find_byte(line, 32, 0) {
        None => None,
        Some(sp) => {
            let method = line.subrange(0, sp);
            let url = match spec_find_byte(line, 32, sp + 1) {
                Some(sp2) => line.subrange(sp + 1, sp2),
                None => line.subrange(sp + 1, line.len() as int),
            };
            Some((method, url))
        },
    }
}

/// A `CONNECT` target `host:port`: the host is everything before the first
/// `:`; the port is the text up to the next `:` or the end, defaulting to
/// 443 when absent or invalid.
pub open spec fn spec_connect_target(url: Seq<u8>) -> (Seq<u8>, u16) {
    match spec_find_byte(url, 58, 0) {
        None => (url, 443u16),
        Some(c) => {
            let host = url.subrange(0, c);
            let ptxt = match spec_find_byte(url, 58, c + 1) {
                Some(c2) => url.subrange(c + 1, c2),
                None => url.subrange(c + 1, url.len() as int),
            };
            match spec_parse_port(ptxt) {
                Some(p) => (host, p),
                None => (host, 443u16),
            }
        },
    }
}

/// A trimmed `Host:` value split on its last `:` into host and port, the
/// port defaulting to 80 when absent or invalid.
pub open spec fn spec_host_value_target(v: Seq<u8>) -> (Seq<u8>, u16) {
    match spec_rfind_byte(v, 58) {
        None => (v, 80u16),
        Some(c) => {
            let host = v.subrange(0, c);
            let ptxt = v.subrange(c + 1, v.len() as int);
            match spec_parse_port(ptxt) {
                Some(p) => (host, p),
                None => (host, 80u16),
            }
        },
    }
}

/// The first line starting at or after position `pos` (a line start) that
/// begins with `Host:`.
pub open spec fn spec_find_host_from(data: Seq<u8>, pos: int) -> Option<Seq<u8>>
    decreases data.len() - pos when 0 <= pos <= data.len()
{
    match spec_find_byte(data, 10, pos) {
        Some(i) => if pos <= i < data.len() {
            let l = data.subrange(pos, i);
            if spec_starts_with(l, spec_host_prefix()) {
                Some(l)
            } else {
                spec_find_host_from(data, i + 1)
            }
        } else {
            None
        },
        None => {
            let l = data.subrange(pos, data.len() as int);
            if spec_starts_with(l, spec_host_prefix()) {
                Some(l)
            } else {
                None
            }
        },
    }
}

/// The first `Host:` line after the request line, if any.
pub open spec fn spec_host_line(data: Seq<u8>) -> Option<Seq<u8>> {
    match spec_find_byte(data, 10, 0) {
        Some(i) => spec_find_host_from(data, i + 1),
        None => None,
    }
}

/// What the parser yields on a buffer: `None` means `InvalidRequest`. The
/// method and target come from the first line; a `CONNECT` target carries
/// its own port; any other method needs a `Host:` line with a non-empty
/// trimmed value.
pub open spec fn spec_parse_request(data: Seq<u8>) -> Option<(Seq<u8>, Seq<u8>, u16)> {
    match spec_request_tokens(spec_first_line(data)) {
        None => None,
        Some((method, url)) => {
            if method == spec_connect_method() {
                let (host, port) = spec_connect_target(url);
                Some((method, host, port))
            } else {
                match spec_host_line(data) {
                    None => None,
                    Some(hline) => {
                        let v = spec_trim(hline.skip(5));
                        if v.len() == 0 {
                            None
                        } else {
                            let (host, port) = spec_host_value_target(v);
                            Some((method, host, port))
                        }
                    },
                }
            }
        },
    }
}

/// A parsed request: the method verbatim, the destination host, and the
/// destination port.
pub struct ParsedRequest {
    pub method: Vec<u8>,
    pub host: Vec<u8>,
    pub port: u16,
}

/// Whether `m` spells `CONNECT`.
fn is_connect(m: &[u8]) -> (r: bool)
    ensures
        r == (m@ == spec_connect_method()),
{
    if m.len() != 7 {
        return false;
    }
    let r = m[0] == 67 && m[1] == 79 && m[2] == 78 && m[3] == 78 && m[4] == 69 && m[5] == 67 && m[6]
        == 84;
    if r {
        assert(m@ =~= spec_connect_method());
    } else {
        assert(m@ != spec_connect_method());
    }
    r
}

/// Find the first `Host:` line at or after `pos`, returned as its byte
/// bounds within `data`.
fn find_host_line(data: &[u8], pos: usize) -> (r: Option<(usize, usize)>)
    requires
        pos <= data@.len(),
    ensures
        match r {
            Some(b) => b.0 <= b.1 <= data@.len() && spec_find_host_from(data@, pos as int) == Some(
                data@.subrange(b.0 as int, b.1 as int),
            ) && spec_starts_with(data@.subrange(b.0 as int, b.1 as int), spec_host_prefix()),
            None => spec_find_host_from(data@, pos as int) is None,
        },
{
    let dlen = data.len();
    let mut p = pos;
    loop
        invariant_except_break
            dlen == data@.len(),
            p <= data@.len(),
            spec_find_host_from(data@, pos as int) == spec_find_host_from(data@, p as int),
        ensures
            spec_find_host_from(data@, pos as int) is None,
        decreases data@.len() - p,
    {
        let (hi, next, last): (usize, usize, bool) = match find_byte(data, 10, p) {
            Some(nl) => {
                proof {
                    lemma_find_byte_in_range(data@, 10, p as int, nl as int);
                }
                (nl, nl + 1, false)
            },
            None => (dlen, dlen, true),
        };
        let head = &data[p..hi];
        let mut prefix: Vec<u8> = Vec::new();
        prefix.push(72);
        prefix.push(111);
        prefix.push(115);
        prefix.push(116);
        prefix.push(58);
        assert(prefix@ =~= spec_host_prefix());
        if starts_with(head, prefix.as_slice()) {
            return Some((p, hi));
        }
        if last {
            break;
        }
        p = next;
    }
    None
}

/// Parse the first buffer read from a client. Fails with `InvalidRequest`
/// exactly when the buffer has no space in its first line (which covers the
/// empty buffer), or — for methods other than `CONNECT` — when no `Host:`
/// line follows or its trimmed value is empty.
pub fn parse_http_request(data: &[u8]) -> (r: Result<ParsedRequest, ProxyError>)
    ensures
        match r {
            Ok(p) => spec_parse_request(data@) == Some((p.method@, p.host@, p.port)),
            Err(e) => spec_parse_request(data@) is None && e == ProxyError::InvalidRequest,
        },
{
    let line_end: usize = match find_byte(data, 10, 0) {
        Some(i) => {
            proof {
                lemma_find_byte_in_range(data@, 10, 0, i as int);
            }
            i
        },
        None => data.len(),
    };
    let line = &data[0..line_end];
    assert(line@ == spec_first_line(data@));
    let sp: usize = match find_byte(line, 32, 0) {
        Some(sp) => {
            proof {
                lemma_find_byte_in_range(line@, 32, 0, sp as int);
            }
            sp
        },
        None => {
            return Err(ProxyError::InvalidRequest);
        },
    };
    let method = copy_range(line, 0, sp);
    let url_end: usize = match find_byte(line, 32, sp + 1) {
        Some(sp2) => {
            proof {
                lemma_find_byte_in_range(line@, 32, sp as int + 1, sp2 as int);
            }
            sp2
        },
        None => line.len(),
    };
    let url = copy_range(line, sp + 1, url_end);
    if is_connect(method.as_slice()) {
        let (host, port): (Vec<u8>, u16) = match find_byte(url.as_slice(), 58, 0) {
            None => (url, 443),
            Some(c) => {
                proof {
                    lemma_find_byte_in_range(url@, 58, 0, c as int);
                }
                let host = copy_range(url.as_slice(), 0, c);
                let pend: usize = match find_byte(url.as_slice(), 58, c + 1) {
                    Some(c2) => {
                        proof {
                            lemma_find_byte_in_range(url@, 58, c as int + 1, c2 as int);
                        }
                        c2
                    },
                    None => url.len(),
                };
                let port = match parse_port(&url.as_slice()[c + 1..pend]) {
                    Some(p) => p,
                    None => 443,
                };
                (host, port)
            },
        };
        return Ok(ParsedRequest { method, host, port });
    }
    if line_end >= data.len() {
        assert(spec_find_byte(data@, 10, 0) is None);
        return Err(ProxyError::InvalidRequest);
    }
    match find_host_line(data, line_end + 1) {
        None => Err(ProxyError::InvalidRequest),
        Some((lo, hi)) => {
            let v = trim_copy(&data[lo + 5..hi]);
            proof {
                assert(data@.subrange(lo as int + 5, hi as int) =~= data@.subrange(
                    lo as int,
                    hi as int,
                ).skip(5));
            }
            if v.len() == 0 {
                return Err(ProxyError::InvalidRequest);
            }
            let (host, port): (Vec<u8>, u16) = match rfind_byte(v.as_slice(), 58) {
                None => (v, 80),
                Some(c) => {
                    proof {
                        crate::bytes::lemma_rfind_byte_in_range(v@, 58, c as int);
                    }
                    let host = copy_range(v.as_slice(), 0, c);
                    let port = match parse_port(&v.as_slice()[c + 1..v.len()]) {
                        Some(p) => p,
                        None => 80,
                    };
                    (host, port)
                },
            };
            Ok(ParsedRequest { method, host, port })
        },
    }
}

} // verus!
