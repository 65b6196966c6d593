//! Per-connection decisions: the immutable configuration, the canned HTTP
//! responses, the choice of blacklist engine at startup, and the initial
//! TLS step of a CONNECT tunnel — forward the first record verbatim or
//! reframe it with the configured fragmenter.

use vstd::prelude::*;
use crate::blacklist::BlacklistManager;
use crate::blacklist::DomainMatching;
use crate::blacklist::parse_blacklist;
use crate::blacklist::spec_blacklist_entries;
use crate::blacklist::spec_fragment_target;
use crate::bytes::spec_lines;
use crate::errors::ProxyError;
use crate::fragment::FragmentMethod;
use crate::fragment::fragment_random;
use crate::fragment::fragment_sni;
use crate::fragment::spec_fragment_sni;
use crate::fragment::spec_random_fragmented;
use crate::log::push_bytes;

verus! {

/// The proxy's configuration, immutable after startup.
pub struct Config {
    pub host: Vec<u8>,
    pub port: u16,
    pub out_host: Option<Vec<u8>>,
    pub blacklist_file: Vec<u8>,
    pub fragment_method: FragmentMethod,
    pub domain_matching: DomainMatching,
    pub log_access_file: Option<Vec<u8>>,
    pub log_error_file: Option<Vec<u8>>,
    pub no_blacklist: bool,
    pub auto_blacklist: bool,
    pub quiet: bool,
}

/// How a connection was classified when its first TLS record went out.
#[derive(Clone, Copy, Debug, PartialEq, Eq, Structural)]
pub enum Classification {
    /// Forwarded untouched.
    Allowed,
    /// Reframed by the fragmenter.
    Blocked,
}

/// The bytes of `HTTP/1.1 500 Internal Server Error\r\n\r\n`.
pub open spec fn spec_http_500() -> Seq<u8> {
    seq![
        72u8, 84u8, 84u8, 80u8, 47u8, 49u8, 46u8, 49u8, 32u8, 53u8, 48u8, 48u8, 32u8, 73u8, 110u8,
        116u8, 101u8, 114u8, 110u8, 97u8, 108u8, 32u8, 83u8, 101u8, 114u8, 118u8, 101u8, 114u8,
        32u8, 69u8, 114u8, 114u8, 111u8, 114u8, 13u8, 10u8, 13u8, 10u8,
    ]
}

/// The bytes of `HTTP/1.1 200 Connection Established\r\n\r\n`.
pub open spec fn spec_http_200_established() -> Seq<u8> {
    seq![
        72u8, 84u8, 84u8, 80u8, 47u8, 49u8, 46u8, 49u8, 32u8, 50u8, 48u8, 48u8, 32u8, 67u8, 111u8,
        110u8, 110u8, 101u8, 99u8, 116u8, 105u8, 111u8, 110u8, 32u8, 69u8, 115u8, 116u8, 97u8,
        98u8, 108u8, 105u8, 115u8, 104u8, 101u8, 100u8, 13u8, 10u8, 13u8, 10u8,
    ]
}

/// The response to an unparseable request, and to a failed plain-HTTP
/// connect.
pub fn http_500_response() -> (r: Vec<u8>)
    ensures
        r@ == spec_http_500(),
{
    let mut v: Vec<u8> = Vec::new();
    v.push(72);
    v.push(84);
    v.push(84);
    v.push(80);
    v.push(47);
    v.push(49);
    v.push(46);
    v.push(49);
    v.push(32);
    v.push(53);
    v.push(48);
    v.push(48);
    v.push(32);
    v.push(73);
    v.push(110);
    v.push(116);
    v.push(101);
    v.push(114);
    v.push(110);
    v.push(97);
    v.push(108);
    v.push(32);
    v.push(83);
    v.push(101);
    v.push(114);
    v.push(118);
    v.push(101);
    v.push(114);
    v.push(32);
    v.push(69);
    v.push(114);
    v.push(114);
    v.push(111);
    v.push(114);
    v.push(13);
    v.push(10);
    v.push(13);
    v.push(10);
    assert(v@ =~= spec_http_500());
    v
}

/// The response that accepts a CONNECT tunnel.
pub fn connect_established_response() -> (r: Vec<u8>)
    ensures
        r@ == spec_http_200_established(),
{
    let mut v: Vec<u8> = Vec::new();
    v.push(72);
    v.push(84);
    v.push(84);
    v.push(80);
    v.push(47);
    v.push(49);
    v.push(46);
    v.push(49);
    v.push(32);
    v.push(50);
    v.push(48);
    v.push(48);
    v.push(32);
    v.push(67);
    v.push(111);
    v.push(110);
    v.push(110);
    v.push(101);
    v.push(99);
    v.push(116);
    v.push(105);
    v.push(111);
    v.push(110);
    v.push(32);
    v.push(69);
    v.push(115);
    v.push(116);
    v.push(97);
    v.push(98);
    v.push(108);
    v.push(105);
    v.push(115);
    v.push(104);
    v.push(101);
    v.push(100);
    v.push(13);
    v.push(10);
    v.push(13);
    v.push(10);
    assert(v@ =~= spec_http_200_established());
    v
}

/// Pick the blacklist engine the configuration asks for. FILE mode needs
/// the blacklist file's bytes and refuses to start without them.
pub fn create_blacklist_manager(config: &Config, file_data: Option<&[u8]>) -> (r: Result<
    BlacklistManager,
    ProxyError,
>)
    ensures
        match r {
            Ok(m) => {
                &&& (config.no_blacklist ==> m matches BlacklistManager::Off)
                &&& (!config.no_blacklist && config.auto_blacklist ==> match m {
                    BlacklistManager::Auto { blocked, allowed } => blocked@.len() == 0
                        && allowed@.len() == 0,
                    _ => false,
                })
                &&& (!config.no_blacklist && !config.auto_blacklist ==> match (m, file_data) {
                    (BlacklistManager::File { patterns, matching }, Some(d)) => patterns.deep_view()
                        == spec_blacklist_entries(spec_lines(d@)) && matching
                        == config.domain_matching,
                    _ => false,
                })
            },
            Err(e) => {
                &&& e == ProxyError::BlacklistIo
                &&& !config.no_blacklist
                &&& !config.auto_blacklist
                &&& file_data is None
            },
        },
{
    if config.no_blacklist {
        return Ok(BlacklistManager::Off);
    }
    if config.auto_blacklist {
        return Ok(BlacklistManager::Auto { blocked: Vec::new(), allowed: Vec::new() });
    }
    match file_data {
        None => Err(ProxyError::BlacklistIo),
        Some(d) => Ok(
            BlacklistManager::File {
                patterns: parse_blacklist(d),
                matching: config.domain_matching,
            },
        ),
    }
}

/// What the initial TLS step writes upstream for a CONNECT tunnel whose
/// first record arrived as `head ++ body`: the record verbatim when the
/// host is no fragment target, otherwise the configured fragmenter's
/// output in place of it.
pub fn plan_initial_tls(
    method: FragmentMethod,
    manager: &BlacklistManager,
    host: &[u8],
    head: &[u8],
    body: &[u8],
) -> (r: (Vec<u8>, Classification))
    requires
        head@.len() == 5,
        body@.len() < 0x10000,
    ensures
        r.1 == (if spec_fragment_target(*manager, host@) {
            Classification::Blocked
        } else {
            Classification::Allowed
        }),
        r.1 matches Classification::Allowed ==> r.0@ == head@ + body@,
        (r.1 matches Classification::Blocked && method matches FragmentMethod::Sni) ==> r.0@
            == spec_fragment_sni(body@),
        (r.1 matches Classification::Blocked && method matches FragmentMethod::Random)
            ==> spec_random_fragmented(r.0@, body@),
{
    if !manager.is_fragment_target(host) {
        let mut out: Vec<u8> = Vec::new();
        push_bytes(&mut out, head);
        push_bytes(&mut out, body);
        assert(out@ =~= head@ + body@);
        (out, Classification::Allowed)
    } else {
        let out = match method {
            FragmentMethod::Random => fragment_random(body),
            FragmentMethod::Sni => fragment_sni(body),
        };
        (out, Classification::Blocked)
    }
}

} // verus!
