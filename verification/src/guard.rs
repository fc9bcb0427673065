//! The SSRF guard: URL validation against loopback, private-range,
//! link-local and cloud-metadata destinations, and non-HTTP ports.
//!
//! The guard is a substring and exact-match blocklist over the parsed
//! host, not a DNS resolution: a public hostname that resolves to a
//! private address bypasses it. That gap is deliberate and documented;
//! callers must not treat the guard as a complete SSRF defense.
use vstd::prelude::*;

use crate::error::ImageError;
use crate::text::{contains_seq, contains_str, eq_fold, eq_str, lower_chars};

verus! {

/// The parts of a parsed URL that the guard inspects. A URL without a
/// host carries the empty string.
#[derive(Debug)]
pub struct UrlParts {
    /// The URL scheme, as the parser normalizes it.
    pub scheme: String,
    /// The host, as the parser normalizes it; empty when absent.
    pub host: String,
    /// The explicit port, if one is spelled out and not the scheme's
    /// default.
    pub port: Option<u16>,
}

/// What URL parsing yields on a given string: the scheme, the host
/// (empty when absent) and the explicit port, or nothing when the
/// string is not an absolute URL. Named, not spelled out: the URL
/// grammar is a function of the input alone.
pub uninterp spec fn url_parts_of(s: Seq<char>) -> Option<(Seq<char>, Seq<char>, Option<u16>)>;

/// Relies on `url::Url::parse` and its accessors `scheme`, `host_str`
/// and `port`: parsing either fails or yields a scheme, an optional
/// host and an optional explicit port, all functions of the input
/// string alone.
#[verifier::external_body]
fn parse_url_parts(s: &str) -> (r: Option<UrlParts>)
    ensures
        match r {
            Some(p) => url_parts_of(s@) == Some((p.scheme@, p.host@, p.port)),
            None => url_parts_of(s@) is None,
        },
{
    match url::Url::parse(s) {
        Ok(u) => {
            let scheme = u.scheme().to_owned();
            let host = match u.host_str() {
                Some(h) => h.to_owned(),
                None => String::new(),
            };
            let port = u.port();
            Some(UrlParts { scheme, host, port })
        },
        Err(_) => None,
    }
}

/// Only plain web schemes pass.
pub open spec fn scheme_ok(s: Seq<char>) -> bool {
    s == "http"@ || s == "https"@
}

/// The host contains a loopback, private-range (RFC 1918) or
/// link-local (RFC 3927) fragment.
pub open spec fn host_has_blocked_pattern(h: Seq<char>) -> bool {
    ||| contains_seq(h, "localhost"@)
    ||| contains_seq(h, "127."@)
    ||| contains_seq(h, "0.0.0.0"@)
    ||| contains_seq(h, "10."@)
    ||| contains_seq(h, "172.16."@)
    ||| contains_seq(h, "172.17."@)
    ||| contains_seq(h, "172.18."@)
    ||| contains_seq(h, "172.19."@)
    ||| contains_seq(h, "172.20."@)
    ||| contains_seq(h, "172.21."@)
    ||| contains_seq(h, "192.168."@)
    ||| contains_seq(h, "169.254."@)
}

/// The host equals, up to ASCII case, a known cloud metadata endpoint.
pub open spec fn host_is_metadata_endpoint(h: Seq<char>) -> bool {
    ||| lower_chars(h) == lower_chars("metadata.google.internal"@)
    ||| lower_chars(h) == lower_chars("169.254.169.254"@)
    ||| lower_chars(h) == lower_chars("metadata.azure.internal"@)
    ||| lower_chars(h) == lower_chars("metadata.platformequinix.com"@)
}

/// The explicit port is a well-known non-HTTP service port.
pub open spec fn port_blocked(p: Option<u16>) -> bool {
    match p {
        Some(n) => n == 22 || n == 23 || n == 25 || n == 445 || n == 3306 || n == 5432 || n
            == 27017,
        None => false,
    }
}

/// The guard's whole rule: web scheme, no blocked host fragment, no
/// metadata endpoint, no blocked port.
pub open spec fn guard_accepts(scheme: Seq<char>, host: Seq<char>, port: Option<u16>) -> bool {
    scheme_ok(scheme) && !host_has_blocked_pattern(host) && !host_is_metadata_endpoint(host)
        && !port_blocked(port)
}

/// Apply the guard's rule to already-parsed URL parts.
pub fn check_url_parts(scheme: &str, host: &str, port: Option<u16>) -> (r: bool)
    ensures
        r == guard_accepts(scheme@, host@, port),
{
    if !(eq_str(scheme, "http") || eq_str(scheme, "https")) {
        return false;
    }
    if contains_str(host, "localhost") || contains_str(host, "127.") || contains_str(
        host,
        "0.0.0.0",
    ) || contains_str(host, "10.") || contains_str(host, "172.16.") || contains_str(
        host,
        "172.17.",
    ) || contains_str(host, "172.18.") || contains_str(host, "172.19.") || contains_str(
        host,
        "172.20.",
    ) || contains_str(host, "172.21.") || contains_str(host, "192.168.") || contains_str(
        host,
        "169.254.",
    ) {
        return false;
    }
    if eq_fold(host, "metadata.google.internal") || eq_fold(host, "169.254.169.254") || eq_fold(
        host,
        "metadata.azure.internal",
    ) || eq_fold(host, "metadata.platformequinix.com") {
        return false;
    }
    match port {
        Some(n) => {
            if n == 22 || n == 23 || n == 25 || n == 445 || n == 3306 || n == 5432 || n == 27017 {
                return false;
            }
        },
        None => {},
    }
    true
}

/// Validate a candidate URL string: parse it and hold the parts to the
/// guard's rule. `InvalidUrl` exactly when parsing fails or the rule
/// rejects.
pub fn validate_url(url: &str) -> (r: Result<UrlParts, ImageError>)
    ensures
        match r {
            Ok(p) => url_parts_of(url@) == Some((p.scheme@, p.host@, p.port)) && guard_accepts(
                p.scheme@,
                p.host@,
                p.port,
            ),
            Err(ImageError::InvalidUrl) => match url_parts_of(url@) {
                Some(t) => !guard_accepts(t.0, t.1, t.2),
                None => true,
            },
            Err(_) => false,
        },
{
    match parse_url_parts(url) {
        Some(p) => {
            if check_url_parts(p.scheme.as_str(), p.host.as_str(), p.port) {
                Ok(p)
            } else {
                Err(ImageError::InvalidUrl)
            }
        },
        None => Err(ImageError::InvalidUrl),
    }
}

} // verus!
