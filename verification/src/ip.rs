//! Address validation: the library accepts an interface address only
//! when the `ipnetwork` crate parses it as an IP network in CIDR or
//! plain-address form.

use vstd::prelude::*;

use crate::text;

verus! {

/// Whether `ipnetwork` parses `s` as an IPv4 or IPv6 network. The
/// outcome depends on the characters of `s` alone.
pub uninterp spec fn ip_network_ok(s: Seq<char>) -> bool;

/// Relies on `ipnetwork::IpNetwork::from_str`: it accepts exactly the
/// IPv4 or IPv6 addresses with an optional `/prefix`, deciding from the
/// string alone.
#[verifier::external_body]
fn parse_ip_network(s: &str) -> (r: bool)
    ensures
        r == ip_network_ok(s@),
{
    s.parse::<ipnetwork::IpNetwork>().is_ok()
}

/// What `is_ip_valid` accepts: a present value whose trimmed text is
/// non-empty and parses as an IP network.
pub open spec fn ip_valid(ip: Option<Seq<char>>) -> bool {
    match ip {
        Some(s) => text::trim(s).len() > 0 && ip_network_ok(text::trim(s)),
        None => false,
    }
}

/// Whether an optional address field holds a syntactically valid IP
/// network (address with optional CIDR suffix).
pub fn is_ip_valid(ip: Option<&str>) -> (r: bool)
    ensures
        r == ip_valid(
            match ip {
                Some(s) => Some(s@),
                None => None,
            },
        ),
{
    match ip {
        Some(ip_str) => {
            let chars = text::str_to_chars(ip_str);
            let trimmed = text::trim_chars(&chars);
            if trimmed.len() == 0 {
                false
            } else {
                let t = text::string_from_chars(&trimmed);
                parse_ip_network(t.as_str())
            }
        },
        None => false,
    }
}

} // verus!
