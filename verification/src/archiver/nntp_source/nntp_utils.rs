//! Helpers shared by everything that talks to an NNTP server.
use vstd::prelude::*;
use crate::text::{decimal, decimal_string, push_char, push_str};

verus! {

/// `hostname:port`, or the bare hostname when no port is given (the NNTP
/// library then picks 119 for plain text or 563 for TLS).
pub open spec fn spec_server_address(hostname: Seq<char>, port: Option<u16>) -> Seq<char> {
    match port {
        Some(p) => hostname + seq![':'] + decimal(p as nat),
        None => hostname,
    }
}

/// Formats the server address with or without the port.
pub fn server_address(hostname: &str, port: Option<u16>) -> (r: String)
    ensures
        r@ == spec_server_address(hostname@, port),
{
    let mut r = String::new();
    push_str(&mut r, hostname);
    match port {
        Some(p) => {
            push_char(&mut r, ':');
            let digits = decimal_string(p as u64);
            push_str(&mut r, digits.as_str());
            proof {
                assert(r@ =~= hostname@ + seq![':'] + decimal(p as nat));
            }
        },
        None => {
            proof {
                assert(r@ =~= hostname@);
            }
        },
    }
    r
}

} // verus!
