//! End-to-end request/response latency measurement over raw TCP and TLS:
//! a load-generating client engine that frames requests embedding a send
//! timestamp and a client-type code, and a latency-recording server core
//! that decodes the timestamp on arrival, accumulates elapsed times into
//! per-client-type histograms, and periodically retires them to a writer.
//!
//! The crate holds the verified core: the wire format (`wire`), the
//! client protocol state machine (`engine`), the per-tag histogram log
//! (`hist`), and the server-side recorder (`recorder`). Sockets, TLS,
//! clocks, files and threads live with the caller, which drives these
//! pieces with plain values.

use vstd::prelude::*;

pub mod engine;
pub mod hist;
pub mod recorder;
pub mod wire;

verus! {

/// Spec-level mirror of the client-type registry: the tag (as its byte
/// sequence) that a client-type code stands for, if any.
pub open spec fn spec_client_tag(n: u16) -> Option<&'static str> {
    match n {
        0u16 => Some("test"),
        1u16 => Some("loop_rw"),
        2u16 => Some("hyper-tls"),
        3u16 => Some("chttp-openssl-none"),
        4u16 => Some("chttp-wolfssl-none"),
        5u16 => Some("chttp-wolfssl-DES-CBC3-SHA"),
        6u16 => Some("chttp-wolfssl-AES128-SHA"),
        7u16 => Some("chttp-wolfssl-AES256-SHA"),
        8u16 => Some("chttp-wolfssl-ECDHE-RSA-AES128-SHA"),
        9u16 => Some("chttp-wolfssl-ECDHE-RSA-AES128-SHA"),
        10u16 => Some("hyper-http-via-stunnel"),
        11u16 => Some("raw-tcp"),
        12u16 => Some("raw tcp+tls[openssl]"),
        _ => None,
    }
}

/// Maps integer codes to `&'static str` descriptions.
pub fn client_tag(n: u16) -> (r: Option<&'static str>)
    ensures
        r == spec_client_tag(n),
{
    match n {
        0 => Some("test"),
        1 => Some("loop_rw"),
        2 => Some("hyper-tls"),
        3 => Some("chttp-openssl-none"),
        4 => Some("chttp-wolfssl-none"),
        5 => Some("chttp-wolfssl-DES-CBC3-SHA"),
        6 => Some("chttp-wolfssl-AES128-SHA"),
        7 => Some("chttp-wolfssl-AES256-SHA"),
        8 => Some("chttp-wolfssl-ECDHE-RSA-AES128-SHA"),
        9 => Some("chttp-wolfssl-ECDHE-RSA-AES128-SHA"),
        10 => Some("hyper-http-via-stunnel"),
        11 => Some("raw-tcp"),
        12 => Some("raw tcp+tls[openssl]"),
        _ => None,
    }
}

/// What `validate_uint` accepts, over the string's bytes: an unsigned
/// decimal number, optionally preceded by a plus sign, whose value fits
/// in `u64`.
pub open spec fn valid_uint_bytes(b: Seq<u8>) -> bool {
    (wire::is_digits(b) && wire::digits_val(b) <= u64::MAX as int) || (b.len() > 1 && b[0] == 43
        && wire::is_digits(b.subrange(1, b.len() as int)) && wire::digits_val(
        b.subrange(1, b.len() as int),
    ) <= u64::MAX as int)
}

/// Checks that `s` spells an unsigned 64-bit integer.
pub fn validate_uint(s: String) -> (r: Result<(), String>)
    ensures
        r is Ok <==> valid_uint_bytes(vstd::utf8::encode_utf8(s@)),
{
    let b = s.as_str().as_bytes();
    let ok: bool = if b.len() > 0 && b[0] == 43 {
        let rest = &b[1..b.len()];
        assert(rest@ =~= b@.subrange(1, b@.len() as int));
        let r = wire::parse_u64(rest).is_some();
        proof {
            if wire::is_digits(b@) {
                assert(wire::is_digit(b@[0]));
            }
        }
        r
    } else {
        wire::parse_u64(b).is_some()
    };
    if ok {
        Ok(())
    } else {
        Err(String::from_str("invalid digit found in string (expected integer)"))
    }
}

} // verus!
