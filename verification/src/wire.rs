//! The fixed-shape request body: decimal rendering and strict decimal
//! parsing of the `"<code> <nanos>"` payload, substring detection for the
//! header terminator and the keep-alive token, and the request encoder.

use vstd::prelude::*;
use vstd::string::StringSliceAdditionalSpecFns;
use vstd::utf8::is_ascii_chars;

verus! {

// ---------------------------------------------------------------------------
// Decimal digits: spec-level rendering and value of ASCII digit sequences.
// ---------------------------------------------------------------------------

pub open spec fn is_digit(b: u8) -> bool {
    48 <= b && b <= 57
}

/// A non-empty sequence of ASCII digits.
pub open spec fn is_digits(s: Seq<u8>) -> bool {
    s.len() > 0 && forall|i: int| 0 <= i < s.len() ==> is_digit(#[trigger] s[i])
}

/// Numeric value of a digit sequence, most significant digit first.
pub open spec fn digits_val(s: Seq<u8>) -> int
    decreases s.len(),
{
    if s.len() == 0 {
        0
    } else {
        digits_val(s.drop_last()) * 10 + (s.last() - 48)
    }
}

/// The canonical decimal rendering of `n`: no sign, no leading zeros
/// (a single `'0'` for zero).
pub open spec fn dec_of(n: int) -> Seq<u8>
    decreases n,
{
    if n < 10 {
        seq![(48 + if n >= 0 { n } else { 0 }) as u8]
    } else {
        dec_of(n / 10).push((48 + n % 10) as u8)
    }
}

pub proof fn lemma_dec_of(n: int)
    requires
        n >= 0,
    ensures
        is_digits(dec_of(n)),
        digits_val(dec_of(n)) == n,
    decreases n,
{
    if n < 10 {
        let s = dec_of(n);
        assert(s =~= seq![(48 + n) as u8]);
        assert(s.drop_last() =~= Seq::<u8>::empty());
        assert((48 + n) as u8 as int == 48 + n);
        assert(digits_val(s) == digits_val(s.drop_last()) * 10 + (s.last() - 48));
        assert(digits_val(s.drop_last()) == 0);
    } else {
        lemma_dec_of(n / 10);
        let s = dec_of(n);
        assert(s.drop_last() =~= dec_of(n / 10));
        assert(s.last() == (48 + n % 10) as u8);
        assert((48 + n % 10) as u8 as int == 48 + n % 10);
        assert(digits_val(s) == digits_val(s.drop_last()) * 10 + (s.last() - 48));
        assert(digits_val(s) == (n / 10) * 10 + n % 10);
    }
}

/// Digit sequences never contain a space or a minus sign.
pub proof fn lemma_digits_no_byte(s: Seq<u8>, b: u8)
    requires
        is_digits(s),
        !is_digit(b),
    ensures
        forall|i: int| 0 <= i < s.len() ==> s[i] != b,
{
}

/// The value of a digit prefix only grows as the prefix is extended.
pub proof fn lemma_digits_val_nonneg(s: Seq<u8>)
    requires
        forall|i: int| 0 <= i < s.len() ==> is_digit(#[trigger] s[i]),
    ensures
        digits_val(s) >= 0,
    decreases s.len(),
{
    if s.len() > 0 {
        lemma_digits_val_nonneg(s.drop_last());
    }
}

pub proof fn lemma_digits_val_prefix_le(s: Seq<u8>, i: int, j: int)
    requires
        forall|k: int| 0 <= k < s.len() ==> is_digit(#[trigger] s[k]),
        0 <= i <= j <= s.len(),
    ensures
        digits_val(s.subrange(0, i)) <= digits_val(s.subrange(0, j)),
    decreases j - i,
{
    if i < j {
        lemma_digits_val_prefix_le(s, i, j - 1);
        let p = s.subrange(0, j - 1);
        let q = s.subrange(0, j);
        assert(q.drop_last() =~= p);
        assert(forall|k: int| 0 <= k < p.len() ==> is_digit(#[trigger] p[k]));
        lemma_digits_val_nonneg(p);
        assert(digits_val(q) == digits_val(p) * 10 + (q.last() - 48));
        assert(digits_val(p) * 10 >= digits_val(p));
    }
}

// ---------------------------------------------------------------------------
// Executable decimal rendering.
// ---------------------------------------------------------------------------

/// Appends the decimal rendering of `n` to `out`.
pub fn push_dec(out: &mut Vec<u8>, n: u64)
    ensures
        final(out)@ =~= old(out)@ + dec_of(n as int),
    decreases n,
{
    if n < 10 {
        out.push(48 + n as u8);
    } else {
        push_dec(out, n / 10);
        out.push(48 + (n % 10) as u8);
    }
}

/// The decimal rendering of `n` as a fresh byte vector.
pub fn u64_to_dec(n: u64) -> (r: Vec<u8>)
    ensures
        r@ =~= dec_of(n as int),
{
    let mut out: Vec<u8> = Vec::new();
    push_dec(&mut out, n);
    out
}

// ---------------------------------------------------------------------------
// Strict decimal parsing.
// ---------------------------------------------------------------------------

/// Parses the whole slice as an unsigned decimal number: every byte must be
/// a digit, the slice must be non-empty, and the value must fit in `u64`.
pub fn parse_u64(s: &[u8]) -> (r: Option<u64>)
    ensures
        r is Some <==> is_digits(s@) && digits_val(s@) <= u64::MAX as int,
        r is Some ==> r->Some_0 as int == digits_val(s@),
{
    if s.len() == 0 {
        return None;
    }
    let mut acc: u64 = 0;
    let mut i: usize = 0;
    while i < s.len()
        invariant
            0 <= i <= s@.len(),
            s@.len() > 0,
            forall|k: int| 0 <= k < i ==> is_digit(#[trigger] s@[k]),
            acc as int == digits_val(s@.subrange(0, i as int)),
        decreases s@.len() - i,
    {
        let b = s[i];
        if b < 48 || b > 57 {
            assert(!is_digits(s@));
            return None;
        }
        let d = b - 48;
        proof {
            let p = s@.subrange(0, i as int);
            let q = s@.subrange(0, i + 1);
            assert(q.drop_last() =~= p);
            assert(q.last() == s@[i as int]);
        }
        if acc > (u64::MAX - d as u64) / 10 {
            proof {
                let q = s@.subrange(0, i + 1);
                if is_digits(s@) && digits_val(s@) <= u64::MAX as int {
                    lemma_digits_val_prefix_le(s@, i + 1, s@.len() as int);
                    assert(s@.subrange(0, s@.len() as int) =~= s@);
                    assert(digits_val(q) <= digits_val(s@));
                    assert(false);
                }
            }
            return None;
        }
        acc = acc * 10 + d as u64;
        i = i + 1;
    }
    assert(s@.subrange(0, s@.len() as int) =~= s@);
    Some(acc)
}

/// Parses the whole slice as a `u16` decimal number.
pub fn parse_u16(s: &[u8]) -> (r: Option<u16>)
    ensures
        r is Some <==> is_digits(s@) && digits_val(s@) <= u16::MAX as int,
        r is Some ==> r->Some_0 as int == digits_val(s@),
{
    match parse_u64(s) {
        None => {
            proof {
                if is_digits(s@) {
                    lemma_digits_val_nonneg(s@);
                }
            }
            None
        },
        Some(v) => {
            if v <= u16::MAX as u64 {
                Some(v as u16)
            } else {
                None
            }
        },
    }
}

/// A valid signed decimal: either plain digits whose value fits in `i64`,
/// or a minus sign followed by digits whose magnitude is at most `2^63`.
pub open spec fn valid_i64(s: Seq<u8>) -> bool {
    (is_digits(s) && digits_val(s) <= i64::MAX as int) || (s.len() > 1 && s[0] == 45 && is_digits(
        s.subrange(1, s.len() as int),
    ) && digits_val(s.subrange(1, s.len() as int)) <= 0x8000000000000000)
}

pub open spec fn i64_val(s: Seq<u8>) -> int {
    if s.len() > 0 && s[0] == 45 {
        -digits_val(s.subrange(1, s.len() as int))
    } else {
        digits_val(s)
    }
}

/// Parses the whole slice as a signed decimal number fitting in `i64`.
pub fn parse_i64(s: &[u8]) -> (r: Option<i64>)
    ensures
        r is Some <==> valid_i64(s@),
        r is Some ==> r->Some_0 as int == i64_val(s@),
{
    if s.len() > 0 && s[0] == 45 {
        let rest = &s[1..s.len()];
        assert(rest@ =~= s@.subrange(1, s@.len() as int));
        match parse_u64(rest) {
            None => {
                proof {
                    if is_digits(s@) {
                        assert(is_digit(s@[0]));
                    }
                }
                None
            },
            Some(m) => {
                proof {
                    if is_digits(s@) {
                        assert(is_digit(s@[0]));
                    }
                }
                if m <= 0x8000000000000000u64 {
                    let r: i64 = if m == 0x8000000000000000u64 {
                        i64::MIN
                    } else {
                        -(m as i64)
                    };
                    Some(r)
                } else {
                    None
                }
            },
        }
    } else {
        match parse_u64(s) {
            None => {
                proof {
                    if is_digits(s@) {
                        lemma_digits_val_nonneg(s@);
                    }
                }
                None
            },
            Some(v) => {
                if v <= i64::MAX as u64 {
                    Some(v as i64)
                } else {
                    None
                }
            },
        }
    }
}

// ---------------------------------------------------------------------------
// First occurrence of a byte, and of a byte subsequence.
// ---------------------------------------------------------------------------

/// Index of the first occurrence of `b` in `s`, if any.
pub open spec fn first_idx(s: Seq<u8>, b: u8) -> Option<int>
    decreases s.len(),
{
    if s.len() == 0 {
        None
    } else if s[0] == b {
        Some(0)
    } else {
        match first_idx(s.skip(1), b) {
            Some(j) => Some(j + 1),
            None => None,
        }
    }
}

pub proof fn lemma_first_idx(s: Seq<u8>, b: u8)
    ensures
        match first_idx(s, b) {
            Some(i) => 0 <= i < s.len() && s[i] == b && forall|k: int| 0 <= k < i ==> s[k] != b,
            None => forall|k: int| 0 <= k < s.len() ==> s[k] != b,
        },
    decreases s.len(),
{
    if s.len() > 0 && s[0] != b {
        let t = s.skip(1);
        lemma_first_idx(t, b);
        assert(forall|k: int| 0 <= k < t.len() ==> #[trigger] t[k] == s[k + 1]);
        match first_idx(t, b) {
            Some(j) => {
                assert(s[j + 1] == t[j]);
                assert forall|k: int| 0 <= k < j + 1 implies s[k] != b by {
                    if k > 0 {
                        assert(s[k] == t[k - 1]);
                    }
                }
            },
            None => {
                assert forall|k: int| 0 <= k < s.len() implies s[k] != b by {
                    if k > 0 {
                        assert(s[k] == t[k - 1]);
                    }
                }
            },
        }
    }
}

/// If a prefix holds no `b` and `b` follows it, the first occurrence of `b`
/// is right after the prefix.
pub proof fn lemma_first_idx_concat(a: Seq<u8>, b: u8, c: Seq<u8>)
    requires
        forall|k: int| 0 <= k < a.len() ==> a[k] != b,
    ensures
        first_idx(a + seq![b] + c, b) == Some(a.len() as int),
    decreases a.len(),
{
    let s = a + seq![b] + c;
    if a.len() == 0 {
        assert(s[0] == b);
    } else {
        assert(s[0] == a[0]);
        lemma_first_idx_concat(a.skip(1), b, c);
        assert(s.skip(1) =~= a.skip(1) + seq![b] + c);
    }
}

/// First index of `b` in `s`, matching `first_idx`.
pub fn find_byte(s: &[u8], b: u8) -> (r: Option<usize>)
    ensures
        match r {
            Some(i) => first_idx(s@, b) == Some(i as int),
            None => first_idx(s@, b) is None,
        },
{
    proof {
        lemma_first_idx(s@, b);
    }
    let mut i: usize = 0;
    while i < s.len()
        invariant
            0 <= i <= s@.len(),
            forall|k: int| 0 <= k < i ==> s@[k] != b,
            match first_idx(s@, b) {
                Some(j) => 0 <= j < s@.len() && s@[j] == b && forall|k: int|
                    0 <= k < j ==> s@[k] != b,
                None => forall|k: int| 0 <= k < s@.len() ==> s@[k] != b,
            },
        decreases s@.len() - i,
    {
        if s[i] == b {
            return Some(i);
        }
        i = i + 1;
    }
    None
}

/// `n` occurs in `h` starting at index `i`.
pub open spec fn match_at(h: Seq<u8>, n: Seq<u8>, i: int) -> bool {
    0 <= i && i + n.len() <= h.len() && h.subrange(i, i + n.len() as int) == n
}

/// `n` occurs somewhere in `h`.
pub open spec fn contains_seq(h: Seq<u8>, n: Seq<u8>) -> bool {
    exists|i: int| match_at(h, n, i)
}

/// Index of the first occurrence of `n` in `h`, if any.
pub open spec fn first_match(h: Seq<u8>, n: Seq<u8>) -> Option<int>
    decreases h.len(),
{
    if match_at(h, n, 0) {
        Some(0)
    } else if h.len() == 0 {
        None
    } else {
        match first_match(h.skip(1), n) {
            Some(j) => Some(j + 1),
            None => None,
        }
    }
}

pub proof fn lemma_first_match(h: Seq<u8>, n: Seq<u8>)
    ensures
        match first_match(h, n) {
            Some(i) => match_at(h, n, i) && forall|k: int| 0 <= k < i ==> !match_at(h, n, k),
            None => forall|k: int| !match_at(h, n, k),
        },
    decreases h.len(),
{
    if !match_at(h, n, 0) && h.len() > 0 {
        lemma_first_match(h.skip(1), n);
        let t = h.skip(1);
        assert forall|k: int| match_at(t, n, k) implies match_at(h, n, k + 1) by {
            assert(h.subrange(k + 1, k + 1 + n.len() as int) =~= t.subrange(k, k + n.len() as int));
        }
        assert forall|k: int| match_at(h, n, k + 1) implies match_at(t, n, k) by {
            assert(t.subrange(k, k + n.len() as int) =~= h.subrange(k + 1, k + 1 + n.len() as int));
        }
        match first_match(t, n) {
            Some(j) => {
                assert(match_at(h, n, j + 1));
                assert forall|k: int| 0 <= k < j + 1 implies !match_at(h, n, k) by {
                    if k > 0 && match_at(h, n, k) {
                        assert(match_at(t, n, k - 1));
                    }
                }
            },
            None => {
                assert forall|k: int| !match_at(h, n, k) by {
                    if k > 0 && match_at(h, n, k) {
                        assert(match_at(t, n, k - 1));
                    }
                }
            },
        }
    }
}

/// First index at which `n` occurs in `h`, matching `first_match`.
pub fn find_sub(h: &[u8], n: &[u8]) -> (r: Option<usize>)
    ensures
        match r {
            Some(i) => first_match(h@, n@) == Some(i as int),
            None => first_match(h@, n@) is None,
        },
{
    proof {
        lemma_first_match(h@, n@);
    }
    if n.len() > h.len() {
        return None;
    }
    if n.len() == 0 {
        assert(h@.subrange(0, 0) =~= n@);
        return Some(0);
    }
    let last_start: usize = h.len() - n.len();
    let mut i: usize = 0;
    while i <= last_start
        invariant
            n@.len() > 0,
            n@.len() <= h@.len(),
            h@.len() <= usize::MAX,
            last_start == h@.len() - n@.len(),
            0 <= i <= last_start + 1,
            forall|k: int| 0 <= k < i ==> !match_at(h@, n@, k),
            match first_match(h@, n@) {
                Some(j) => match_at(h@, n@, j) && forall|k: int|
                    0 <= k < j ==> !match_at(h@, n@, k),
                None => forall|k: int| !match_at(h@, n@, k),
            },
        decreases last_start + 1 - i,
    {
        if match_here(h, n, i) {
            return Some(i);
        }
        i = i + 1;
    }
    assert(forall|k: int| match_at(h@, n@, k) ==> 0 <= k <= last_start);
    None
}

/// Whether `n` occurs in `h` at exactly index `i`.
fn match_here(h: &[u8], n: &[u8], i: usize) -> (r: bool)
    requires
        i + n@.len() <= h@.len(),
    ensures
        r == match_at(h@, n@, i as int),
{
    let hlen = h.len();
    let mut j: usize = 0;
    while j < n.len()
        invariant
            i + n@.len() <= h@.len(),
            h@.len() == hlen,
            0 <= j <= n@.len(),
            h@.subrange(i as int, i + j) =~= n@.subrange(0, j as int),
        decreases n@.len() - j,
    {
        if h[i + j] != n[j] {
            proof {
                let a = h@.subrange(i as int, i + n@.len() as int);
                assert(a[j as int] == h@[i + j]);
                assert(a != n@);
            }
            return false;
        }
        proof {
            assert(h@.subrange(i as int, i + j + 1).drop_last() =~= h@.subrange(i as int, i + j));
            assert(n@.subrange(0, j + 1).drop_last() =~= n@.subrange(0, j as int));
            assert(h@.subrange(i as int, i + j + 1).last() == h@[i + j]);
            assert(n@.subrange(0, j + 1).last() == n@[j as int]);
        }
        j = j + 1;
    }
    proof {
        assert(h@.subrange(i as int, i + n@.len() as int) =~= n@);
    }
    true
}

// ---------------------------------------------------------------------------
// The request body: "<code> <nanos>".
// ---------------------------------------------------------------------------

/// Why a request body could not be decoded.
#[derive(Clone, Copy, Debug, PartialEq, Eq, Structural)]
pub enum DecodeError {
    /// No space separator in the body.
    MalformedBody,
    /// The code or the timestamp half is not a valid decimal integer.
    ParseError,
}

pub open spec fn spec_body(code: u16, nanos: u64) -> Seq<u8> {
    dec_of(code as int) + seq![32u8] + dec_of(nanos as int)
}

/// Builds the request body `"<code> <nanos>"`.
pub fn encode_body(code: u16, nanos: u64) -> (r: Vec<u8>)
    ensures
        r@ =~= spec_body(code, nanos),
{
    let mut out: Vec<u8> = Vec::new();
    push_dec(&mut out, code as u64);
    out.push(32);
    push_dec(&mut out, nanos);
    out
}

/// What decoding a body yields: the first space splits the body; the left
/// half must be a decimal `u16` code, the right half a decimal `i64`
/// timestamp.
pub open spec fn spec_decode(body: Seq<u8>) -> Result<(u16, i64), DecodeError> {
    match first_idx(body, 32) {
        None => Err(DecodeError::MalformedBody),
        Some(i) => {
            let code_part = body.subrange(0, i);
            let ts_part = body.subrange(i + 1, body.len() as int);
            if is_digits(code_part) && digits_val(code_part) <= u16::MAX as int {
                if valid_i64(ts_part) {
                    Ok(((digits_val(code_part)) as u16, i64_val(ts_part) as i64))
                } else {
                    Err(DecodeError::ParseError)
                }
            } else {
                Err(DecodeError::ParseError)
            }
        },
    }
}

/// Splits the body at its first space and parses the two halves.
pub fn decode_timestamp(body: &[u8]) -> (r: Result<(u16, i64), DecodeError>)
    ensures
        r == spec_decode(body@),
{
    proof {
        lemma_first_idx(body@, 32);
    }
    let i = match find_byte(body, 32) {
        None => {
            return Err(DecodeError::MalformedBody);
        },
        Some(i) => i,
    };
    let blen = body.len();
    assert(i < blen);
    let code_part = &body[0..i];
    let ts_part = &body[i + 1..blen];
    assert(code_part@ =~= body@.subrange(0, i as int));
    assert(ts_part@ =~= body@.subrange(i + 1, body@.len() as int));
    let code = match parse_u16(code_part) {
        None => {
            return Err(DecodeError::ParseError);
        },
        Some(c) => c,
    };
    let ts = match parse_i64(ts_part) {
        None => {
            return Err(DecodeError::ParseError);
        },
        Some(t) => t,
    };
    Ok((code, ts))
}

/// Any body built by `encode_body` decodes back to exactly the code and
/// timestamp it was built from, provided the timestamp fits the signed
/// range the decoder hands out.
pub proof fn lemma_decode_encode(code: u16, nanos: u64)
    requires
        nanos <= i64::MAX as u64,
    ensures
        spec_decode(spec_body(code, nanos)) == Ok::<(u16, i64), DecodeError>((code, nanos as i64)),
{
    let a = dec_of(code as int);
    let c = dec_of(nanos as int);
    let body = spec_body(code, nanos);
    lemma_dec_of(code as int);
    lemma_dec_of(nanos as int);
    lemma_first_idx_concat(a, 32, c);
    assert(body =~= a + seq![32u8] + c);
    let i = a.len() as int;
    assert(first_idx(body, 32) == Some(i));
    assert(body.subrange(0, i) =~= a);
    assert(body.subrange(i + 1, body.len() as int) =~= c);
    assert(c[0] != 45);
    assert(i64_val(c) == digits_val(c));
}

// ---------------------------------------------------------------------------
// The full request: fixed headers, a computed Content-Length, the body.
// ---------------------------------------------------------------------------

/// Appends the bytes of `s` to `out`.
pub fn push_str_bytes(out: &mut Vec<u8>, s: &str)
    ensures
        final(out)@ =~= old(out)@ + s.spec_bytes(),
{
    let b = s.as_bytes();
    let mut k: usize = 0;
    while k < b.len()
        invariant
            b@ == s.spec_bytes(),
            0 <= k <= b@.len(),
            out@ =~= old(out)@ + b@.subrange(0, k as int),
        decreases b@.len() - k,
    {
        out.push(b[k]);
        proof {
            assert(b@.subrange(0, k + 1).drop_last() =~= b@.subrange(0, k as int));
        }
        k = k + 1;
    }
    assert(b@.subrange(0, b@.len() as int) =~= b@);
}

/// The fixed header block up to and including the Host field name.
pub open spec fn header_head() -> Seq<u8> {
    "POST /rust-http-benchmarks/ HTTP/1.1\r\nHost: ".spec_bytes()
}

/// The fixed header block between the host value and the Content-Length
/// value.
pub open spec fn header_mid() -> Seq<u8> {
    "\r\nUser-Agent: rust-http-benchmarks-client\r\nConnection: keep-alive\r\nContent-Length: ".spec_bytes()
}

/// The whole request for `host`, carrying body `"<code> <nanos>"`: fixed
/// headers declaring a Content-Length equal to the body's byte length,
/// a terminating double CRLF, then the body.
pub open spec fn spec_request(host: Seq<u8>, code: u16, nanos: u64) -> Seq<u8> {
    header_head() + host + header_mid() + dec_of(spec_body(code, nanos).len() as int) + crlfcrlf()
        + spec_body(code, nanos)
}

/// Builds the framed request that embeds `code` and the send timestamp
/// `nanos`.
pub fn encode_request(host: &str, code: u16, nanos: u64) -> (r: Vec<u8>)
    ensures
        r@ =~= spec_request(host.spec_bytes(), code, nanos),
{
    let mut body = encode_body(code, nanos);
    let mut out: Vec<u8> = Vec::new();
    push_str_bytes(&mut out, "POST /rust-http-benchmarks/ HTTP/1.1\r\nHost: ");
    push_str_bytes(&mut out, host);
    push_str_bytes(
        &mut out,
        "\r\nUser-Agent: rust-http-benchmarks-client\r\nConnection: keep-alive\r\nContent-Length: ",
    );
    push_dec(&mut out, body.len() as u64);
    out.push(13);
    out.push(10);
    out.push(13);
    out.push(10);
    out.append(&mut body);
    out
}

proof fn lemma_header_head_bytes()
    ensures
        header_head().len() == 44,
        header_head()[36] == 13,
        forall|i: int| 0 <= i < 44 && i != 36 ==> #[trigger] header_head()[i] != 13,
{
    let s = "POST /rust-http-benchmarks/ HTTP/1.1\r\nHost: ";
    reveal_strlit("POST /rust-http-benchmarks/ HTTP/1.1\r\nHost: ");
    assert(is_ascii_chars(s@)) by {
        assert(forall|i: int| 0 <= i < 44 ==> '\0' <= #[trigger] s@[i] <= '\u{7f}');
    }
    vstd::utf8::is_ascii_chars_encode_utf8(s@);
    assert(forall|i: int| 0 <= i < 44 ==> #[trigger] header_head()[i] == s@[i] as u8);
    assert(forall|i: int| 0 <= i < 44 && i != 36 ==> #[trigger] s@[i] != '\r');
}

proof fn lemma_header_mid_bytes()
    ensures
        header_mid().len() == 83,
        forall|i: int|
            0 <= i < 83 && i != 0 && i != 41 && i != 65 ==> #[trigger] header_mid()[i] != 13,
        header_mid()[2] != 13,
        header_mid()[43] != 13,
        header_mid()[67] != 13,
{
    let s =
        "\r\nUser-Agent: rust-http-benchmarks-client\r\nConnection: keep-alive\r\nContent-Length: ";
    reveal_strlit(
        "\r\nUser-Agent: rust-http-benchmarks-client\r\nConnection: keep-alive\r\nContent-Length: ",
    );
    assert(is_ascii_chars(s@)) by {
        assert(forall|i: int| 0 <= i < 83 ==> '\0' <= #[trigger] s@[i] <= '\u{7f}');
    }
    vstd::utf8::is_ascii_chars_encode_utf8(s@);
    assert(forall|i: int| 0 <= i < 83 ==> #[trigger] header_mid()[i] == s@[i] as u8);
    assert(forall|i: int|
        0 <= i < 83 && i != 0 && i != 41 && i != 65 ==> #[trigger] s@[i] != '\r');
}

/// The double CRLF that ends the header block of an encoded request is
/// the first one in the whole request, so it is also the decode boundary:
/// everything after it is exactly the body. Holds for any host that
/// contains no carriage return.
pub proof fn lemma_request_frames_body(host: Seq<u8>, code: u16, nanos: u64)
    requires
        forall|i: int| 0 <= i < host.len() ==> #[trigger] host[i] != 13,
    ensures
        spec_body_of(spec_request(host, code, nanos)) == Some(spec_body(code, nanos)),
{
    let hh = header_head();
    let hm = header_mid();
    let body = spec_body(code, nanos);
    let d = dec_of(body.len() as int);
    let t = crlfcrlf();
    lemma_header_head_bytes();
    lemma_header_mid_bytes();
    lemma_dec_of(body.len() as int);
    lemma_digits_no_byte(d, 13);
    let r = spec_request(host, code, nanos);
    assert(r == hh + host + hm + d + t + body);
    let b = 44 + host.len() as int;
    let c = b + 83;
    let p = c + d.len() as int;
    assert(r.len() == p + 4 + body.len());
    assert(forall|i: int| 0 <= i < 44 ==> #[trigger] r[i] == hh[i]);
    assert(forall|i: int| 0 <= i < host.len() ==> #[trigger] r[44 + i] == host[i]);
    assert(forall|i: int| 0 <= i < 83 ==> #[trigger] r[b + i] == hm[i]);
    assert(forall|i: int| 0 <= i < d.len() ==> #[trigger] r[c + i] == d[i]);
    assert(forall|i: int| 0 <= i < 4 ==> #[trigger] r[p + i] == t[i]);
    assert(match_at(r, t, p)) by {
        assert(r.subrange(p, p + 4) =~= t);
    }
    assert forall|k: int| 0 <= k < p implies !match_at(r, t, k) by {
        if match_at(r, t, k) {
            assert(r.subrange(k, k + 4) == t);
            assert(r.subrange(k, k + 4)[0] == r[k]);
            assert(r.subrange(k, k + 4)[2] == r[k + 2]);
            assert(r[k] == 13 && r[k + 2] == 13);
            if k < 44 {
                assert(r[k] == hh[k]);
                assert(k == 36);
                assert(r[38] == hh[38]);
                assert(false);
            } else if k < b {
                assert(r[44 + (k - 44)] == host[k - 44]);
                assert(false);
            } else if k < c {
                let j = k - b;
                assert(r[b + j] == hm[j]);
                assert(j == 0 || j == 41 || j == 65);
                assert(r[b + (j + 2)] == hm[j + 2]);
                assert(false);
            } else {
                assert(r[c + (k - c)] == d[k - c]);
                assert(false);
            }
        }
    }
    lemma_first_match(r, t);
    match first_match(r, t) {
        None => {
            assert(false);
        },
        Some(j) => {
            assert(j == p);
            assert(r.subrange(p + 4, r.len() as int) =~= body);
        },
    }
}

/// End to end: for any CR-free host and any timestamp in the signed
/// range, decoding the body framed by `spec_request` yields back exactly
/// the code and timestamp it was built from.
pub proof fn lemma_request_round_trip(host: Seq<u8>, code: u16, nanos: u64)
    requires
        forall|i: int| 0 <= i < host.len() ==> #[trigger] host[i] != 13,
        nanos <= i64::MAX as u64,
    ensures
        spec_body_of(spec_request(host, code, nanos)) == Some(spec_body(code, nanos)),
        spec_decode(spec_body(code, nanos)) == Ok::<(u16, i64), DecodeError>((code, nanos as i64)),
{
    lemma_request_frames_body(host, code, nanos);
    lemma_decode_encode(code, nanos);
}

// ---------------------------------------------------------------------------
// Response completion and keep-alive detection.
// ---------------------------------------------------------------------------

/// The header terminator: CR LF CR LF.
pub open spec fn crlfcrlf() -> Seq<u8> {
    seq![13u8, 10u8, 13u8, 10u8]
}

/// The bytes of the literal token `keep-alive`.
pub open spec fn keep_alive_token() -> Seq<u8> {
    seq![107u8, 101u8, 101u8, 112u8, 45u8, 97u8, 108u8, 105u8, 118u8, 101u8]
}

fn crlfcrlf_bytes() -> (r: Vec<u8>)
    ensures
        r@ =~= crlfcrlf(),
{
    let mut v: Vec<u8> = Vec::new();
    v.push(13);
    v.push(10);
    v.push(13);
    v.push(10);
    v
}

fn keep_alive_bytes() -> (r: Vec<u8>)
    ensures
        r@ =~= keep_alive_token(),
{
    let mut v: Vec<u8> = Vec::new();
    v.push(107);
    v.push(101);
    v.push(101);
    v.push(112);
    v.push(45);
    v.push(97);
    v.push(108);
    v.push(105);
    v.push(118);
    v.push(101);
    v
}

/// A response is complete once the header terminator has been seen anywhere
/// in the bytes received so far.
pub fn response_complete(buf: &[u8]) -> (r: bool)
    ensures
        r == contains_seq(buf@, crlfcrlf()),
{
    let needle = crlfcrlf_bytes();
    let found = find_sub(buf, needle.as_slice());
    proof {
        lemma_first_match(buf@, needle@);
    }
    found.is_some()
}

/// Keep-alive is inferred from the literal token `keep-alive` occurring
/// anywhere in the bytes received so far: a deliberate heuristic, not
/// header parsing.
pub fn keep_alive_present(buf: &[u8]) -> (r: bool)
    ensures
        r == contains_seq(buf@, keep_alive_token()),
{
    let needle = keep_alive_bytes();
    let found = find_sub(buf, needle.as_slice());
    proof {
        lemma_first_match(buf@, needle@);
    }
    found.is_some()
}

/// The body of a framed request or response: everything after the first
/// header terminator, if one is present.
pub open spec fn spec_body_of(req: Seq<u8>) -> Option<Seq<u8>> {
    match first_match(req, crlfcrlf()) {
        None => None,
        Some(i) => Some(req.subrange(i + 4, req.len() as int)),
    }
}

/// Extracts the body from a framed request: the bytes after the first
/// header terminator.
pub fn extract_body(req: &[u8]) -> (r: Option<&[u8]>)
    ensures
        match r {
            Some(b) => spec_body_of(req@) == Some(b@),
            None => spec_body_of(req@) is None,
        },
{
    let needle = crlfcrlf_bytes();
    proof {
        lemma_first_match(req@, needle@);
    }
    match find_sub(req, needle.as_slice()) {
        None => None,
        Some(i) => {
            let rlen = req.len();
            assert(i + 4 <= rlen);
            let b = &req[i + 4..rlen];
            assert(b@ =~= req@.subrange(i + 4, req@.len() as int));
            Some(b)
        },
    }
}

} // verus!
