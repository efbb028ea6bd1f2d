//! The credentials of a generated client and the header that they put on
//! every request.
use vstd::prelude::*;
use vstd::string::StringExecFns;
use vstd::string::StringSliceAdditionalSpecFns;
use vstd::utf8::encode_utf8;

use crate::input::AuthStrategy;

verus! {

/// The credentials a generated client holds, one form per auth strategy.
#[derive(Debug)]
pub enum ClientAuth {
    Bearer { token: String },
    Basic { username: String, password: String },
    /// `header` is the name given by `ApiKey("...")`.
    ApiKey { header: String, key: String },
}

/// The strategy that a set of credentials belongs to.
pub open spec fn matches_strategy(auth: ClientAuth, strategy: AuthStrategy) -> bool {
    match (auth, strategy) {
        (ClientAuth::Bearer { .. }, AuthStrategy::Bearer) => true,
        (ClientAuth::Basic { .. }, AuthStrategy::Basic) => true,
        (ClientAuth::ApiKey { header, .. }, AuthStrategy::ApiKey(h)) => header@ == h@,
        _ => false,
    }
}

/// A character of the standard base64 alphabet (for `0 <= n < 64`).
pub open spec fn base64_char(n: int) -> char {
    if n < 26 {
        (65 + n) as char
    } else if n < 52 {
        (71 + n) as char
    } else if n < 62 {
        (n - 4) as char
    } else if n == 62 {
        '+'
    } else {
        '/'
    }
}

/// The four characters of a group of three bytes packed into `n`.
pub open spec fn base64_quad(n: int) -> Seq<char> {
    seq![
        base64_char(n / 262144),
        base64_char((n / 4096) % 64),
        base64_char((n / 64) % 64),
        base64_char(n % 64),
    ]
}

/// Standard base64 with `=` padding (RFC 4648).
pub open spec fn base64_spec(b: Seq<u8>) -> Seq<char>
    decreases b.len(),
{
    if b.len() == 0 {
        seq![]
    } else if b.len() == 1 {
        let n = b[0] * 65536;
        seq![base64_char(n / 262144), base64_char((n / 4096) % 64), '=', '=']
    } else if b.len() == 2 {
        let n = b[0] * 65536 + b[1] * 256;
        seq![base64_char(n / 262144), base64_char((n / 4096) % 64), base64_char((n / 64) % 64), '=']
    } else {
        base64_quad(b[0] * 65536 + b[1] * 256 + b[2]) + base64_spec(b.subrange(3, b.len() as int))
    }
}

fn b64(n: u32) -> (c: char)
    requires
        n < 64,
    ensures
        c == base64_char(n as int),
{
    if n < 26 {
        ((65 + n) as u8) as char
    } else if n < 52 {
        ((71 + n) as u8) as char
    } else if n < 62 {
        ((n - 4) as u8) as char
    } else if n == 62 {
        '+'
    } else {
        '/'
    }
}

/// Base64-encodes bytes.
pub fn base64_encode(bytes: &[u8]) -> (res: String)
    ensures
        res@ == base64_spec(bytes@),
{
    let len = bytes.len();
    let mut out = String::new();
    let mut i: usize = 0;
    proof {
        assert(bytes@.subrange(0, len as int) =~= bytes@);
    }
    while len - i >= 3
        invariant
            len == bytes@.len(),
            i <= len,
            out@ + base64_spec(bytes@.subrange(i as int, len as int)) == base64_spec(bytes@),
        decreases len - i,
    {
        let n: u32 = (bytes[i] as u32) * 65536 + (bytes[i + 1] as u32) * 256 + (bytes[i + 2] as u32);
        let ghost rest = bytes@.subrange(i as int, len as int);
        proof {
            assert(rest.subrange(3, rest.len() as int) =~= bytes@.subrange(i + 3, len as int));
            assert(base64_spec(rest) == base64_quad(n as int) + base64_spec(
                bytes@.subrange(i + 3, len as int),
            ));
        }
        out.push(b64(n / 262144));
        out.push(b64((n / 4096) % 64));
        out.push(b64((n / 64) % 64));
        out.push(b64(n % 64));
        proof {
            assert(out@ + base64_spec(bytes@.subrange(i + 3, len as int)) =~= base64_spec(bytes@));
        }
        i = i + 3;
    }
    let ghost rest = bytes@.subrange(i as int, len as int);
    let ghost before = out@;
    if len - i == 1 {
        let n: u32 = (bytes[i] as u32) * 65536;
        out.push(b64(n / 262144));
        out.push(b64((n / 4096) % 64));
        out.push('=');
        out.push('=');
        proof {
            assert(out@ =~= before + base64_spec(rest));
        }
    } else if len - i == 2 {
        let n: u32 = (bytes[i] as u32) * 65536 + (bytes[i + 1] as u32) * 256;
        out.push(b64(n / 262144));
        out.push(b64((n / 4096) % 64));
        out.push(b64((n / 64) % 64));
        out.push('=');
        proof {
            assert(out@ =~= before + base64_spec(rest));
        }
    } else {
        proof {
            assert(rest.len() == 0);
            assert(out@ =~= before + base64_spec(rest));
        }
    }
    out
}

/// The header that a set of credentials puts on every request: its name and value.
pub open spec fn auth_header_spec(auth: ClientAuth) -> (Seq<char>, Seq<char>) {
    match auth {
        ClientAuth::Bearer { token } => ("Authorization"@, "Bearer "@ + token@),
        ClientAuth::Basic { username, password } => (
            "Authorization"@,
            "Basic "@ + base64_spec(encode_utf8(username@ + ":"@ + password@)),
        ),
        ClientAuth::ApiKey { header, key } => (header@, key@),
    }
}

/// The auth header of a request: `Authorization: Bearer <token>`,
/// `Authorization: Basic <base64 of user:password>`, or `<header>: <key>` for an
/// API key; none without credentials.
pub fn auth_header(auth: &Option<ClientAuth>) -> (res: Option<(String, String)>)
    ensures
        *auth is None ==> res is None,
        *auth matches Some(a) ==> res matches Some(h) && (h.0@, h.1@) == auth_header_spec(a),
{
    match auth {
        None => None,
        Some(ClientAuth::Bearer { token }) => Some(
            (String::from_str("Authorization"), String::from_str("Bearer ").concat(token.as_str())),
        ),
        Some(ClientAuth::Basic { username, password }) => {
            let joined = username.clone().concat(":").concat(password.as_str());
            let bytes = joined.as_str().as_bytes();
            let encoded = base64_encode(bytes);
            Some(
                (
                    String::from_str("Authorization"),
                    String::from_str("Basic ").concat(encoded.as_str()),
                ),
            )
        },
        Some(ClientAuth::ApiKey { header, key }) => Some((header.clone(), key.clone())),
    }
}

/// The 6-bit value of a base64 character (`=` counts as 0).
pub open spec fn base64_value(c: char) -> int {
    if 'A' <= c <= 'Z' {
        c as int - 65
    } else if 'a' <= c <= 'z' {
        c as int - 71
    } else if '0' <= c <= '9' {
        c as int + 4
    } else if c == '+' {
        62
    } else if c == '/' {
        63
    } else {
        0
    }
}

/// Base64 decoding of groups of four characters, `=` marking missing bytes.
pub open spec fn base64_decode_spec(s: Seq<char>) -> Seq<u8>
    decreases s.len(),
{
    if s.len() < 4 {
        seq![]
    } else {
        let n = base64_value(s[0]) * 262144 + base64_value(s[1]) * 4096 + base64_value(s[2]) * 64
            + base64_value(s[3]);
        let group = if s[2] == '=' {
            seq![(n / 65536) as u8]
        } else if s[3] == '=' {
            seq![(n / 65536) as u8, ((n / 256) % 256) as u8]
        } else {
            seq![(n / 65536) as u8, ((n / 256) % 256) as u8, (n % 256) as u8]
        };
        group + base64_decode_spec(s.subrange(4, s.len() as int))
    }
}

proof fn lemma_base64_char_value(x: int)
    requires
        0 <= x < 64,
    ensures
        base64_value(base64_char(x)) == x,
        base64_char(x) != '=',
{
}

proof fn lemma_split_24(n: int)
    requires
        0 <= n < 16777216,
    ensures
        0 <= n / 262144 < 64,
        (n / 262144) * 262144 + ((n / 4096) % 64) * 4096 + ((n / 64) % 64) * 64 + n % 64 == n,
{
    assert(0 <= n / 262144 < 64) by (nonlinear_arith)
        requires
            0 <= n < 16777216,
    ;
    assert((n / 262144) * 262144 + ((n / 4096) % 64) * 4096 + ((n / 64) % 64) * 64 + n % 64 == n)
        by (nonlinear_arith)
        requires
            0 <= n,
    ;
}

proof fn lemma_bytes_24(b0: int, b1: int, b2: int)
    requires
        0 <= b0 < 256,
        0 <= b1 < 256,
        0 <= b2 < 256,
    ensures
        (b0 * 65536 + b1 * 256 + b2) / 65536 == b0,
        ((b0 * 65536 + b1 * 256 + b2) / 256) % 256 == b1,
        (b0 * 65536 + b1 * 256 + b2) % 256 == b2,
        (b0 * 65536 + b1 * 256) % 64 == 0,
        (b0 * 65536) % 4096 == 0,
        ((b0 * 65536) / 64) % 64 == 0,
{
    assert((b0 * 65536 + b1 * 256 + b2) / 65536 == b0) by (nonlinear_arith)
        requires
            0 <= b0 < 256,
            0 <= b1 < 256,
            0 <= b2 < 256,
    ;
    assert(((b0 * 65536 + b1 * 256 + b2) / 256) % 256 == b1) by (nonlinear_arith)
        requires
            0 <= b0 < 256,
            0 <= b1 < 256,
            0 <= b2 < 256,
    ;
    assert((b0 * 65536 + b1 * 256 + b2) % 256 == b2) by (nonlinear_arith)
        requires
            0 <= b0 < 256,
            0 <= b1 < 256,
            0 <= b2 < 256,
    ;
    assert((b0 * 65536 + b1 * 256) % 64 == 0) by (nonlinear_arith)
        requires
            0 <= b0 < 256,
            0 <= b1 < 256,
    ;
    assert((b0 * 65536) % 4096 == 0) by (nonlinear_arith)
        requires
            0 <= b0 < 256,
    ;
    assert(((b0 * 65536) / 64) % 64 == 0) by (nonlinear_arith)
        requires
            0 <= b0 < 256,
    ;
}

proof fn lemma_round_trip_one(b0: u8)
    ensures
        base64_decode_spec(base64_spec(seq![b0])) == seq![b0],
{
    let b = seq![b0];
    let n = b0 * 65536;
    lemma_bytes_24(b0 as int, 0, 0);
    lemma_split_24(n);
    let x0 = n / 262144;
    let x1 = (n / 4096) % 64;
    lemma_base64_char_value(x0);
    lemma_base64_char_value(x1);
    let e = base64_spec(b);
    assert(e == seq![base64_char(x0), base64_char(x1), '=', '=']);
    assert(base64_value('=') == 0);
    let m = base64_value(e[0]) * 262144 + base64_value(e[1]) * 4096 + base64_value(e[2]) * 64
        + base64_value(e[3]);
    assert(m == x0 * 262144 + x1 * 4096);
    assert(m == n);
    assert(e.subrange(4, e.len() as int) =~= Seq::<char>::empty());
    assert(base64_decode_spec(Seq::<char>::empty()) == Seq::<u8>::empty());
    assert(base64_decode_spec(e) =~= seq![(m / 65536) as u8]);
}

proof fn lemma_round_trip_two(b0: u8, b1: u8)
    ensures
        base64_decode_spec(base64_spec(seq![b0, b1])) == seq![b0, b1],
{
    let b = seq![b0, b1];
    let n = b0 * 65536 + b1 * 256;
    lemma_bytes_24(b0 as int, b1 as int, 0);
    lemma_split_24(n);
    let x0 = n / 262144;
    let x1 = (n / 4096) % 64;
    let x2 = (n / 64) % 64;
    lemma_base64_char_value(x0);
    lemma_base64_char_value(x1);
    lemma_base64_char_value(x2);
    let e = base64_spec(b);
    assert(e == seq![base64_char(x0), base64_char(x1), base64_char(x2), '=']);
    assert(base64_value('=') == 0);
    let m = base64_value(e[0]) * 262144 + base64_value(e[1]) * 4096 + base64_value(e[2]) * 64
        + base64_value(e[3]);
    assert(m == x0 * 262144 + x1 * 4096 + x2 * 64);
    assert(m == n);
    assert(e.subrange(4, e.len() as int) =~= Seq::<char>::empty());
    assert(base64_decode_spec(Seq::<char>::empty()) == Seq::<u8>::empty());
    assert(base64_decode_spec(e) =~= seq![(m / 65536) as u8, ((m / 256) % 256) as u8]);
}

proof fn lemma_round_trip_quad(b0: u8, b1: u8, b2: u8, r: Seq<char>)
    ensures
        base64_decode_spec(base64_quad(b0 * 65536 + b1 * 256 + b2) + r) == seq![b0, b1, b2]
            + base64_decode_spec(r),
{
    let n = b0 * 65536 + b1 * 256 + b2;
    lemma_bytes_24(b0 as int, b1 as int, b2 as int);
    lemma_split_24(n);
    let x0 = n / 262144;
    let x1 = (n / 4096) % 64;
    let x2 = (n / 64) % 64;
    let x3 = n % 64;
    lemma_base64_char_value(x0);
    lemma_base64_char_value(x1);
    lemma_base64_char_value(x2);
    lemma_base64_char_value(x3);
    let e = base64_quad(n) + r;
    assert(e[0] == base64_char(x0) && e[1] == base64_char(x1) && e[2] == base64_char(x2) && e[3]
        == base64_char(x3));
    let m = base64_value(e[0]) * 262144 + base64_value(e[1]) * 4096 + base64_value(e[2]) * 64
        + base64_value(e[3]);
    assert(m == n);
    assert(e.subrange(4, e.len() as int) =~= r);
    assert(base64_decode_spec(e) =~= seq![(m / 65536) as u8, ((m / 256) % 256) as u8, (m % 256) as u8]
        + base64_decode_spec(r));
}

/// Base64 decoding gives back the encoded bytes, so the encoding loses nothing
/// and uses the standard alphabet in its standard order.
pub proof fn lemma_base64_round_trip(b: Seq<u8>)
    ensures
        base64_decode_spec(base64_spec(b)) == b,
    decreases b.len(),
{
    if b.len() == 0 {
    } else if b.len() == 1 {
        assert(b =~= seq![b[0]]);
        lemma_round_trip_one(b[0]);
    } else if b.len() == 2 {
        assert(b =~= seq![b[0], b[1]]);
        lemma_round_trip_two(b[0], b[1]);
    } else {
        let rest = b.subrange(3, b.len() as int);
        lemma_base64_round_trip(rest);
        lemma_round_trip_quad(b[0], b[1], b[2], base64_spec(rest));
        assert(b =~= seq![b[0], b[1], b[2]] + rest);
    }
}

} // verus!
