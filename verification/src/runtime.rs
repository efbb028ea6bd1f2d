//! Behaviour of the helpers that a generated client runs.
use vstd::prelude::*;
use vstd::string::StrSliceExecFns;
use vstd::string::StringExecFns;
use vstd::string::StringSliceAdditionalSpecFns;
use vstd::utf8::encode_utf8;

use crate::expanders::method::{is_param_segment, param_name};

verus! {

/// A byte of the RFC 3986 unreserved set: `A-Z a-z 0-9 - _ . ~`.
pub open spec fn is_unreserved(b: u8) -> bool {
    ||| 65 <= b <= 90
    ||| 97 <= b <= 122
    ||| 48 <= b <= 57
    ||| b == 45
    ||| b == 95
    ||| b == 46
    ||| b == 126
}

/// A character of the RFC 3986 unreserved set.
pub open spec fn is_unreserved_char(c: char) -> bool {
    ||| 'A' <= c <= 'Z'
    ||| 'a' <= c <= 'z'
    ||| '0' <= c <= '9'
    ||| c == '-'
    ||| c == '_'
    ||| c == '.'
    ||| c == '~'
}

/// The upper-case hexadecimal digit of `n` (for `0 <= n < 16`).
pub open spec fn hex_upper(n: int) -> char {
    if n < 10 {
        (48 + n) as char
    } else {
        (55 + n) as char
    }
}

/// How one byte of a path-parameter value appears in the URL path: an unreserved
/// byte stands for itself, any other byte becomes `%` and two upper-case hex digits.
pub open spec fn encode_byte(b: u8) -> Seq<char> {
    if is_unreserved(b) {
        seq![b as char]
    } else {
        seq!['%', hex_upper(b as int / 16), hex_upper(b as int % 16)]
    }
}

/// The percent-encoding of a path-parameter value, byte by byte.
pub open spec fn encode_segment_spec(bytes: Seq<u8>) -> Seq<char>
    decreases bytes.len(),
{
    if bytes.len() == 0 {
        seq![]
    } else {
        encode_byte(bytes[0]) + encode_segment_spec(bytes.drop_first())
    }
}

proof fn lemma_encode_push(a: Seq<u8>, b: u8)
    ensures
        encode_segment_spec(a.push(b)) == encode_segment_spec(a) + encode_byte(b),
    decreases a.len(),
{
    if a.len() == 0 {
        assert(a.push(b).drop_first() =~= Seq::<u8>::empty());
        assert(a.push(b)[0] == b);
        assert(encode_segment_spec(Seq::<u8>::empty()) == Seq::<char>::empty());
        assert(encode_segment_spec(a.push(b)) =~= encode_byte(b));
    } else {
        assert(a.push(b).drop_first() =~= a.drop_first().push(b));
        lemma_encode_push(a.drop_first(), b);
        assert(encode_segment_spec(a.push(b)) =~= encode_segment_spec(a) + encode_byte(b));
    }
}

/// A character that may stand inside an encoded path segment.
pub open spec fn is_segment_char(c: char) -> bool {
    is_unreserved_char(c) || c == '%'
}

proof fn lemma_encode_byte_safe(b: u8)
    ensures
        forall|i: int| 0 <= i < encode_byte(b).len() ==> #[trigger] is_segment_char(encode_byte(b)[i]),
        encode_byte(b).len() >= 1,
{
}

/// Every character of an encoded segment is unreserved or `%`: the encoding holds
/// no `/`, `?` or `#`, so a value can never leave its URL path segment.
pub proof fn lemma_encoded_segment_is_safe(bytes: Seq<u8>)
    ensures
        forall|i: int|
            0 <= i < encode_segment_spec(bytes).len() ==> #[trigger] is_segment_char(
                encode_segment_spec(bytes)[i],
            ),
    decreases bytes.len(),
{
    if bytes.len() > 0 {
        lemma_encode_byte_safe(bytes[0]);
        lemma_encoded_segment_is_safe(bytes.drop_first());
        let e = encode_byte(bytes[0]);
        let r = encode_segment_spec(bytes.drop_first());
        assert forall|i: int| 0 <= i < (e + r).len() implies #[trigger] is_segment_char((e + r)[i]) by {
            if i < e.len() {
                assert((e + r)[i] == e[i]);
            } else {
                assert((e + r)[i] == r[i - e.len()]);
            }
        }
    }
}

/// Two values with the same encoding are the same value: the encoding loses nothing.
pub proof fn lemma_encode_segment_injective(a: Seq<u8>, b: Seq<u8>)
    requires
        encode_segment_spec(a) == encode_segment_spec(b),
    ensures
        a == b,
    decreases a.len(),
{
    if a.len() == 0 {
        if b.len() > 0 {
            lemma_encode_byte_safe(b[0]);
        }
        assert(b.len() == 0);
        assert(a =~= b);
    } else {
        lemma_encode_byte_safe(a[0]);
        if b.len() == 0 {
            assert(encode_segment_spec(a).len() >= 1);
            assert(encode_segment_spec(b).len() == 0);
            assert(false);
        }
        lemma_encode_byte_safe(b[0]);
        let ea = encode_byte(a[0]);
        let eb = encode_byte(b[0]);
        let ra = encode_segment_spec(a.drop_first());
        let rb = encode_segment_spec(b.drop_first());
        assert((ea + ra)[0] == ea[0]);
        assert((eb + rb)[0] == eb[0]);
        assert(ea[0] == eb[0]);
        if is_unreserved(a[0]) {
            assert(is_unreserved(b[0]));
            assert(a[0] == b[0]);
        } else {
            assert(!is_unreserved(b[0]));
            assert((ea + ra)[1] == ea[1]);
            assert((eb + rb)[1] == eb[1]);
            assert((ea + ra)[2] == ea[2]);
            assert((eb + rb)[2] == eb[2]);
            assert(a[0] as int / 16 == b[0] as int / 16);
            assert(a[0] as int % 16 == b[0] as int % 16);
            assert(a[0] == b[0]);
        }
        assert(ea == eb);
        assert(ra =~= (ea + ra).subrange(ea.len() as int, (ea + ra).len() as int));
        assert(rb =~= (eb + rb).subrange(eb.len() as int, (eb + rb).len() as int));
        lemma_encode_segment_injective(a.drop_first(), b.drop_first());
        assert(a =~= seq![a[0]] + a.drop_first());
        assert(b =~= seq![b[0]] + b.drop_first());
    }
}

/// The value of an upper-case hexadecimal digit.
pub open spec fn hex_value(c: char) -> int {
    if '0' <= c <= '9' {
        c as int - 48
    } else {
        c as int - 55
    }
}

/// Percent-decoding: `%` and two hex digits stand for one byte, any other
/// character for the byte of its code.
pub open spec fn decode_segment_spec(s: Seq<char>) -> Seq<u8>
    decreases s.len(),
{
    if s.len() == 0 {
        seq![]
    } else if s[0] == '%' && s.len() >= 3 {
        seq![(hex_value(s[1]) * 16 + hex_value(s[2])) as u8] + decode_segment_spec(
            s.subrange(3, s.len() as int),
        )
    } else {
        seq![s[0] as u8] + decode_segment_spec(s.drop_first())
    }
}

/// Decoding an encoded segment gives back the bytes of the value.
pub proof fn lemma_decode_encode_round_trip(bytes: Seq<u8>)
    ensures
        decode_segment_spec(encode_segment_spec(bytes)) == bytes,
    decreases bytes.len(),
{
    if bytes.len() > 0 {
        let b = bytes[0];
        let e = encode_byte(b);
        let r = encode_segment_spec(bytes.drop_first());
        lemma_decode_encode_round_trip(bytes.drop_first());
        assert(encode_segment_spec(bytes) == e + r);
        if is_unreserved(b) {
            assert((e + r)[0] == b as char);
            assert((e + r).drop_first() =~= r);
            assert((b as char) as u8 == b);
        } else {
            assert((e + r)[0] == '%');
            assert((e + r)[1] == hex_upper(b as int / 16));
            assert((e + r)[2] == hex_upper(b as int % 16));
            assert(hex_value(hex_upper(b as int / 16)) == b as int / 16);
            assert(hex_value(hex_upper(b as int % 16)) == b as int % 16);
            assert((e + r).subrange(3, (e + r).len() as int) =~= r);
        }
        assert(bytes =~= seq![b] + bytes.drop_first());
    }
}

fn hex_digit(n: u8) -> (c: char)
    requires
        n < 16,
    ensures
        c == hex_upper(n as int),
{
    if n < 10 {
        (48u8 + n) as char
    } else {
        (55u8 + n) as char
    }
}

/// Percent-encodes a path-parameter value so that it stays inside one URL path
/// segment: every byte outside the unreserved set `A-Z a-z 0-9 - _ . ~` becomes
/// `%XX` with upper-case hex digits (`1/2` becomes `1%2F2`).
pub fn encode_segment(s: &str) -> (res: String)
    ensures
        res@ == encode_segment_spec(s.spec_bytes()),
        forall|i: int| 0 <= i < res@.len() ==> #[trigger] is_segment_char(res@[i]),
{
    let bytes = s.as_bytes();
    let mut out = String::new();
    let mut i: usize = 0;
    while i < bytes.len()
        invariant
            i <= bytes@.len(),
            bytes@ == s.spec_bytes(),
            out@ == encode_segment_spec(bytes@.take(i as int)),
        decreases bytes@.len() - i,
    {
        let b = bytes[i];
        let unreserved = (b >= 65 && b <= 90) || (b >= 97 && b <= 122) || (b >= 48 && b <= 57)
            || b == 45 || b == 95 || b == 46 || b == 126;
        if unreserved {
            out.push(b as char);
        } else {
            assert(b >> 4 == b / 16 && b & 0x0f == b % 16) by (bit_vector);
            out.push('%');
            out.push(hex_digit(b >> 4));
            out.push(hex_digit(b & 0x0f));
        }
        proof {
            lemma_encode_push(bytes@.take(i as int), b);
            assert(bytes@.take(i + 1) =~= bytes@.take(i as int).push(b));
        }
        i += 1;
    }
    proof {
        assert(bytes@.take(i as int) =~= bytes@);
        lemma_encoded_segment_is_safe(bytes@);
    }
    out
}

/// Milliseconds that a request may take when the caller gives no timeout.
pub const DEFAULT_TIMEOUT_MS: u64 = 5000;

/// The request timeout of a generated client, in milliseconds: the one the caller
/// gave, else five seconds.
pub fn timeout_millis(timeout: Option<u64>) -> (ms: u64)
    ensures
        ms == match timeout {
            Some(t) => t,
            None => DEFAULT_TIMEOUT_MS,
        },
{
    match timeout {
        Some(t) => t,
        None => DEFAULT_TIMEOUT_MS,
    }
}

/// Delay before the first retry, in milliseconds.
pub const BACKOFF_BASE_MS: u64 = 100;

/// Largest delay between two attempts, in milliseconds.
pub const BACKOFF_CAP_MS: u64 = 5000;

pub open spec fn pow2(n: nat) -> nat
    decreases n,
{
    if n == 0 {
        1
    } else {
        2 * pow2((n - 1) as nat)
    }
}

/// The delay before retry number `retry` (counted from 0): 100 ms doubled at each
/// retry, never more than 5 s.
pub open spec fn backoff_delay_spec(retry: nat) -> nat {
    let d: nat = (BACKOFF_BASE_MS * pow2(retry)) as nat;
    if d < BACKOFF_CAP_MS {
        d
    } else {
        BACKOFF_CAP_MS as nat
    }
}

proof fn lemma_pow2_monotone(i: nat, j: nat)
    requires
        i <= j,
    ensures
        pow2(i) <= pow2(j),
        pow2(i) >= 1,
    decreases j,
{
    if j > i {
        lemma_pow2_monotone(i, (j - 1) as nat);
    } else if i > 0 {
        lemma_pow2_monotone((i - 1) as nat, (i - 1) as nat);
    }
}

/// Exponential backoff: the delay before retry number `retry` (counted from 0).
pub fn backoff_delay_ms(retry: u32) -> (ms: u64)
    ensures
        ms == backoff_delay_spec(retry as nat),
{
    let mut delay: u64 = BACKOFF_BASE_MS;
    let mut k: u32 = 0;
    while k < retry && delay < BACKOFF_CAP_MS
        invariant
            k <= retry,
            delay == BACKOFF_BASE_MS * pow2(k as nat),
            delay < 2 * BACKOFF_CAP_MS,
        decreases retry - k,
    {
        delay = delay * 2;
        k = k + 1;
    }
    proof {
        lemma_pow2_monotone(k as nat, retry as nat);
        if k < retry {
            assert(BACKOFF_BASE_MS * pow2(k as nat) <= BACKOFF_BASE_MS * pow2(retry as nat))
                by (nonlinear_arith)
                requires
                    pow2(k as nat) <= pow2(retry as nat),
            ;
        }
    }
    if delay < BACKOFF_CAP_MS {
        delay
    } else {
        BACKOFF_CAP_MS
    }
}

/// The delay never exceeds the 5 s cap and never shrinks from one retry to the next.
pub proof fn lemma_backoff_bounded_and_monotone(i: nat, j: nat)
    requires
        i <= j,
    ensures
        backoff_delay_spec(i) <= BACKOFF_CAP_MS,
        backoff_delay_spec(i) >= BACKOFF_BASE_MS,
        backoff_delay_spec(i) <= backoff_delay_spec(j),
{
    lemma_pow2_monotone(i, j);
    assert(BACKOFF_BASE_MS * pow2(i) <= BACKOFF_BASE_MS * pow2(j)) by (nonlinear_arith)
        requires
            pow2(i) <= pow2(j),
    ;
    assert(BACKOFF_BASE_MS * pow2(i) >= BACKOFF_BASE_MS) by (nonlinear_arith)
        requires
            pow2(i) >= 1,
    ;
}

/// What one attempt of a request came to.
#[derive(Debug, Clone, Copy, PartialEq, Eq, Structural)]
pub enum AttemptOutcome {
    /// The server answered with a 2xx status.
    Success,
    /// The server answered with this non-2xx status.
    HttpError(u16),
    /// The request timed out.
    Timeout,
    /// Any other failure (connection, request building, decoding).
    OtherError,
}

/// What the client does after an attempt.
#[derive(Debug, Clone, Copy, PartialEq, Eq, Structural)]
pub enum RetryStep {
    /// Hand the outcome to the caller.
    Finish,
    /// Wait this many milliseconds, then send the request again.
    RetryAfter(u64),
}

/// Retries are made on 5xx answers and on timeouts, never on 4xx answers.
pub open spec fn is_retryable(outcome: AttemptOutcome) -> bool {
    match outcome {
        AttemptOutcome::HttpError(status) => 500 <= status <= 599,
        AttemptOutcome::Timeout => true,
        _ => false,
    }
}

/// The step that follows an attempt, for a request that has `retry_count` retries
/// and has already been retried `retries_done` times.
pub open spec fn next_step_spec(retries_done: nat, retry_count: nat, outcome: AttemptOutcome) -> RetryStep {
    if is_retryable(outcome) && retries_done < retry_count {
        RetryStep::RetryAfter(backoff_delay_spec(retries_done) as u64)
    } else {
        RetryStep::Finish
    }
}

/// Decides whether a request is sent again after an attempt, and after which delay.
pub fn next_step(retries_done: u32, retry_count: u32, outcome: AttemptOutcome) -> (step: RetryStep)
    ensures
        step == next_step_spec(retries_done as nat, retry_count as nat, outcome),
        retries_done < retry_count && (outcome is Timeout || (outcome matches AttemptOutcome::HttpError(
            s,
        ) && 500 <= s <= 599)) ==> step == RetryStep::RetryAfter(
            backoff_delay_spec(retries_done as nat) as u64,
        ),
{
    let retryable = match outcome {
        AttemptOutcome::HttpError(status) => status >= 500 && status <= 599,
        AttemptOutcome::Timeout => true,
        _ => false,
    };
    if retryable && retries_done < retry_count {
        RetryStep::RetryAfter(backoff_delay_ms(retries_done))
    } else {
        RetryStep::Finish
    }
}

/// How many attempts a request makes when successive attempts come to `outcomes`.
pub open spec fn attempts_made(retries_done: nat, retry_count: nat, outcomes: Seq<AttemptOutcome>) -> nat
    decreases outcomes.len(),
{
    if outcomes.len() == 0 {
        0
    } else if next_step_spec(retries_done, retry_count, outcomes[0]) is Finish {
        1
    } else {
        1 + attempts_made(retries_done + 1, retry_count, outcomes.drop_first())
    }
}

/// A request with `retry_count` retries is sent at most `retry_count + 1` times,
/// whatever its attempts come to.
pub proof fn lemma_attempts_bounded(retry_count: nat, outcomes: Seq<AttemptOutcome>)
    ensures
        attempts_made(0, retry_count, outcomes) <= retry_count + 1,
{
    lemma_attempts_bounded_from(0, retry_count, outcomes);
}

proof fn lemma_attempts_bounded_from(retries_done: nat, retry_count: nat, outcomes: Seq<AttemptOutcome>)
    requires
        retries_done <= retry_count,
    ensures
        attempts_made(retries_done, retry_count, outcomes) <= retry_count - retries_done + 1,
    decreases outcomes.len(),
{
    if outcomes.len() > 0 && next_step_spec(retries_done, retry_count, outcomes[0]) is RetryAfter {
        lemma_attempts_bounded_from(retries_done + 1, retry_count, outcomes.drop_first());
    }
}

/// A request whose attempts all fail in a retryable way is sent exactly
/// `retry_count + 1` times.
pub proof fn lemma_attempts_exact_when_all_fail(retry_count: nat, outcomes: Seq<AttemptOutcome>)
    requires
        outcomes.len() >= retry_count + 1,
        forall|i: int| 0 <= i < outcomes.len() ==> is_retryable(#[trigger] outcomes[i]),
    ensures
        attempts_made(0, retry_count, outcomes) == retry_count + 1,
{
    lemma_attempts_exact_from(0, retry_count, outcomes);
}

proof fn lemma_attempts_exact_from(retries_done: nat, retry_count: nat, outcomes: Seq<AttemptOutcome>)
    requires
        retries_done <= retry_count,
        outcomes.len() >= retry_count - retries_done + 1,
        forall|i: int| 0 <= i < outcomes.len() ==> is_retryable(#[trigger] outcomes[i]),
    ensures
        attempts_made(retries_done, retry_count, outcomes) == retry_count - retries_done + 1,
    decreases outcomes.len(),
{
    assert(is_retryable(outcomes[0]));
    if retries_done < retry_count {
        let rest = outcomes.drop_first();
        assert forall|i: int| 0 <= i < rest.len() implies is_retryable(#[trigger] rest[i]) by {
            assert(rest[i] == outcomes[i + 1]);
        }
        lemma_attempts_exact_from(retries_done + 1, retry_count, rest);
    }
}

/// A 4xx answer is handed to the caller at once, whatever retries remain.
pub proof fn lemma_client_errors_not_retried(retries_done: nat, retry_count: nat, status: u16)
    requires
        400 <= status <= 499,
    ensures
        next_step_spec(retries_done, retry_count, AttemptOutcome::HttpError(status)) == RetryStep::Finish,
{
}

/// The value given for a path parameter: the first pair with that name.
pub open spec fn lookup_param(params: Seq<(Seq<char>, Seq<char>)>, name: Seq<char>) -> Option<Seq<char>>
    decreases params.len(),
{
    if params.len() == 0 {
        None
    } else if params[0].0 == name {
        Some(params[0].1)
    } else {
        lookup_param(params.drop_first(), name)
    }
}

/// One `/`-separated piece of a path template, filled: a `{name}` piece becomes
/// the encoded value of `name`, any other piece stays as it is.
pub open spec fn fill_piece(piece: Seq<char>, params: Seq<(Seq<char>, Seq<char>)>) -> Option<Seq<char>> {
    if is_param_segment(piece) {
        match lookup_param(params, param_name(piece)) {
            Some(v) => Some(encode_segment_spec(encode_utf8(v))),
            None => None,
        }
    } else {
        Some(piece)
    }
}

pub open spec fn append_piece(
    out: Option<Seq<char>>,
    piece: Seq<char>,
    params: Seq<(Seq<char>, Seq<char>)>,
) -> Option<Seq<char>> {
    match (out, fill_piece(piece, params)) {
        (Some(o), Some(p)) => Some(o + p),
        _ => None,
    }
}

/// Reading a template from the left: the filled text of the completed pieces
/// (each followed by its `/`) and the piece in progress.
pub open spec fn fill_state(t: Seq<char>, params: Seq<(Seq<char>, Seq<char>)>) -> (Option<Seq<char>>, Seq<char>)
    decreases t.len(),
{
    if t.len() == 0 {
        (Some(seq![]), seq![])
    } else {
        let (out, cur) = fill_state(t.drop_last(), params);
        if t.last() == '/' {
            (
                match append_piece(out, cur, params) {
                    Some(o) => Some(o.push('/')),
                    None => None,
                },
                seq![],
            )
        } else {
            (out, cur.push(t.last()))
        }
    }
}

/// The path of a request: the template with every `{name}` piece replaced by the
/// percent-encoded value of `name` and every other character kept; `None` when a
/// parameter has no value.
pub open spec fn fill_path_spec(t: Seq<char>, params: Seq<(Seq<char>, Seq<char>)>) -> Option<Seq<char>> {
    append_piece(fill_state(t, params).0, fill_state(t, params).1, params)
}

pub open spec fn pair_views(params: Seq<(String, String)>) -> Seq<(Seq<char>, Seq<char>)> {
    params.map_values(|p: (String, String)| (p.0@, p.1@))
}

fn lookup(params: &[(String, String)], name: &String) -> (res: Option<String>)
    ensures
        match lookup_param(pair_views(params@), name@) {
            Some(v) => res matches Some(r) && r@ == v,
            None => res is None,
        },
{
    let ghost pv = pair_views(params@);
    let mut j: usize = 0;
    proof {
        assert(pv.subrange(0, pv.len() as int) =~= pv);
    }
    while j < params.len()
        invariant
            pv == pair_views(params@),
            j <= params@.len(),
            lookup_param(pv, name@) == lookup_param(pv.subrange(j as int, pv.len() as int), name@),
        decreases params@.len() - j,
    {
        let ghost rest = pv.subrange(j as int, pv.len() as int);
        proof {
            assert(rest[0] == pv[j as int]);
            assert(rest.drop_first() =~= pv.subrange(j + 1, pv.len() as int));
        }
        if params[j].0 == *name {
            return Some(params[j].1.clone());
        }
        j += 1;
    }
    proof {
        assert(pv.subrange(j as int, pv.len() as int) =~= Seq::<(Seq<char>, Seq<char>)>::empty());
    }
    None
}

fn fill_one(piece: &String, params: &[(String, String)]) -> (res: Option<String>)
    ensures
        match fill_piece(piece@, pair_views(params@)) {
            Some(v) => res matches Some(r) && r@ == v,
            None => res is None,
        },
{
    let p = piece.as_str();
    let n = p.unicode_len();
    if n >= 2 && p.get_char(0) == '{' && p.get_char(n - 1) == '}' {
        let name = String::from_str(p.substring_char(1, n - 1));
        match lookup(params, &name) {
            Some(v) => Some(encode_segment(v.as_str())),
            None => None,
        }
    } else {
        Some(piece.clone())
    }
}

/// Fills a path template with percent-encoded parameter values.
pub fn fill_path(template: &str, params: &[(String, String)]) -> (res: Option<String>)
    ensures
        match fill_path_spec(template@, pair_views(params@)) {
            Some(v) => res matches Some(r) && r@ == v,
            None => res is None,
        },
{
    let ghost pv = pair_views(params@);
    let n = template.unicode_len();
    let mut out = String::new();
    let mut failed = false;
    let mut cur = String::new();
    let mut i: usize = 0;
    while i < n
        invariant
            n == template@.len(),
            i <= n,
            pv == pair_views(params@),
            fill_state(template@.take(i as int), pv).1 == cur@,
            failed <==> fill_state(template@.take(i as int), pv).0 is None,
            !failed ==> fill_state(template@.take(i as int), pv).0 == Some(out@),
        decreases n - i,
    {
        let c = template.get_char(i);
        proof {
            assert(template@.take(i + 1).drop_last() =~= template@.take(i as int));
        }
        if c == '/' {
            if !failed {
                match fill_one(&cur, params) {
                    Some(piece) => {
                        out.append(piece.as_str());
                        out.push('/');
                    },
                    None => {
                        failed = true;
                    },
                }
            }
            cur = String::new();
        } else {
            cur.push(c);
        }
        i += 1;
    }
    proof {
        assert(template@.take(n as int) =~= template@);
    }
    if failed {
        return None;
    }
    match fill_one(&cur, params) {
        Some(piece) => {
            out.append(piece.as_str());
            Some(out)
        },
        None => None,
    }
}

/// Every 5xx answer is retried while retries remain, after the backoff delay of
/// the retry number.
pub proof fn lemma_server_errors_retried(retries_done: nat, retry_count: nat, status: u16)
    requires
        500 <= status <= 599,
        retries_done < retry_count,
    ensures
        next_step_spec(retries_done, retry_count, AttemptOutcome::HttpError(status))
            == RetryStep::RetryAfter(backoff_delay_spec(retries_done) as u64),
{
}

/// A timeout is retried while retries remain, after the backoff delay.
pub proof fn lemma_timeouts_retried(retries_done: nat, retry_count: nat)
    requires
        retries_done < retry_count,
    ensures
        next_step_spec(retries_done, retry_count, AttemptOutcome::Timeout) == RetryStep::RetryAfter(
            backoff_delay_spec(retries_done) as u64,
        ),
{
}

/// Once the retries are spent, or on success, the outcome is handed to the caller.
pub proof fn lemma_no_retry_when_spent_or_successful(retries_done: nat, retry_count: nat, outcome: AttemptOutcome)
    ensures
        retries_done >= retry_count ==> next_step_spec(retries_done, retry_count, outcome)
            == RetryStep::Finish,
        next_step_spec(retries_done, retry_count, AttemptOutcome::Success) == RetryStep::Finish,
{
}

/// The backoff starts at 100 ms and each retry doubles the previous delay, up to 5 s.
pub proof fn lemma_backoff_schedule(n: nat)
    ensures
        backoff_delay_spec(0) == 100,
        backoff_delay_spec(n + 1) == if 2 * backoff_delay_spec(n) < 5000 {
            2 * backoff_delay_spec(n)
        } else {
            5000
        },
{
    assert(pow2(0) == 1);
    assert(pow2(n + 1) == 2 * pow2(n));
    assert(BACKOFF_BASE_MS * pow2(n + 1) == 2 * (BACKOFF_BASE_MS * pow2(n)));
}

/// A retry happens only after a 5xx answer or a timeout, and only while retries
/// remain: success, any other status and any other failure end the call.
pub proof fn lemma_only_server_errors_and_timeouts_retried(
    retries_done: nat,
    retry_count: nat,
    outcome: AttemptOutcome,
)
    ensures
        next_step_spec(retries_done, retry_count, outcome) is RetryAfter ==> {
            &&& retries_done < retry_count
            &&& (outcome is Timeout || (outcome matches AttemptOutcome::HttpError(s) && 500 <= s <= 599))
        },
{
}

/// A `{name}` piece becomes the percent-encoding of the UTF-8 bytes of the first
/// value given for `name` (and fails without one); any other piece stays as it is.
pub proof fn lemma_fill_piece(piece: Seq<char>, params: Seq<(Seq<char>, Seq<char>)>)
    ensures
        !(piece.len() >= 2 && piece[0] == '{' && piece.last() == '}') ==> fill_piece(piece, params)
            == Some(piece),
        piece.len() >= 2 && piece[0] == '{' && piece.last() == '}' ==> fill_piece(piece, params) == match lookup_param(
            params,
            piece.subrange(1, piece.len() - 1),
        ) {
            Some(v) => Some(encode_segment_spec(encode_utf8(v))),
            None => None,
        },
{
}

/// The value of a name is the first one given for it.
pub proof fn lemma_lookup_first(params: Seq<(Seq<char>, Seq<char>)>, name: Seq<char>, k: int)
    requires
        0 <= k < params.len(),
        params[k].0 == name,
        forall|m: int| 0 <= m < k ==> (#[trigger] params[m]).0 != name,
    ensures
        lookup_param(params, name) == Some(params[k].1),
    decreases k,
{
    if k > 0 {
        let rest = params.drop_first();
        assert forall|m: int| 0 <= m < k - 1 implies (#[trigger] rest[m]).0 != name by {
            assert(rest[m] == params[m + 1]);
        }
        lemma_lookup_first(rest, name, k - 1);
    }
}

pub open spec fn slash_free(s: Seq<char>) -> bool {
    forall|k: int| 0 <= k < s.len() ==> s[k] != '/'
}

proof fn lemma_state_slash_free(a: Seq<char>, b: Seq<char>, params: Seq<(Seq<char>, Seq<char>)>)
    requires
        slash_free(b),
    ensures
        fill_state(a + b, params) == (fill_state(a, params).0, fill_state(a, params).1 + b),
    decreases b.len(),
{
    if b.len() == 0 {
        assert(a + b =~= a);
        assert(fill_state(a, params).1 + b =~= fill_state(a, params).1);
    } else {
        let b0 = b.drop_last();
        assert(slash_free(b0)) by {
            assert forall|k: int| 0 <= k < b0.len() implies b0[k] != '/' by {
                assert(b0[k] == b[k]);
            }
        }
        lemma_state_slash_free(a, b0, params);
        assert((a + b).drop_last() =~= a + b0);
        assert((a + b).last() == b.last());
        assert(b.last() != '/') by {
            assert(b[b.len() - 1] != '/');
        }
        assert(fill_state(a, params).1 + b0 + seq![b.last()] =~= fill_state(a, params).1 + b);
        assert((fill_state(a, params).1 + b0).push(b.last()) =~= fill_state(a, params).1 + b);
    }
}

/// Filling a path fills it piece by piece: for a last piece `b` after a `/`,
/// the filled path is the filled rest, a `/`, and the filled piece.
pub proof fn lemma_fill_path_pieces(a: Seq<char>, b: Seq<char>, params: Seq<(Seq<char>, Seq<char>)>)
    requires
        slash_free(b),
    ensures
        fill_path_spec(a + seq!['/'] + b, params) == match (fill_path_spec(a, params), fill_piece(b, params)) {
            (Some(x), Some(y)) => Some(x + seq!['/'] + y),
            _ => None,
        },
{
    let a1 = a + seq!['/'];
    assert(a1.drop_last() =~= a);
    assert(a1.last() == '/');
    assert(fill_state(a1, params).1 == Seq::<char>::empty());
    lemma_state_slash_free(a1, b, params);
    assert(Seq::<char>::empty() + b =~= b);
    match (fill_path_spec(a, params), fill_piece(b, params)) {
        (Some(x), Some(y)) => {
            assert(x.push('/') + y =~= x + seq!['/'] + y);
        },
        _ => {},
    }
}

/// A template without braces is its own path.
pub proof fn lemma_fill_path_literal(t: Seq<char>, params: Seq<(Seq<char>, Seq<char>)>)
    requires
        forall|k: int| 0 <= k < t.len() ==> t[k] != '{',
    ensures
        fill_path_spec(t, params) == Some(t),
{
    lemma_fill_state_literal(t, params);
    let cur = fill_state(t, params).1;
    if cur.len() > 0 {
        assert(cur[0] != '{');
    }
}

proof fn lemma_fill_state_literal(t: Seq<char>, params: Seq<(Seq<char>, Seq<char>)>)
    requires
        forall|k: int| 0 <= k < t.len() ==> t[k] != '{',
    ensures
        fill_state(t, params).0 is Some,
        fill_state(t, params).0->0 + fill_state(t, params).1 == t,
        forall|k: int| 0 <= k < fill_state(t, params).1.len() ==> fill_state(t, params).1[k] != '{',
    decreases t.len(),
{
    if t.len() > 0 {
        let t0 = t.drop_last();
        assert forall|k: int| 0 <= k < t0.len() implies t0[k] != '{' by {
            assert(t0[k] == t[k]);
        }
        lemma_fill_state_literal(t0, params);
        let o = fill_state(t0, params).0->0;
        let cur = fill_state(t0, params).1;
        assert(t[t.len() - 1] != '{');
        assert(t =~= t0.push(t.last()));
        assert(o + cur == t0);
        if cur.len() > 0 {
            assert(cur[0] != '{');
        }
        if t.last() == '/' {
            assert(fill_piece(cur, params) == Some(cur));
            assert((o + cur).push('/') =~= t);
        } else {
            assert(o + cur.push(t.last()) =~= t);
            assert forall|k: int| 0 <= k < cur.push(t.last()).len() implies cur.push(t.last())[k] != '{' by {
                if k < cur.len() {
                    assert(cur.push(t.last())[k] == cur[k]);
                }
            }
        }
    }
}

/// The bytes `A-Z a-z 0-9 - _ . ~` stand for themselves in an encoded segment;
/// every other byte becomes `%` and two upper-case hex digits of its value.
pub proof fn lemma_encode_byte_cases(b: u8)
    ensures
        (65 <= b <= 90 || 97 <= b <= 122 || 48 <= b <= 57 || b == 45 || b == 95 || b == 46 || b == 126)
            ==> encode_byte(b) == seq![b as char],
        !(65 <= b <= 90 || 97 <= b <= 122 || 48 <= b <= 57 || b == 45 || b == 95 || b == 46 || b == 126)
            ==> {
            &&& encode_byte(b).len() == 3
            &&& encode_byte(b)[0] == '%'
            &&& hex_value(encode_byte(b)[1]) * 16 + hex_value(encode_byte(b)[2]) == b
            &&& ('0' <= encode_byte(b)[1] <= '9' || 'A' <= encode_byte(b)[1] <= 'F')
            &&& ('0' <= encode_byte(b)[2] <= '9' || 'A' <= encode_byte(b)[2] <= 'F')
        },
{
}

/// A request may take five seconds when the caller gives no timeout.
pub proof fn lemma_default_timeout_is_five_seconds()
    ensures
        DEFAULT_TIMEOUT_MS == 5000,
{
}

} // verus!
