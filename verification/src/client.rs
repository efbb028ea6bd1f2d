//! Values that a generated client builds and hands back: its error type and
//! the status check of an answer.
use vstd::prelude::*;
use vstd::string::StringExecFns;

use crate::auth::{auth_header, auth_header_spec, ClientAuth};
use crate::input::HttpMethod;
use crate::runtime::{
    fill_path, fill_path_spec, next_step, next_step_spec, pair_views, timeout_millis,
    AttemptOutcome, RetryStep, DEFAULT_TIMEOUT_MS,
};

verus! {

/// The error of every generated method.
#[derive(Debug)]
pub enum ClientError {
    /// The request URL could not be built.
    Url(String),
    /// The request could not be sent or its answer not read.
    Request(String),
    /// The server answered with a non-2xx status; `body` is its raw answer.
    Http { status: u16, reason: String, body: String },
    /// The answer's body is not of the expected type.
    Deserialize(String),
}

/// The names of the variants of the generated error enum, in order.
pub open spec fn error_variant_names() -> Seq<Seq<char>> {
    seq!["Url"@, "Request"@, "Http"@, "Deserialize"@]
}

/// The names of the variants of the generated error enum, in order.
pub fn error_variants() -> (res: Vec<String>)
    ensures
        res@.map_values(|s: String| s@) == error_variant_names(),
{
    let res = vec![
        String::from_str("Url"),
        String::from_str("Request"),
        String::from_str("Http"),
        String::from_str("Deserialize"),
    ];
    proof {
        assert(res@.map_values(|s: String| s@) =~= error_variant_names());
    }
    res
}

/// The error of a non-2xx answer: its status, reason phrase and raw body.
pub fn http_error(status: u16, reason: String, body: String) -> (res: ClientError)
    ensures
        res == (ClientError::Http { status, reason, body }),
{
    ClientError::Http { status, reason, body }
}

/// A 2xx status.
pub open spec fn is_success(status: u16) -> bool {
    200 <= status <= 299
}

/// The outcome of an answer: a 2xx status is accepted, any other status is
/// refused with the `Http` error that carries the status, the reason and the
/// server's raw body.
pub fn check_status(status: u16, reason: String, body: String) -> (res: Result<(), ClientError>)
    ensures
        is_success(status) ==> res is Ok,
        !is_success(status) ==> res == Err::<(), ClientError>(
            ClientError::Http { status, reason, body },
        ),
        200 <= status <= 299 ==> res is Ok,
        !(200 <= status <= 299) ==> res == Err::<(), ClientError>(
            ClientError::Http { status, reason, body },
        ),
{
    if status >= 200 && status <= 299 {
        Ok(())
    } else {
        Err(http_error(status, reason, body))
    }
}

pub open spec fn digit_char(d: int) -> char {
    (48 + d) as char
}

/// The decimal digits of `n`.
pub open spec fn decimal_spec(n: nat) -> Seq<char>
    decreases n,
{
    if n < 10 {
        seq![digit_char(n as int)]
    } else {
        decimal_spec(n / 10).push(digit_char((n % 10) as int))
    }
}

fn digit(d: u16) -> (c: char)
    requires
        d < 10,
    ensures
        c == digit_char(d as int),
{
    ((48 + d) as u8) as char
}

/// The decimal digits of a status code.
pub fn decimal(n: u16) -> (res: String)
    ensures
        res@ == decimal_spec(n as nat),
    decreases n,
{
    if n < 10 {
        let mut s = String::new();
        s.push(digit(n));
        proof {
            assert(s@ =~= decimal_spec(n as nat));
        }
        s
    } else {
        let mut s = decimal(n / 10);
        s.push(digit(n % 10));
        s
    }
}

/// The text that a generated error displays.
pub open spec fn error_message_spec(e: ClientError) -> Seq<char> {
    match e {
        ClientError::Url(m) => "invalid URL: "@ + m@,
        ClientError::Request(m) => "request failed: "@ + m@,
        ClientError::Http { status, reason, body } => {
            let head = "HTTP "@ + decimal_spec(status as nat) + " "@ + reason@;
            if body@.len() == 0 {
                head
            } else {
                head + ": "@ + body@
            }
        },
        ClientError::Deserialize(m) => "failed to deserialize the response: "@ + m@,
    }
}

impl ClientError {
    /// The text of the error: for `Http`, the status and reason, then the body
    /// when there is one.
    pub fn message(&self) -> (res: String)
        ensures
            res@ == error_message_spec(*self),
    {
        match self {
            ClientError::Url(m) => String::from_str("invalid URL: ").concat(m.as_str()),
            ClientError::Request(m) => String::from_str("request failed: ").concat(m.as_str()),
            ClientError::Http { status, reason, body } => {
                let mut s = String::from_str("HTTP ");
                let digits = decimal(*status);
                s.append(digits.as_str());
                s.append(" ");
                s.append(reason.as_str());
                if !body.as_str().is_empty() {
                    s.append(": ");
                    s.append(body.as_str());
                }
                s
            },
            ClientError::Deserialize(m) => String::from_str(
                "failed to deserialize the response: ",
            ).concat(m.as_str()),
        }
    }
}

/// The text of an `Http` error ends with the server's body whenever there is one.
pub proof fn lemma_http_message_shows_body(status: u16, reason: String, body: String)
    requires
        body@.len() > 0,
    ensures
        ({
            let m = error_message_spec(ClientError::Http { status, reason, body });
            m.subrange(m.len() - body@.len(), m.len() as int) == body@
        }),
{
    let m = error_message_spec(ClientError::Http { status, reason, body });
    let head = "HTTP "@ + decimal_spec(status as nat) + " "@ + reason@;
    assert(m == (head + ": "@) + body@);
    assert(m.subrange(m.len() - body@.len(), m.len() as int) =~= body@);
}

/// What a generated client is built with: its base URL, its request timeout and
/// its credentials.
#[derive(Debug)]
pub struct ClientConfig {
    pub base_url: String,
    pub timeout_ms: u64,
    pub auth: Option<ClientAuth>,
}

/// A request ready to be sent: method, path, headers and timeout.
#[derive(Debug)]
pub struct PreparedRequest {
    pub method: HttpMethod,
    pub path: String,
    pub headers: Vec<(String, String)>,
    pub timeout_ms: u64,
}

/// The headers that credentials put on a request: their auth header, or none.
pub open spec fn auth_headers_spec(auth: Option<ClientAuth>) -> Seq<(Seq<char>, Seq<char>)> {
    match auth {
        Some(a) => seq![auth_header_spec(a)],
        None => seq![],
    }
}

impl ClientConfig {
    /// A client configuration; without a timeout, requests may take five seconds.
    pub fn new(base_url: String, auth: Option<ClientAuth>, timeout: Option<u64>) -> (res: Self)
        ensures
            res.base_url == base_url,
            res.auth == auth,
            res.timeout_ms == match timeout {
                Some(t) => t,
                None => DEFAULT_TIMEOUT_MS,
            },
    {
        ClientConfig { base_url, timeout_ms: timeout_millis(timeout), auth }
    }

    /// The request of one call of a generated method: its path filled from the
    /// template (the root when the endpoint has no path), the auth header of the
    /// client, and the client's timeout. A parameter without a value refuses the
    /// call with a `Url` error.
    pub fn prepare(&self, method: HttpMethod, template: Option<&str>, params: &[(String, String)]) -> (res:
        Result<PreparedRequest, ClientError>)
        ensures
            match template {
                Some(t) => match fill_path_spec(t@, pair_views(params@)) {
                    Some(p) => res matches Ok(r) && r.path@ == p,
                    None => res matches Err(e) && e is Url,
                },
                None => res matches Ok(r) && r.path@ == Seq::<char>::empty(),
            },
            res matches Ok(r) ==> {
                &&& r.method == method
                &&& pair_views(r.headers@) == auth_headers_spec(self.auth)
                &&& r.headers@.len() == if self.auth is Some { 1int } else { 0int }
                &&& self.auth matches Some(a) ==> (r.headers@[0].0@, r.headers@[0].1@)
                    == auth_header_spec(a)
                &&& r.timeout_ms == self.timeout_ms
            },
    {
        let path = match template {
            Some(t) => match fill_path(t, params) {
                Some(p) => p,
                None => {
                    return Err(ClientError::Url(String::from_str("a path parameter has no value")));
                },
            },
            None => String::new(),
        };
        let mut headers: Vec<(String, String)> = Vec::new();
        match auth_header(&self.auth) {
            Some(h) => {
                headers.push(h);
            },
            None => {},
        }
        proof {
            assert(pair_views(headers@) =~= auth_headers_spec(self.auth));
        }
        Ok(PreparedRequest { method, path, headers, timeout_ms: self.timeout_ms })
    }
}

/// The attempts of one call: the request, its retry count and the retries made.
pub struct Attempts {
    request: PreparedRequest,
    retry_count: u32,
    retries_done: u32,
}

impl Attempts {
    pub closed spec fn request_model(&self) -> PreparedRequest {
        self.request
    }

    pub closed spec fn retry_count_model(&self) -> u32 {
        self.retry_count
    }

    pub closed spec fn retries_done_model(&self) -> u32 {
        self.retries_done
    }

    /// The first attempt of a call.
    pub fn new(request: PreparedRequest, retry_count: u32) -> (res: Self)
        ensures
            res.request_model() == request,
            res.retry_count_model() == retry_count,
            res.retries_done_model() == 0,
    {
        Attempts { request, retry_count, retries_done: 0 }
    }

    /// The request to send on the current attempt.
    pub fn request(&self) -> (res: &PreparedRequest)
        ensures
            *res == self.request_model(),
    {
        &self.request
    }

    /// Retries made so far.
    pub fn retries_done(&self) -> (res: u32)
        ensures
            res == self.retries_done_model(),
    {
        self.retries_done
    }

    /// Records what an attempt came to and says what comes next. A retry sends
    /// the very same request again, auth header included.
    pub fn after(&mut self, outcome: AttemptOutcome) -> (step: RetryStep)
        ensures
            step == next_step_spec(
                old(self).retries_done_model() as nat,
                old(self).retry_count_model() as nat,
                outcome,
            ),
            final(self).request_model() == old(self).request_model(),
            final(self).retry_count_model() == old(self).retry_count_model(),
            final(self).retries_done_model() == if step is RetryAfter {
                old(self).retries_done_model() + 1
            } else {
                old(self).retries_done_model() as int
            },
    {
        let step = next_step(self.retries_done, self.retry_count, outcome);
        match step {
            RetryStep::RetryAfter(_) => {
                self.retries_done = self.retries_done + 1;
            },
            RetryStep::Finish => {},
        }
        step
    }
}

/// Every 2xx status is a success and no other status is: a 2xx answer is
/// accepted, any other answer is refused with its `Http` error.
pub proof fn lemma_success_is_exactly_2xx(status: u16)
    ensures
        200 <= status <= 299 ==> is_success(status),
        status < 200 ==> !is_success(status),
        status > 299 ==> !is_success(status),
{
}

/// A request carries exactly one auth header when the client has credentials,
/// and it is the one its strategy gives: `Authorization: Bearer <token>`,
/// `Authorization: Basic <base64 of user:password>`, or the API key under its own
/// header name; without credentials it carries none.
pub proof fn lemma_request_auth_headers(auth: ClientAuth)
    ensures
        auth_headers_spec(None) == Seq::<(Seq<char>, Seq<char>)>::empty(),
        auth_headers_spec(Some(auth)).len() == 1,
        auth matches ClientAuth::ApiKey { header, key } ==> auth_headers_spec(Some(auth)) == seq![
            (header@, key@),
        ],
        auth matches ClientAuth::Bearer { token } ==> auth_headers_spec(Some(auth)) == seq![
            ("Authorization"@, "Bearer "@ + token@),
        ],
        auth matches ClientAuth::Basic { username, password } ==> auth_headers_spec(Some(auth))
            == seq![
            (
                "Authorization"@,
                "Basic "@ + crate::auth::base64_spec(
                    vstd::utf8::encode_utf8(username@ + ":"@ + password@),
                ),
            ),
        ],
{
}

} // verus!
