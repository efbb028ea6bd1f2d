//! The grammar of a client definition, read from the macro's input tokens.
//!
//! ```text
//! Name, [auth: Bearer | Basic | ApiKey("header"),] [retries: N,] {
//!     { method: GET, path: "/users/{id}", path_params: Type, res: Type, ... },
//!     ...
//! } [,]
//! ```
//!
//! `auth` and `retries` may come in either order, each at most once. An endpoint's
//! fields (`method`, `path`, `res`, `req`, `path_params`, `query_params`, `headers`,
//! `fn_name`, `retries`) may come in any order, each at most once, separated by
//! commas with an optional trailing comma; `method` is required. A type runs up to
//! the next comma or closing brace outside any `<...>` or bracket group.
use vstd::prelude::*;
use vstd::string::StrSliceExecFns;
use vstd::string::StringExecFns;

use crate::input::{ApiClientInput, AuthStrategy, EndpointDef, HttpMethod};

verus! {

/// One token of the macro's input, with each group written as its opening
/// delimiter, its tokens and its closing delimiter.
#[derive(Debug, Clone)]
pub enum MacroToken {
    Ident(String),
    Punct(char),
    /// A literal as written, quotes included.
    Literal(String),
    Open(char),
    Close(char),
}

/// Why a client definition was refused.
#[derive(Debug, Clone, Copy, PartialEq, Eq, Structural)]
pub enum InputError {
    /// The tokens do not follow the grammar of a client definition.
    Malformed,
}

/// The text of a token.
pub open spec fn token_text(t: MacroToken) -> Seq<char> {
    match t {
        MacroToken::Ident(s) => s@,
        MacroToken::Punct(c) => seq![c],
        MacroToken::Literal(s) => s@,
        MacroToken::Open(c) => seq![c],
        MacroToken::Close(c) => seq![c],
    }
}

pub open spec fn word_like(t: MacroToken) -> bool {
    t is Ident || t is Literal
}

/// The source text of a run of tokens: their texts, with a space between two
/// adjacent words (identifiers or literals) and nothing elsewhere.
pub open spec fn render(s: Seq<MacroToken>) -> Seq<char>
    decreases s.len(),
{
    if s.len() == 0 {
        seq![]
    } else {
        let sep = if s.len() >= 2 && word_like(s[s.len() - 2]) && word_like(s.last()) {
            seq![' ']
        } else {
            seq![]
        };
        render(s.drop_last()) + sep + token_text(s.last())
    }
}

/// Where a type that starts at `i` ends: the first comma or closing delimiter
/// outside any group or `<...>`, or the end of the tokens.
pub open spec fn scan_type(ts: Seq<MacroToken>, i: int, depth: nat) -> int
    decreases ts.len() - i,
{
    if i < 0 || i >= ts.len() {
        ts.len() as int
    } else {
        match ts[i] {
            MacroToken::Punct(c) => if c == ',' && depth == 0 {
                i
            } else if c == '<' {
                scan_type(ts, i + 1, depth + 1)
            } else if c == '>' && depth > 0 {
                scan_type(ts, i + 1, (depth - 1) as nat)
            } else {
                scan_type(ts, i + 1, depth)
            },
            MacroToken::Open(_) => scan_type(ts, i + 1, depth + 1),
            MacroToken::Close(_) => if depth == 0 {
                i
            } else {
                scan_type(ts, i + 1, (depth - 1) as nat)
            },
            _ => scan_type(ts, i + 1, depth),
        }
    }
}

/// The text between the quotes of a string literal (escapes are kept as written).
pub open spec fn str_lit_value(t: MacroToken) -> Option<Seq<char>> {
    match t {
        MacroToken::Literal(s) => if s@.len() >= 2 && s@[0] == '"' && s@.last() == '"' {
            Some(s@.subrange(1, s@.len() - 1))
        } else {
            None
        },
        _ => None,
    }
}

pub open spec fn all_digits(s: Seq<char>) -> bool {
    forall|k: int| 0 <= k < s.len() ==> '0' <= #[trigger] s[k] <= '9'
}

pub open spec fn digits_value(s: Seq<char>) -> int
    decreases s.len(),
{
    if s.len() == 0 {
        0
    } else {
        digits_value(s.drop_last()) * 10 + (s.last() as int - 48)
    }
}

/// The value of a decimal integer literal that fits in a `u32`.
pub open spec fn int_lit_value(t: MacroToken) -> Option<u32> {
    match t {
        MacroToken::Literal(s) => if s@.len() > 0 && all_digits(s@) && digits_value(s@) <= u32::MAX {
            Some(digits_value(s@) as u32)
        } else {
            None
        },
        _ => None,
    }
}

/// The HTTP method that an identifier names.
pub open spec fn method_word(t: MacroToken) -> Option<HttpMethod> {
    match t {
        MacroToken::Ident(s) => if s@ == "GET"@ {
            Some(HttpMethod::Get)
        } else if s@ == "POST"@ {
            Some(HttpMethod::Post)
        } else if s@ == "PUT"@ {
            Some(HttpMethod::Put)
        } else if s@ == "DELETE"@ {
            Some(HttpMethod::Delete)
        } else if s@ == "PATCH"@ {
            Some(HttpMethod::Patch)
        } else {
            None
        },
        _ => None,
    }
}

fn same_text(s: &String, w: &str) -> (res: bool)
    ensures
        res == (s@ == w@),
{
    let t = String::from_str(w);
    *s == t
}

fn append_token(out: &mut String, t: &MacroToken)
    ensures
        final(out)@ == old(out)@ + token_text(*t),
{
    match t {
        MacroToken::Ident(s) => out.append(s.as_str()),
        MacroToken::Literal(s) => out.append(s.as_str()),
        MacroToken::Punct(c) => {
            out.push(*c);
            proof {
                assert(final(out)@ =~= old(out)@ + token_text(*t));
            }
        },
        MacroToken::Open(c) => {
            out.push(*c);
            proof {
                assert(final(out)@ =~= old(out)@ + token_text(*t));
            }
        },
        MacroToken::Close(c) => {
            out.push(*c);
            proof {
                assert(final(out)@ =~= old(out)@ + token_text(*t));
            }
        },
    }
}

fn is_word_token(t: &MacroToken) -> (res: bool)
    ensures
        res == word_like(*t),
{
    match t {
        MacroToken::Ident(_) => true,
        MacroToken::Literal(_) => true,
        _ => false,
    }
}

/// The source text of the tokens from `a` up to `b`.
pub fn render_range(ts: &Vec<MacroToken>, a: usize, b: usize) -> (res: String)
    requires
        a <= b <= ts@.len(),
    ensures
        res@ == render(ts@.subrange(a as int, b as int)),
{
    let mut out = String::new();
    let mut j: usize = a;
    proof {
        assert(ts@.subrange(a as int, a as int) =~= Seq::<MacroToken>::empty());
    }
    while j < b
        invariant
            a <= j <= b,
            b <= ts@.len(),
            out@ == render(ts@.subrange(a as int, j as int)),
        decreases b - j,
    {
        let ghost s = ts@.subrange(a as int, j + 1);
        proof {
            assert(s.drop_last() =~= ts@.subrange(a as int, j as int));
            assert(s.last() == ts@[j as int]);
            if j > a {
                assert(s[s.len() - 2] == ts@[j - 1]);
            }
        }
        if j > a && is_word_token(&ts[j - 1]) && is_word_token(&ts[j]) {
            out.push(' ');
        }
        proof {
            assert(out@ =~= render(s.drop_last()) + (if s.len() >= 2 && word_like(s[s.len() - 2])
                && word_like(s.last()) {
                seq![' ']
            } else {
                seq![]
            }));
        }
        append_token(&mut out, &ts[j]);
        j += 1;
    }
    out
}

/// Where a type that starts at `i` ends.
pub fn type_end(ts: &Vec<MacroToken>, i: usize) -> (res: usize)
    ensures
        res == scan_type(ts@, i as int, 0),
{
    let mut k: usize = i;
    let mut depth: usize = 0;
    while k < ts.len()
        invariant
            i <= k,
            scan_type(ts@, i as int, 0) == scan_type(ts@, k as int, depth as nat),
            depth <= k - i,
        decreases ts@.len() - k,
    {
        match &ts[k] {
            MacroToken::Punct(c) => {
                if *c == ',' && depth == 0 {
                    return k;
                } else if *c == '<' {
                    depth = depth + 1;
                } else if *c == '>' && depth > 0 {
                    depth = depth - 1;
                }
            },
            MacroToken::Open(_) => {
                depth = depth + 1;
            },
            MacroToken::Close(_) => {
                if depth == 0 {
                    return k;
                }
                depth = depth - 1;
            },
            _ => {},
        }
        k += 1;
    }
    ts.len()
}

fn str_lit(t: &MacroToken) -> (res: Option<String>)
    ensures
        match str_lit_value(*t) {
            Some(v) => res matches Some(r) && r@ == v,
            None => res is None,
        },
{
    match t {
        MacroToken::Literal(s) => {
            let n = s.as_str().unicode_len();
            if n >= 2 && s.as_str().get_char(0) == '"' && s.as_str().get_char(n - 1) == '"' {
                Some(String::from_str(s.as_str().substring_char(1, n - 1)))
            } else {
                None
            }
        },
        _ => None,
    }
}

proof fn lemma_digits_prefix(s: Seq<char>, k: int)
    requires
        0 <= k <= s.len(),
        all_digits(s),
    ensures
        digits_value(s.take(k)) <= digits_value(s),
        digits_value(s.take(k)) >= 0,
    decreases s.len() - k,
{
    if k < s.len() {
        lemma_digits_prefix(s, k + 1);
        assert(s.take(k + 1).drop_last() =~= s.take(k));
        assert('0' <= s[k] <= '9');
        assert(s.take(k + 1).last() == s[k]);
    } else {
        assert(s.take(k) =~= s);
        lemma_digits_nonneg(s);
    }
}

proof fn lemma_digits_nonneg(s: Seq<char>)
    requires
        all_digits(s),
    ensures
        digits_value(s) >= 0,
    decreases s.len(),
{
    if s.len() > 0 {
        assert(all_digits(s.drop_last()));
        lemma_digits_nonneg(s.drop_last());
        assert('0' <= s[s.len() - 1] <= '9');
    }
}

fn int_lit(t: &MacroToken) -> (res: Option<u32>)
    ensures
        res == int_lit_value(*t),
{
    match t {
        MacroToken::Literal(s) => {
            let text = s.as_str();
            let n = text.unicode_len();
            if n == 0 {
                return None;
            }
            let mut acc: u64 = 0;
            let mut k: usize = 0;
            while k < n
                invariant
                    *t == MacroToken::Literal(*s),
                    text@ == s@,
                    n == s@.len(),
                    k <= n,
                    all_digits(s@.take(k as int)),
                    acc == digits_value(s@.take(k as int)),
                    acc <= u32::MAX,
                decreases n - k,
            {
                let c = text.get_char(k);
                proof {
                    assert(s@.take(k + 1).drop_last() =~= s@.take(k as int));
                    assert(s@.take(k + 1).last() == c);
                }
                if c < '0' || c > '9' {
                    proof {
                        assert(s@.take(k + 1)[k as int] == c);
                        assert(!all_digits(s@)) by {
                            assert(s@[k as int] == c);
                        }
                    }
                    return None;
                }
                let d = (c as u32 - 48) as u64;
                acc = acc * 10 + d;
                proof {
                    assert(all_digits(s@.take(k + 1))) by {
                        assert forall|m: int| 0 <= m < k + 1 implies '0' <= #[trigger] s@.take(k + 1)[m] <= '9' by {
                            if m < k {
                                assert(s@.take(k + 1)[m] == s@.take(k as int)[m]);
                            }
                        }
                    }
                }
                if acc > 4294967295 {
                    proof {
                        assert(all_digits(s@) || !all_digits(s@));
                        if all_digits(s@) {
                            lemma_digits_prefix(s@, k + 1);
                        }
                    }
                    return None;
                }
                k += 1;
            }
            proof {
                assert(s@.take(n as int) =~= s@);
            }
            Some(acc as u32)
        },
        _ => None,
    }
}

fn method_of(t: &MacroToken) -> (res: Option<HttpMethod>)
    ensures
        res == method_word(*t),
{
    match t {
        MacroToken::Ident(s) => {
            if same_text(s, "GET") {
                Some(HttpMethod::Get)
            } else if same_text(s, "POST") {
                Some(HttpMethod::Post)
            } else if same_text(s, "PUT") {
                Some(HttpMethod::Put)
            } else if same_text(s, "DELETE") {
                Some(HttpMethod::Delete)
            } else if same_text(s, "PATCH") {
                Some(HttpMethod::Patch)
            } else {
                None
            }
        },
        _ => None,
    }
}

/// The fields of an endpoint read so far.
pub struct EndpointFields {
    pub method: Option<HttpMethod>,
    pub path: Option<Seq<char>>,
    pub res: Option<Seq<char>>,
    pub req: Option<Seq<char>>,
    pub path_params: Option<Seq<char>>,
    pub query_params: Option<Seq<char>>,
    pub headers: Option<Seq<char>>,
    pub fn_name: Option<Seq<char>>,
    pub retries: Option<u32>,
}

/// An auth strategy as the grammar gives it.
pub enum AuthModel {
    Bearer,
    Basic,
    ApiKey(Seq<char>),
}

/// A client definition as the grammar gives it.
pub struct ClientModel {
    pub name: Seq<char>,
    pub auth: Option<AuthModel>,
    pub retries: Option<u32>,
    pub endpoints: Seq<EndpointFields>,
}

pub open spec fn no_fields() -> EndpointFields {
    EndpointFields {
        method: None,
        path: None,
        res: None,
        req: None,
        path_params: None,
        query_params: None,
        headers: None,
        fn_name: None,
        retries: None,
    }
}

/// The text-valued field that a key names: `path`, the five types, `fn_name`.
pub open spec fn text_slot(key: Seq<char>) -> int {
    if key == "path"@ {
        0
    } else if key == "res"@ {
        1
    } else if key == "req"@ {
        2
    } else if key == "path_params"@ {
        3
    } else if key == "query_params"@ {
        4
    } else if key == "headers"@ {
        5
    } else if key == "fn_name"@ {
        6
    } else {
        -1
    }
}

pub open spec fn get_slot(f: EndpointFields, k: int) -> Option<Seq<char>> {
    if k == 0 {
        f.path
    } else if k == 1 {
        f.res
    } else if k == 2 {
        f.req
    } else if k == 3 {
        f.path_params
    } else if k == 4 {
        f.query_params
    } else if k == 5 {
        f.headers
    } else {
        f.fn_name
    }
}

pub open spec fn set_slot(f: EndpointFields, k: int, v: Seq<char>) -> EndpointFields {
    if k == 0 {
        EndpointFields { path: Some(v), ..f }
    } else if k == 1 {
        EndpointFields { res: Some(v), ..f }
    } else if k == 2 {
        EndpointFields { req: Some(v), ..f }
    } else if k == 3 {
        EndpointFields { path_params: Some(v), ..f }
    } else if k == 4 {
        EndpointFields { query_params: Some(v), ..f }
    } else if k == 5 {
        EndpointFields { headers: Some(v), ..f }
    } else {
        EndpointFields { fn_name: Some(v), ..f }
    }
}

/// A text field set once: a field given twice refuses the endpoint.
pub open spec fn put_text(f: EndpointFields, k: int, v: Seq<char>, next: int) -> Option<(EndpointFields, int)> {
    if get_slot(f, k) is None {
        Some((set_slot(f, k, v), next))
    } else {
        None
    }
}

/// One `key: value` field at `i`, and where the tokens after it start.
pub open spec fn parse_field(ts: Seq<MacroToken>, i: int, f: EndpointFields) -> Option<(EndpointFields, int)> {
    if 0 <= i && i + 2 < ts.len() && ts[i + 1] == MacroToken::Punct(':') {
        match ts[i] {
            MacroToken::Ident(k) => {
                let key = k@;
                let v = ts[i + 2];
                if key == "method"@ {
                    match method_word(v) {
                        Some(m) => if f.method is None {
                            Some((EndpointFields { method: Some(m), ..f }, i + 3))
                        } else {
                            None
                        },
                        None => None,
                    }
                } else if key == "retries"@ {
                    match int_lit_value(v) {
                        Some(n) => if f.retries is None {
                            Some((EndpointFields { retries: Some(n), ..f }, i + 3))
                        } else {
                            None
                        },
                        None => None,
                    }
                } else if key == "path"@ {
                    match str_lit_value(v) {
                        Some(p) => put_text(f, 0, p, i + 3),
                        None => None,
                    }
                } else if key == "fn_name"@ {
                    match v {
                        MacroToken::Ident(n) => put_text(f, 6, n@, i + 3),
                        _ => None,
                    }
                } else if 1 <= text_slot(key) <= 5 {
                    let e = scan_type(ts, i + 2, 0);
                    if e > i + 2 {
                        put_text(f, text_slot(key), render(ts.subrange(i + 2, e)), e)
                    } else {
                        None
                    }
                } else {
                    None
                }
            },
            _ => None,
        }
    } else {
        None
    }
}

/// The fields of an endpoint from `i` up to its closing brace, and where the
/// tokens after that brace start.
pub open spec fn parse_fields(ts: Seq<MacroToken>, i: int, f: EndpointFields) -> Option<(EndpointFields, int)>
    decreases ts.len() - i,
{
    if i < 0 || i >= ts.len() {
        None
    } else if ts[i] == MacroToken::Close('}') {
        Some((f, i + 1))
    } else {
        match parse_field(ts, i, f) {
            Some((g, j)) => if i < j < ts.len() {
                if ts[j] == MacroToken::Punct(',') {
                    parse_fields(ts, j + 1, g)
                } else if ts[j] == MacroToken::Close('}') {
                    Some((g, j + 1))
                } else {
                    None
                }
            } else {
                None
            },
            None => None,
        }
    }
}

/// The endpoints from `i` up to the closing brace of the list (each with its
/// `method`), and where the tokens after that brace start.
pub open spec fn parse_endpoints(ts: Seq<MacroToken>, i: int, acc: Seq<EndpointFields>) -> Option<
    (Seq<EndpointFields>, int),
>
    decreases ts.len() - i,
{
    if i < 0 || i >= ts.len() {
        None
    } else if ts[i] == MacroToken::Close('}') {
        Some((acc, i + 1))
    } else if ts[i] == MacroToken::Open('{') {
        match parse_fields(ts, i + 1, no_fields()) {
            Some((f, j)) => if f.method is Some && i < j < ts.len() {
                if ts[j] == MacroToken::Punct(',') {
                    parse_endpoints(ts, j + 1, acc.push(f))
                } else if ts[j] == MacroToken::Close('}') {
                    Some((acc.push(f), j + 1))
                } else {
                    None
                }
            } else {
                None
            },
            None => None,
        }
    } else {
        None
    }
}

/// The auth strategy at `i`, and where the tokens after it start.
pub open spec fn parse_auth(ts: Seq<MacroToken>, i: int) -> Option<(AuthModel, int)> {
    if 0 <= i < ts.len() {
        match ts[i] {
            MacroToken::Ident(w) => if w@ == "Bearer"@ {
                Some((AuthModel::Bearer, i + 1))
            } else if w@ == "Basic"@ {
                Some((AuthModel::Basic, i + 1))
            } else if w@ == "ApiKey"@ && i + 3 < ts.len() && ts[i + 1] == MacroToken::Open('(')
                && ts[i + 3] == MacroToken::Close(')') {
                match str_lit_value(ts[i + 2]) {
                    Some(h) => Some((AuthModel::ApiKey(h), i + 4)),
                    None => None,
                }
            } else {
                None
            },
            _ => None,
        }
    } else {
        None
    }
}

pub open spec fn is_option(ts: Seq<MacroToken>, i: int, word: Seq<char>) -> bool {
    &&& 0 <= i
    &&& i + 1 < ts.len()
    &&& ts[i] matches MacroToken::Ident(w) && w@ == word
    &&& ts[i + 1] == MacroToken::Punct(':')
}

/// The rest of a client definition from `i`: its options, then its endpoint list,
/// then an optional comma and the end of the tokens.
pub open spec fn parse_client_from(
    ts: Seq<MacroToken>,
    i: int,
    name: Seq<char>,
    auth: Option<AuthModel>,
    retries: Option<u32>,
) -> Option<ClientModel>
    decreases ts.len() - i,
{
    if i < 0 || i >= ts.len() {
        None
    } else if is_option(ts, i, "auth"@) && auth is None {
        match parse_auth(ts, i + 2) {
            Some((a, j)) => if i < j < ts.len() && ts[j] == MacroToken::Punct(',') {
                parse_client_from(ts, j + 1, name, Some(a), retries)
            } else {
                None
            },
            None => None,
        }
    } else if is_option(ts, i, "retries"@) && retries is None && i + 3 < ts.len() && ts[i + 3]
        == MacroToken::Punct(',') {
        match int_lit_value(ts[i + 2]) {
            Some(n) => parse_client_from(ts, i + 4, name, auth, Some(n)),
            None => None,
        }
    } else if ts[i] == MacroToken::Open('{') {
        match parse_endpoints(ts, i + 1, seq![]) {
            Some((eps, j)) => if j == ts.len() || (j + 1 == ts.len() && ts[j] == MacroToken::Punct(',')) {
                Some(ClientModel { name, auth, retries, endpoints: eps })
            } else {
                None
            },
            None => None,
        }
    } else {
        None
    }
}

/// A client definition: its name and a comma, then the rest.
pub open spec fn client_def_spec(ts: Seq<MacroToken>) -> Option<ClientModel> {
    if ts.len() >= 2 && ts[1] == MacroToken::Punct(',') {
        match ts[0] {
            MacroToken::Ident(n) => parse_client_from(ts, 2, n@, None, None),
            _ => None,
        }
    } else {
        None
    }
}

pub open spec fn opt_view(o: Option<String>) -> Option<Seq<char>> {
    match o {
        Some(s) => Some(s@),
        None => None,
    }
}

/// The fields of an endpoint definition.
pub open spec fn def_fields(d: EndpointDef) -> EndpointFields {
    EndpointFields {
        method: Some(d.method),
        path: opt_view(d.path),
        res: opt_view(d.res),
        req: opt_view(d.req),
        path_params: opt_view(d.path_params),
        query_params: opt_view(d.query_params),
        headers: opt_view(d.headers),
        fn_name: opt_view(d.fn_name),
        retries: d.retries,
    }
}

pub open spec fn auth_model(a: AuthStrategy) -> AuthModel {
    match a {
        AuthStrategy::Bearer => AuthModel::Bearer,
        AuthStrategy::Basic => AuthModel::Basic,
        AuthStrategy::ApiKey(h) => AuthModel::ApiKey(h@),
    }
}

/// A client definition as the grammar sees it.
pub open spec fn client_model(i: ApiClientInput) -> ClientModel {
    ClientModel {
        name: i.struct_name@,
        auth: match i.auth {
            Some(a) => Some(auth_model(a)),
            None => None,
        },
        retries: i.global_retries,
        endpoints: i.endpoints@.map_values(|d: EndpointDef| def_fields(d)),
    }
}

fn punct_at(ts: &Vec<MacroToken>, i: usize, c: char) -> (res: bool)
    ensures
        res == (i < ts@.len() && ts@[i as int] == MacroToken::Punct(c)),
{
    if i < ts.len() {
        match &ts[i] {
            MacroToken::Punct(d) => *d == c,
            _ => false,
        }
    } else {
        false
    }
}

fn open_at(ts: &Vec<MacroToken>, i: usize, c: char) -> (res: bool)
    ensures
        res == (i < ts@.len() && ts@[i as int] == MacroToken::Open(c)),
{
    if i < ts.len() {
        match &ts[i] {
            MacroToken::Open(d) => *d == c,
            _ => false,
        }
    } else {
        false
    }
}

fn close_at(ts: &Vec<MacroToken>, i: usize, c: char) -> (res: bool)
    ensures
        res == (i < ts@.len() && ts@[i as int] == MacroToken::Close(c)),
{
    if i < ts.len() {
        match &ts[i] {
            MacroToken::Close(d) => *d == c,
            _ => false,
        }
    } else {
        false
    }
}

/// The fields of an endpoint read so far.
struct PartialEndpoint {
    method: Option<HttpMethod>,
    path: Option<String>,
    res: Option<String>,
    req: Option<String>,
    path_params: Option<String>,
    query_params: Option<String>,
    headers: Option<String>,
    fn_name: Option<String>,
    retries: Option<u32>,
}

impl PartialEndpoint {
    spec fn fields(&self) -> EndpointFields {
        EndpointFields {
            method: self.method,
            path: opt_view(self.path),
            res: opt_view(self.res),
            req: opt_view(self.req),
            path_params: opt_view(self.path_params),
            query_params: opt_view(self.query_params),
            headers: opt_view(self.headers),
            fn_name: opt_view(self.fn_name),
            retries: self.retries,
        }
    }

    fn empty() -> (res: Self)
        ensures
            res.fields() == no_fields(),
    {
        PartialEndpoint {
            method: None,
            path: None,
            res: None,
            req: None,
            path_params: None,
            query_params: None,
            headers: None,
            fn_name: None,
            retries: None,
        }
    }

    fn slot_is_empty(&self, k: usize) -> (res: bool)
        requires
            k <= 6,
        ensures
            res == (get_slot(self.fields(), k as int) is None),
    {
        if k == 0 {
            self.path.is_none()
        } else if k == 1 {
            self.res.is_none()
        } else if k == 2 {
            self.req.is_none()
        } else if k == 3 {
            self.path_params.is_none()
        } else if k == 4 {
            self.query_params.is_none()
        } else if k == 5 {
            self.headers.is_none()
        } else {
            self.fn_name.is_none()
        }
    }

    fn set(self, k: usize, v: String) -> (res: Self)
        requires
            k <= 6,
        ensures
            res.fields() == set_slot(self.fields(), k as int, v@),
    {
        let mut f = self;
        if k == 0 {
            f.path = Some(v);
        } else if k == 1 {
            f.res = Some(v);
        } else if k == 2 {
            f.req = Some(v);
        } else if k == 3 {
            f.path_params = Some(v);
        } else if k == 4 {
            f.query_params = Some(v);
        } else if k == 5 {
            f.headers = Some(v);
        } else {
            f.fn_name = Some(v);
        }
        f
    }

    fn put(self, k: usize, v: String, next: usize) -> (res: Option<(Self, usize)>)
        requires
            k <= 6,
        ensures
            match put_text(self.fields(), k as int, v@, next as int) {
                Some((g, j)) => res matches Some(r) && r.0.fields() == g && r.1 == j,
                None => res is None,
            },
    {
        if self.slot_is_empty(k) {
            Some((self.set(k, v), next))
        } else {
            None
        }
    }
}

fn slot_of(key: &String) -> (res: Option<usize>)
    ensures
        match res {
            Some(k) => k <= 6 && k == text_slot(key@),
            None => text_slot(key@) == -1,
        },
{
    if same_text(key, "path") {
        Some(0)
    } else if same_text(key, "res") {
        Some(1)
    } else if same_text(key, "req") {
        Some(2)
    } else if same_text(key, "path_params") {
        Some(3)
    } else if same_text(key, "query_params") {
        Some(4)
    } else if same_text(key, "headers") {
        Some(5)
    } else if same_text(key, "fn_name") {
        Some(6)
    } else {
        None
    }
}

fn field(ts: &Vec<MacroToken>, i: usize, f: PartialEndpoint) -> (res: Option<(PartialEndpoint, usize)>)
    ensures
        match parse_field(ts@, i as int, f.fields()) {
            Some((g, j)) => res matches Some(r) && r.0.fields() == g && r.1 == j,
            None => res is None,
        },
{
    if i >= ts.len() || ts.len() - i <= 2 || !punct_at(ts, i + 1, ':') {
        return None;
    }
    let key = match &ts[i] {
        MacroToken::Ident(k) => k,
        _ => {
            return None;
        },
    };
    let v = &ts[i + 2];
    if same_text(key, "method") {
        match method_of(v) {
            Some(m) => {
                if f.method.is_none() {
                    let mut g = f;
                    g.method = Some(m);
                    Some((g, i + 3))
                } else {
                    None
                }
            },
            None => None,
        }
    } else if same_text(key, "retries") {
        match int_lit(v) {
            Some(n) => {
                if f.retries.is_none() {
                    let mut g = f;
                    g.retries = Some(n);
                    Some((g, i + 3))
                } else {
                    None
                }
            },
            None => None,
        }
    } else if same_text(key, "path") {
        match str_lit(v) {
            Some(p) => f.put(0, p, i + 3),
            None => None,
        }
    } else if same_text(key, "fn_name") {
        match v {
            MacroToken::Ident(n) => f.put(6, n.clone(), i + 3),
            _ => None,
        }
    } else {
        match slot_of(key) {
            Some(k) => {
                let e = type_end(ts, i + 2);
                if e > i + 2 {
                    proof {
                        assert(e <= ts@.len()) by {
                            lemma_scan_type_bound(ts@, i + 2, 0);
                        }
                    }
                    let text = render_range(ts, i + 2, e);
                    f.put(k, text, e)
                } else {
                    None
                }
            },
            None => None,
        }
    }
}

proof fn lemma_scan_type_bound(ts: Seq<MacroToken>, i: int, depth: nat)
    ensures
        scan_type(ts, i, depth) <= ts.len(),
    decreases ts.len() - i,
{
    if 0 <= i < ts.len() {
        lemma_scan_type_bound(ts, i + 1, depth + 1);
        lemma_scan_type_bound(ts, i + 1, depth);
        if depth > 0 {
            lemma_scan_type_bound(ts, i + 1, (depth - 1) as nat);
        }
    }
}

fn fields(ts: &Vec<MacroToken>, i: usize, f: PartialEndpoint) -> (res: Option<(PartialEndpoint, usize)>)
    ensures
        match parse_fields(ts@, i as int, f.fields()) {
            Some((g, j)) => res matches Some(r) && r.0.fields() == g && r.1 == j,
            None => res is None,
        },
    decreases ts@.len() - i,
{
    if i >= ts.len() {
        return None;
    }
    if close_at(ts, i, '}') {
        return Some((f, i + 1));
    }
    match field(ts, i, f) {
        Some((g, j)) => {
            if i < j && j < ts.len() {
                if punct_at(ts, j, ',') {
                    fields(ts, j + 1, g)
                } else if close_at(ts, j, '}') {
                    Some((g, j + 1))
                } else {
                    None
                }
            } else {
                None
            }
        },
        None => None,
    }
}

pub open spec fn defs_fields(v: Seq<EndpointDef>) -> Seq<EndpointFields> {
    v.map_values(|d: EndpointDef| def_fields(d))
}

fn finish(f: PartialEndpoint) -> (res: Option<EndpointDef>)
    ensures
        match f.fields().method {
            Some(_) => res matches Some(d) && def_fields(d) == f.fields(),
            None => res is None,
        },
{
    match f.method {
        Some(method) => Some(
            EndpointDef {
                method,
                path: f.path,
                res: f.res,
                req: f.req,
                path_params: f.path_params,
                query_params: f.query_params,
                headers: f.headers,
                fn_name: f.fn_name,
                retries: f.retries,
            },
        ),
        None => None,
    }
}

fn endpoints(ts: &Vec<MacroToken>, i: usize, acc: Vec<EndpointDef>) -> (res: Option<(Vec<EndpointDef>, usize)>)
    ensures
        match parse_endpoints(ts@, i as int, defs_fields(acc@)) {
            Some((eps, j)) => res matches Some(r) && defs_fields(r.0@) == eps && r.1 == j,
            None => res is None,
        },
    decreases ts@.len() - i,
{
    if i >= ts.len() {
        return None;
    }
    if close_at(ts, i, '}') {
        return Some((acc, i + 1));
    }
    if !open_at(ts, i, '{') {
        return None;
    }
    match fields(ts, i + 1, PartialEndpoint::empty()) {
        Some((f, j)) => {
            let ghost fv = f.fields();
            match finish(f) {
                Some(d) => {
                    if i < j && j < ts.len() {
                        let mut acc = acc;
                        let ghost before = acc@;
                        acc.push(d);
                        proof {
                            assert(defs_fields(acc@) =~= defs_fields(before).push(fv));
                        }
                        if punct_at(ts, j, ',') {
                            endpoints(ts, j + 1, acc)
                        } else if close_at(ts, j, '}') {
                            Some((acc, j + 1))
                        } else {
                            None
                        }
                    } else {
                        None
                    }
                },
                None => None,
            }
        },
        None => None,
    }
}

fn auth_at(ts: &Vec<MacroToken>, i: usize) -> (res: Option<(AuthStrategy, usize)>)
    ensures
        match parse_auth(ts@, i as int) {
            Some((a, j)) => res matches Some(r) && auth_model(r.0) == a && r.1 == j,
            None => res is None,
        },
{
    if i >= ts.len() {
        return None;
    }
    match &ts[i] {
        MacroToken::Ident(w) => {
            if same_text(w, "Bearer") {
                Some((AuthStrategy::Bearer, i + 1))
            } else if same_text(w, "Basic") {
                Some((AuthStrategy::Basic, i + 1))
            } else if same_text(w, "ApiKey") && ts.len() - i > 3 && open_at(ts, i + 1, '(')
                && close_at(ts, i + 3, ')') {
                match str_lit(&ts[i + 2]) {
                    Some(h) => Some((AuthStrategy::ApiKey(h), i + 4)),
                    None => None,
                }
            } else {
                None
            }
        },
        _ => None,
    }
}

fn option_at(ts: &Vec<MacroToken>, i: usize, word: &str) -> (res: bool)
    ensures
        res == is_option(ts@, i as int, word@),
{
    if i < ts.len() && ts.len() - i > 1 && punct_at(ts, i + 1, ':') {
        match &ts[i] {
            MacroToken::Ident(w) => same_text(w, word),
            _ => false,
        }
    } else {
        false
    }
}

fn client_from(
    ts: &Vec<MacroToken>,
    i: usize,
    name: String,
    auth: Option<AuthStrategy>,
    retries: Option<u32>,
) -> (res: Option<ApiClientInput>)
    ensures
        match parse_client_from(
            ts@,
            i as int,
            name@,
            match auth {
                Some(a) => Some(auth_model(a)),
                None => None,
            },
            retries,
        ) {
            Some(m) => res matches Some(r) && client_model(r) == m,
            None => res is None,
        },
    decreases ts@.len() - i,
{
    if i >= ts.len() {
        return None;
    }
    if option_at(ts, i, "auth") && auth.is_none() {
        match auth_at(ts, i + 2) {
            Some((a, j)) => {
                if i < j && j < ts.len() && punct_at(ts, j, ',') {
                    client_from(ts, j + 1, name, Some(a), retries)
                } else {
                    None
                }
            },
            None => None,
        }
    } else if option_at(ts, i, "retries") && retries.is_none() && ts.len() - i > 3 && punct_at(
        ts,
        i + 3,
        ',',
    ) {
        match int_lit(&ts[i + 2]) {
            Some(n) => client_from(ts, i + 4, name, auth, Some(n)),
            None => None,
        }
    } else if open_at(ts, i, '{') {
        let none: Vec<EndpointDef> = Vec::new();
        proof {
            assert(defs_fields(none@) =~= Seq::<EndpointFields>::empty());
        }
        match endpoints(ts, i + 1, none) {
            Some((eps, j)) => {
                if j == ts.len() || (j < ts.len() && ts.len() - j == 1 && punct_at(ts, j, ',')) {
                    let input = ApiClientInput {
                        struct_name: name,
                        endpoints: eps,
                        global_retries: retries,
                        auth,
                    };
                    proof {
                        assert(client_model(input).endpoints =~= defs_fields(eps@));
                    }
                    Some(input)
                } else {
                    None
                }
            },
            None => None,
        }
    } else {
        None
    }
}

/// Reads a client definition from the macro's input tokens.
pub fn parse_client_def(ts: &Vec<MacroToken>) -> (res: Result<ApiClientInput, InputError>)
    ensures
        res is Ok <==> client_def_spec(ts@) is Some,
        match client_def_spec(ts@) {
            Some(m) => res matches Ok(i) && client_model(i) == m,
            None => res == Err::<ApiClientInput, InputError>(InputError::Malformed),
        },
{
    if ts.len() < 2 || !punct_at(ts, 1, ',') {
        return Err(InputError::Malformed);
    }
    let name = match &ts[0] {
        MacroToken::Ident(n) => n.clone(),
        _ => {
            return Err(InputError::Malformed);
        },
    };
    match client_from(ts, 2, name, None, None) {
        Some(input) => Ok(input),
        None => Err(InputError::Malformed),
    }
}

pub open spec fn all_have_method(eps: Seq<EndpointFields>) -> bool {
    forall|k: int| 0 <= k < eps.len() ==> (#[trigger] eps[k]).method is Some
}

proof fn lemma_endpoints_have_method(ts: Seq<MacroToken>, i: int, acc: Seq<EndpointFields>)
    requires
        all_have_method(acc),
    ensures
        parse_endpoints(ts, i, acc) matches Some((eps, _)) ==> all_have_method(eps),
    decreases ts.len() - i,
{
    if 0 <= i < ts.len() && ts[i] != MacroToken::Close('}') && ts[i] == MacroToken::Open('{') {
        match parse_fields(ts, i + 1, no_fields()) {
            Some((f, j)) => {
                if f.method is Some && i < j < ts.len() {
                    assert(all_have_method(acc.push(f))) by {
                        assert forall|k: int| 0 <= k < acc.push(f).len() implies (
                        #[trigger] acc.push(f)[k]).method is Some by {
                            if k < acc.len() {
                                assert(acc.push(f)[k] == acc[k]);
                            }
                        }
                    }
                    lemma_endpoints_have_method(ts, j + 1, acc.push(f));
                }
            },
            None => {},
        }
    }
}

proof fn lemma_client_from_has_methods(
    ts: Seq<MacroToken>,
    i: int,
    name: Seq<char>,
    auth: Option<AuthModel>,
    retries: Option<u32>,
)
    ensures
        parse_client_from(ts, i, name, auth, retries) matches Some(m) ==> all_have_method(m.endpoints),
    decreases ts.len() - i,
{
    if 0 <= i < ts.len() {
        if is_option(ts, i, "auth"@) && auth is None {
            match parse_auth(ts, i + 2) {
                Some((a, j)) => {
                    if i < j < ts.len() {
                        lemma_client_from_has_methods(ts, j + 1, name, Some(a), retries);
                    }
                },
                None => {},
            }
        } else if is_option(ts, i, "retries"@) && retries is None && i + 3 < ts.len() && ts[i + 3]
            == MacroToken::Punct(',') {
            match int_lit_value(ts[i + 2]) {
                Some(n) => lemma_client_from_has_methods(ts, i + 4, name, auth, Some(n)),
                None => {},
            }
        } else {
            lemma_endpoints_have_method(ts, i + 1, seq![]);
        }
    }
}

/// `method` is required: every endpoint of an accepted definition has one, so a
/// definition with an endpoint that lacks it is refused.
pub proof fn lemma_method_required(ts: Seq<MacroToken>)
    ensures
        client_def_spec(ts) matches Some(m) ==> all_have_method(m.endpoints),
{
    if ts.len() >= 2 && ts[1] == MacroToken::Punct(',') {
        match ts[0] {
            MacroToken::Ident(n) => lemma_client_from_has_methods(ts, 2, n@, None, None),
            _ => {},
        }
    }
}

/// A field whose key the grammar does not know refuses the endpoint.
pub proof fn lemma_unknown_field_refused(ts: Seq<MacroToken>, i: int, f: EndpointFields)
    requires
        0 <= i < ts.len(),
        ts[i] matches MacroToken::Ident(k) && text_slot(k@) == -1 && k@ != "method"@ && k@ != "retries"@,
    ensures
        parse_field(ts, i, f) is None,
{
}

/// The five method words name five different methods: `GET`, `POST`, `PUT`,
/// `DELETE` and `PATCH` give Get, Post, Put, Delete and Patch, and no other word
/// names a method.
pub proof fn lemma_method_words(w: String)
    ensures
        w@ == "GET"@ ==> method_word(MacroToken::Ident(w)) == Some(HttpMethod::Get),
        w@ == "POST"@ ==> method_word(MacroToken::Ident(w)) == Some(HttpMethod::Post),
        w@ == "PUT"@ ==> method_word(MacroToken::Ident(w)) == Some(HttpMethod::Put),
        w@ == "DELETE"@ ==> method_word(MacroToken::Ident(w)) == Some(HttpMethod::Delete),
        w@ == "PATCH"@ ==> method_word(MacroToken::Ident(w)) == Some(HttpMethod::Patch),
        method_word(MacroToken::Ident(w)) is Some ==> (w@ == "GET"@ || w@ == "POST"@ || w@ == "PUT"@
            || w@ == "DELETE"@ || w@ == "PATCH"@),
{
    reveal_strlit("GET");
    reveal_strlit("POST");
    reveal_strlit("PUT");
    reveal_strlit("DELETE");
    reveal_strlit("PATCH");
    assert("POST"@.len() != "GET"@.len());
    assert("PUT"@[1] != "GET"@[1]);
    assert("PUT"@.len() != "POST"@.len());
    assert("DELETE"@.len() != "GET"@.len() && "DELETE"@.len() != "POST"@.len());
    assert("DELETE"@.len() != "PUT"@.len());
    assert("PATCH"@.len() != "GET"@.len() && "PATCH"@.len() != "POST"@.len());
    assert("PATCH"@.len() != "PUT"@.len() && "PATCH"@.len() != "DELETE"@.len());
}

/// Two method words that name the same method are the same word.
pub proof fn lemma_method_words_distinct(a: String, b: String)
    requires
        method_word(MacroToken::Ident(a)) is Some,
        method_word(MacroToken::Ident(a)) == method_word(MacroToken::Ident(b)),
    ensures
        a@ == b@,
{
    lemma_method_words(a);
    lemma_method_words(b);
}

/// A `method: PATCH` field sets the endpoint's method to Patch (the client sends
/// PATCH), and the tokens after it start past the word.
pub proof fn lemma_patch_field(ts: Seq<MacroToken>, i: int, f: EndpointFields)
    requires
        0 <= i,
        i + 2 < ts.len(),
        ts[i] matches MacroToken::Ident(k) && k@ == "method"@,
        ts[i + 1] == MacroToken::Punct(':'),
        ts[i + 2] matches MacroToken::Ident(w) && w@ == "PATCH"@,
        f.method is None,
    ensures
        parse_field(ts, i, f) == Some((EndpointFields { method: Some(HttpMethod::Patch), ..f }, i + 3)),
{
    match ts[i + 2] {
        MacroToken::Ident(w) => lemma_method_words(w),
        _ => {},
    }
}

proof fn lemma_keys_distinct()
    ensures
        "path"@ != "method"@,
        "path"@ != "retries"@,
        "fn_name"@ != "method"@,
        "fn_name"@ != "retries"@,
        "fn_name"@ != "path"@,
        "res"@ != "method"@,
        "res"@ != "retries"@,
        "res"@ != "path"@,
        "res"@ != "fn_name"@,
        "req"@ != "method"@,
        "req"@ != "retries"@,
        "req"@ != "path"@,
        "req"@ != "fn_name"@,
        "req"@ != "res"@,
        "path_params"@ != "method"@,
        "path_params"@ != "retries"@,
        "path_params"@ != "path"@,
        "path_params"@ != "fn_name"@,
        "path_params"@ != "res"@,
        "path_params"@ != "req"@,
        "query_params"@ != "method"@,
        "query_params"@ != "retries"@,
        "query_params"@ != "path"@,
        "query_params"@ != "fn_name"@,
        "query_params"@ != "res"@,
        "query_params"@ != "req"@,
        "query_params"@ != "path_params"@,
        "headers"@ != "method"@,
        "headers"@ != "retries"@,
        "headers"@ != "path"@,
        "headers"@ != "fn_name"@,
        "headers"@ != "res"@,
        "headers"@ != "req"@,
        "headers"@ != "path_params"@,
        "headers"@ != "query_params"@,
        "retries"@ != "method"@,
{
    reveal_strlit("path");
    reveal_strlit("method");
    reveal_strlit("retries");
    reveal_strlit("fn_name");
    reveal_strlit("res");
    reveal_strlit("req");
    reveal_strlit("path_params");
    reveal_strlit("query_params");
    reveal_strlit("headers");
    assert("path"@.len() != "method"@.len());
    assert("path"@.len() != "retries"@.len());
    assert("fn_name"@[0] != "method"@[0]);
    assert("fn_name"@[0] != "retries"@[0]);
    assert("fn_name"@.len() != "path"@.len());
    assert("res"@.len() != "method"@.len());
    assert("res"@.len() != "retries"@.len());
    assert("res"@.len() != "path"@.len());
    assert("res"@.len() != "fn_name"@.len());
    assert("req"@.len() != "method"@.len());
    assert("req"@.len() != "retries"@.len());
    assert("req"@.len() != "path"@.len());
    assert("req"@.len() != "fn_name"@.len());
    assert("req"@[2] != "res"@[2]);
    assert("path_params"@.len() != "method"@.len());
    assert("path_params"@.len() != "retries"@.len());
    assert("path_params"@.len() != "path"@.len());
    assert("path_params"@.len() != "fn_name"@.len());
    assert("path_params"@.len() != "res"@.len());
    assert("path_params"@.len() != "req"@.len());
    assert("query_params"@.len() != "method"@.len());
    assert("query_params"@.len() != "retries"@.len());
    assert("query_params"@.len() != "path"@.len());
    assert("query_params"@.len() != "fn_name"@.len());
    assert("query_params"@.len() != "res"@.len());
    assert("query_params"@.len() != "req"@.len());
    assert("query_params"@.len() != "path_params"@.len());
    assert("headers"@.len() != "method"@.len());
    assert("headers"@[0] != "retries"@[0]);
    assert("headers"@.len() != "path"@.len());
    assert("headers"@[0] != "fn_name"@[0]);
    assert("headers"@.len() != "res"@.len());
    assert("headers"@.len() != "req"@.len());
    assert("headers"@.len() != "path_params"@.len());
    assert("headers"@.len() != "query_params"@.len());
    assert("retries"@.len() != "method"@.len());
}

/// A `path: "..."` field sets the endpoint's path to the text between the quotes.
pub proof fn lemma_path_field(ts: Seq<MacroToken>, i: int, f: EndpointFields, lit: String)
    requires
        0 <= i,
        i + 2 < ts.len(),
        ts[i] matches MacroToken::Ident(k) && k@ == "path"@,
        ts[i + 1] == MacroToken::Punct(':'),
        ts[i + 2] == MacroToken::Literal(lit),
        lit@.len() >= 2,
        lit@[0] == '"',
        lit@.last() == '"',
        f.path is None,
    ensures
        parse_field(ts, i, f) == Some(
            (EndpointFields { path: Some(lit@.subrange(1, lit@.len() - 1)), ..f }, i + 3),
        ),
{
    lemma_keys_distinct();
}

/// A `fn_name: name` field sets the method name to that identifier.
pub proof fn lemma_fn_name_field(ts: Seq<MacroToken>, i: int, f: EndpointFields, name: String)
    requires
        0 <= i,
        i + 2 < ts.len(),
        ts[i] matches MacroToken::Ident(k) && k@ == "fn_name"@,
        ts[i + 1] == MacroToken::Punct(':'),
        ts[i + 2] == MacroToken::Ident(name),
        f.fn_name is None,
    ensures
        parse_field(ts, i, f) == Some((EndpointFields { fn_name: Some(name@), ..f }, i + 3)),
{
    lemma_keys_distinct();
}

/// A type field whose type is one name followed by a comma stores that name in the
/// field its key names: `res`, `req`, `path_params`, `query_params` or `headers`.
pub proof fn lemma_type_field(ts: Seq<MacroToken>, i: int, f: EndpointFields, key: String, ty: String)
    requires
        0 <= i,
        i + 3 < ts.len(),
        ts[i] == MacroToken::Ident(key),
        ts[i + 1] == MacroToken::Punct(':'),
        ts[i + 2] == MacroToken::Ident(ty),
        ts[i + 3] == MacroToken::Punct(','),
        f.res is None && f.req is None && f.path_params is None && f.query_params is None
            && f.headers is None,
    ensures
        key@ == "res"@ ==> parse_field(ts, i, f) == Some((EndpointFields { res: Some(ty@), ..f }, i + 3)),
        key@ == "req"@ ==> parse_field(ts, i, f) == Some((EndpointFields { req: Some(ty@), ..f }, i + 3)),
        key@ == "path_params"@ ==> parse_field(ts, i, f) == Some(
            (EndpointFields { path_params: Some(ty@), ..f }, i + 3),
        ),
        key@ == "query_params"@ ==> parse_field(ts, i, f) == Some(
            (EndpointFields { query_params: Some(ty@), ..f }, i + 3),
        ),
        key@ == "headers"@ ==> parse_field(ts, i, f) == Some(
            (EndpointFields { headers: Some(ty@), ..f }, i + 3),
        ),
{
    lemma_keys_distinct();
    assert(scan_type(ts, i + 3, 0) == i + 3);
    assert(scan_type(ts, i + 2, 0) == i + 3);
    let one = ts.subrange(i + 2, i + 3);
    assert(one.drop_last() =~= Seq::<MacroToken>::empty());
    assert(one.last() == ts[i + 2]);
    assert(one.len() == 1);
    assert(render(one.drop_last()) == Seq::<char>::empty());
    assert(render(one) =~= ty@);
}

/// A decimal numeral of a `u32` reads back as that number: what `decimal` writes,
/// the `retries` literal reads.
pub proof fn lemma_int_literal_reads_decimal(s: String, n: u32)
    requires
        s@ == crate::client::decimal_spec(n as nat),
    ensures
        int_lit_value(MacroToken::Literal(s)) == Some(n),
{
    lemma_decimal_digits(n as nat);
}

proof fn lemma_decimal_digits(n: nat)
    ensures
        all_digits(crate::client::decimal_spec(n)),
        digits_value(crate::client::decimal_spec(n)) == n,
        crate::client::decimal_spec(n).len() > 0,
    decreases n,
{
    let d = crate::client::decimal_spec(n);
    if n < 10 {
        assert(d.drop_last() =~= Seq::<char>::empty());
        assert(digits_value(d.drop_last()) == 0);
        assert(d.last() == crate::client::digit_char(n as int));
        assert(crate::client::digit_char(n as int) as int == 48 + n);
    } else {
        lemma_decimal_digits(n / 10);
        let p = crate::client::decimal_spec(n / 10);
        assert(d.drop_last() =~= p);
        assert(d.last() == crate::client::digit_char((n % 10) as int));
        assert(crate::client::digit_char((n % 10) as int) as int == 48 + n % 10);
        assert(digits_value(d) == digits_value(p) * 10 + (n % 10));
        assert forall|k: int| 0 <= k < d.len() implies '0' <= #[trigger] d[k] <= '9' by {
            if k < p.len() {
                assert(d[k] == p[k]);
            }
        }
    }
}

/// A `retries: N` field sets the endpoint's retry count to N.
pub proof fn lemma_retries_field(ts: Seq<MacroToken>, i: int, f: EndpointFields, lit: String, n: u32)
    requires
        0 <= i,
        i + 2 < ts.len(),
        ts[i] matches MacroToken::Ident(k) && k@ == "retries"@,
        ts[i + 1] == MacroToken::Punct(':'),
        ts[i + 2] == MacroToken::Literal(lit),
        lit@ == crate::client::decimal_spec(n as nat),
        f.retries is None,
    ensures
        parse_field(ts, i, f) == Some((EndpointFields { retries: Some(n), ..f }, i + 3)),
{
    lemma_keys_distinct();
    lemma_int_literal_reads_decimal(lit, n);
}

/// `auth: Bearer`, `auth: Basic` and `auth: ApiKey("h")` give the three strategies,
/// the API key with the header name between the quotes.
pub proof fn lemma_auth_words(ts: Seq<MacroToken>, i: int, w: String)
    requires
        0 <= i < ts.len(),
        ts[i] == MacroToken::Ident(w),
    ensures
        w@ == "Bearer"@ ==> parse_auth(ts, i) == Some((AuthModel::Bearer, i + 1)),
        w@ == "Basic"@ ==> parse_auth(ts, i) == Some((AuthModel::Basic, i + 1)),
        w@ == "ApiKey"@ && i + 3 < ts.len() && ts[i + 1] == MacroToken::Open('(') && ts[i + 3]
            == MacroToken::Close(')') && str_lit_value(ts[i + 2]) is Some ==> parse_auth(ts, i) == Some(
            (AuthModel::ApiKey(str_lit_value(ts[i + 2])->0), i + 4),
        ),
{
    reveal_strlit("Bearer");
    reveal_strlit("Basic");
    reveal_strlit("ApiKey");
    assert("Basic"@.len() != "Bearer"@.len());
    assert("ApiKey"@[0] != "Bearer"@[0]);
    assert("ApiKey"@[0] != "Basic"@[0]);
}

} // verus!
