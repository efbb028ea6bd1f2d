//! Names of the generated client methods.
use vstd::prelude::*;
use vstd::string::StrSliceExecFns;
use vstd::string::StringExecFns;

use crate::input::{EndpointDef, HttpMethod};

verus! {

/// The lower-case name of an HTTP method, which starts every derived method name.
pub open spec fn method_prefix(method: HttpMethod) -> Seq<char> {
    match method {
        HttpMethod::Get => "get"@,
        HttpMethod::Post => "post"@,
        HttpMethod::Put => "put"@,
        HttpMethod::Delete => "delete"@,
        HttpMethod::Patch => "patch"@,
    }
}

/// `done` with `cur` added as a segment when `cur` is not empty.
pub open spec fn close_segment(done: Seq<Seq<char>>, cur: Seq<char>) -> Seq<Seq<char>> {
    if cur.len() > 0 {
        done.push(cur)
    } else {
        done
    }
}

/// Reading `path` from the left: the segments completed so far and the one in progress.
pub open spec fn split_state(path: Seq<char>) -> (Seq<Seq<char>>, Seq<char>)
    decreases path.len(),
{
    if path.len() == 0 {
        (seq![], seq![])
    } else {
        let (done, cur) = split_state(path.drop_last());
        if path.last() == '/' {
            (close_segment(done, cur), seq![])
        } else {
            (done, cur.push(path.last()))
        }
    }
}

/// The non-empty `/`-separated segments of a path, in order.
pub open spec fn path_segments(path: Seq<char>) -> Seq<Seq<char>> {
    close_segment(split_state(path).0, split_state(path).1)
}

/// A segment of the form `{name}`, which stands for a path parameter.
pub open spec fn is_param_segment(seg: Seq<char>) -> bool {
    seg.len() >= 2 && seg[0] == '{' && seg.last() == '}'
}

/// The name between the braces of a parameter segment.
pub open spec fn param_name(seg: Seq<char>) -> Seq<char> {
    seg.subrange(1, seg.len() - 1)
}

pub open spec fn ident_char(c: char) -> char {
    if c == '-' {
        '_'
    } else {
        c
    }
}

/// A literal segment as it appears in a method name: `-` becomes `_`.
pub open spec fn ident_part(seg: Seq<char>) -> Seq<char> {
    seg.map_values(|c: char| ident_char(c))
}

/// `_` and the literal segment, for each literal segment, in order.
pub open spec fn literal_suffix(segs: Seq<Seq<char>>) -> Seq<char>
    decreases segs.len(),
{
    if segs.len() == 0 {
        seq![]
    } else if is_param_segment(segs.last()) {
        literal_suffix(segs.drop_last())
    } else {
        literal_suffix(segs.drop_last()) + "_"@ + ident_part(segs.last())
    }
}

/// The names of the parameter segments, in order.
pub open spec fn param_names(segs: Seq<Seq<char>>) -> Seq<Seq<char>>
    decreases segs.len(),
{
    if segs.len() == 0 {
        seq![]
    } else if is_param_segment(segs.last()) {
        param_names(segs.drop_last()).push(param_name(segs.last()))
    } else {
        param_names(segs.drop_last())
    }
}

/// The parameter names joined by `_and_`.
pub open spec fn join_params(names: Seq<Seq<char>>) -> Seq<char>
    decreases names.len(),
{
    if names.len() == 0 {
        seq![]
    } else if names.len() == 1 {
        names[0]
    } else {
        join_params(names.drop_last()) + "_and_"@ + names.last()
    }
}

/// `_by_` and the joined parameter names, when there is a parameter.
pub open spec fn params_suffix(names: Seq<Seq<char>>) -> Seq<char> {
    if names.len() == 0 {
        seq![]
    } else {
        "_by_"@ + join_params(names)
    }
}

/// The method name derived from an HTTP method and an optional path:
/// `GET /users` gives `get_users`, `GET /users/{id}` gives `get_users_by_id`.
pub open spec fn derived_method_name(method: HttpMethod, path: Option<Seq<char>>) -> Seq<char> {
    let segs = match path {
        Some(p) => path_segments(p),
        None => seq![],
    };
    method_prefix(method) + literal_suffix(segs) + params_suffix(param_names(segs))
}

/// The name of the generated method of an endpoint: its `fn_name` when it has one,
/// else the name derived from its method and path.
pub open spec fn method_name_spec(def: EndpointDef) -> Seq<char> {
    match def.fn_name {
        Some(name) => name@,
        None => derived_method_name(
            def.method,
            match def.path {
                Some(p) => Some(p@),
                None => None,
            },
        ),
    }
}

pub open spec fn views(v: Seq<String>) -> Seq<Seq<char>> {
    v.map_values(|s: String| s@)
}

fn prefix_of(method: HttpMethod) -> (res: String)
    ensures
        res@ == method_prefix(method),
{
    match method {
        HttpMethod::Get => String::from_str("get"),
        HttpMethod::Post => String::from_str("post"),
        HttpMethod::Put => String::from_str("put"),
        HttpMethod::Delete => String::from_str("delete"),
        HttpMethod::Patch => String::from_str("patch"),
    }
}

/// Splits a path into its non-empty `/`-separated segments.
pub fn split_path(path: &str) -> (segs: Vec<String>)
    ensures
        views(segs@) == path_segments(path@),
{
    let n = path.unicode_len();
    let mut done: Vec<String> = Vec::new();
    let mut cur = String::new();
    let mut i: usize = 0;
    while i < n
        invariant
            n == path@.len(),
            i <= n,
            (views(done@), cur@) == split_state(path@.take(i as int)),
        decreases n - i,
    {
        let c = path.get_char(i);
        proof {
            assert(path@.take(i + 1).drop_last() =~= path@.take(i as int));
        }
        if c == '/' {
            if !cur.as_str().is_empty() {
                let ghost before = done@;
                done.push(cur);
                proof {
                    assert(views(done@) =~= views(before).push(split_state(path@.take(i as int)).1));
                }
            }
            cur = String::new();
        } else {
            cur.push(c);
        }
        i += 1;
    }
    proof {
        assert(path@.take(n as int) =~= path@);
    }
    if !cur.as_str().is_empty() {
        let ghost before = done@;
        done.push(cur);
        proof {
            assert(views(done@) =~= views(before).push(split_state(path@).1));
        }
    }
    done
}

fn ident_part_of(seg: &str) -> (res: String)
    ensures
        res@ == ident_part(seg@),
{
    let n = seg.unicode_len();
    let mut res = String::new();
    let mut i: usize = 0;
    while i < n
        invariant
            n == seg@.len(),
            i <= n,
            res@ =~= ident_part(seg@.take(i as int)),
        decreases n - i,
    {
        let c = seg.get_char(i);
        if c == '-' {
            res.push('_');
        } else {
            res.push(c);
        }
        proof {
            assert(ident_part(seg@.take(i + 1)) =~= ident_part(seg@.take(i as int)).push(ident_char(c)));
        }
        i += 1;
    }
    proof {
        assert(seg@.take(n as int) =~= seg@);
    }
    res
}

fn is_param(seg: &str) -> (res: bool)
    ensures
        res == is_param_segment(seg@),
{
    let n = seg.unicode_len();
    n >= 2 && seg.get_char(0) == '{' && seg.get_char(n - 1) == '}'
}

/// The method name derived from an HTTP method and an optional path.
pub fn derive_method_name(method: HttpMethod, path: Option<&str>) -> (res: String)
    ensures
        res@ == derived_method_name(
            method,
            match path {
                Some(p) => Some(p@),
                None => None,
            },
        ),
{
    let segs = match path {
        Some(p) => split_path(p),
        None => Vec::new(),
    };
    let ghost sv = views(segs@);
    let mut name = prefix_of(method);
    let mut params: Vec<String> = Vec::new();
    let mut j: usize = 0;
    while j < segs.len()
        invariant
            sv == views(segs@),
            j <= segs@.len(),
            name@ == method_prefix(method) + literal_suffix(sv.take(j as int)),
            views(params@) == param_names(sv.take(j as int)),
        decreases segs@.len() - j,
    {
        let seg = segs[j].as_str();
        proof {
            assert(sv.take(j + 1).drop_last() =~= sv.take(j as int));
            assert(sv.take(j + 1).last() == seg@);
        }
        if is_param(seg) {
            let n = seg.unicode_len();
            let inner = String::from_str(seg.substring_char(1, n - 1));
            let ghost before = params@;
            params.push(inner);
            proof {
                assert(views(params@) =~= views(before).push(param_name(seg@)));
            }
        } else {
            let part = ident_part_of(seg);
            name.append("_");
            name.append(part.as_str());
            proof {
                assert(name@ =~= method_prefix(method) + (literal_suffix(sv.take(j as int)) + "_"@
                    + ident_part(seg@)));
            }
        }
        j += 1;
    }
    proof {
        assert(sv.take(segs@.len() as int) =~= sv);
    }
    let ghost pv = views(params@);
    if params.len() > 0 {
        name.append("_by_");
        let mut k: usize = 0;
        while k < params.len()
            invariant
                pv == views(params@),
                0 < pv.len(),
                k <= params@.len(),
                name@ == method_prefix(method) + literal_suffix(sv) + "_by_"@ + join_params(pv.take(k as int)),
            decreases params@.len() - k,
        {
            proof {
                assert(pv.take(k + 1).drop_last() =~= pv.take(k as int));
                assert(pv.take(k + 1).last() == params@[k as int]@);
            }
            if k > 0 {
                name.append("_and_");
            }
            name.append(params[k].as_str());
            proof {
                if k == 0 {
                    assert(join_params(pv.take(0)) =~= Seq::<char>::empty());
                    assert(join_params(pv.take(1)) == pv.take(1)[0]);
                }
            }
            k += 1;
        }
        proof {
            assert(pv.take(params@.len() as int) =~= pv);
        }
    }
    name
}

/// The name of the generated method of an endpoint.
pub fn method_name(def: &EndpointDef) -> (res: String)
    ensures
        res@ == method_name_spec(*def),
{
    match &def.fn_name {
        Some(name) => name.clone(),
        None => match &def.path {
            Some(p) => derive_method_name(def.method, Some(p.as_str())),
            None => derive_method_name(def.method, None),
        },
    }
}

pub open spec fn ident_start(c: char) -> bool {
    ('a' <= c <= 'z') || ('A' <= c <= 'Z') || c == '_'
}

pub open spec fn ident_continue(c: char) -> bool {
    ident_start(c) || ('0' <= c <= '9')
}

/// An ASCII Rust identifier: a letter or `_`, then letters, digits and `_`;
/// `_` alone is not one.
pub open spec fn is_ident(s: Seq<char>) -> bool {
    &&& s.len() > 0
    &&& ident_start(s[0])
    &&& forall|k: int| 0 <= k < s.len() ==> ident_continue(#[trigger] s[k])
    &&& !(s.len() == 1 && s[0] == '_')
}

fn start_char(c: char) -> (res: bool)
    ensures
        res == ident_start(c),
{
    (c >= 'a' && c <= 'z') || (c >= 'A' && c <= 'Z') || c == '_'
}

/// Whether a name is an ASCII Rust identifier.
pub fn check_ident(s: &str) -> (res: bool)
    ensures
        res == is_ident(s@),
{
    let n = s.unicode_len();
    if n == 0 {
        return false;
    }
    let first = s.get_char(0);
    if !start_char(first) {
        return false;
    }
    if n == 1 && first == '_' {
        return false;
    }
    let mut k: usize = 0;
    while k < n
        invariant
            n == s@.len(),
            k <= n,
            forall|m: int| 0 <= m < k ==> ident_continue(#[trigger] s@[m]),
        decreases n - k,
    {
        let c = s.get_char(k);
        if !(start_char(c) || (c >= '0' && c <= '9')) {
            return false;
        }
        k += 1;
    }
    true
}

/// A name is an identifier exactly when it is a non-empty run of ASCII letters,
/// digits and `_` that does not start with a digit and is not `_` alone,
/// whatever its length.
pub proof fn lemma_ident_shape(s: Seq<char>)
    ensures
        is_ident(s) <==> {
            &&& s.len() > 0
            &&& ('a' <= s[0] <= 'z' || 'A' <= s[0] <= 'Z' || s[0] == '_')
            &&& forall|k: int|
                0 <= k < s.len() ==> ('a' <= #[trigger] s[k] <= 'z' || 'A' <= s[k] <= 'Z' || '0' <= s[k]
                    <= '9' || s[k] == '_')
            &&& !(s.len() == 1 && s[0] == '_')
        },
{
}

} // verus!
