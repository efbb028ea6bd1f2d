use vstd::prelude::*;
use vstd::string::StringExecFns;

use crate::error::{MacroError, MacroResult};
use crate::input::{ApiClientInput, AuthStrategy, EndpointDef};

pub mod method;

use self::method::{check_ident, is_ident, method_name, method_name_spec, views};
use crate::client::{error_variant_names, error_variants};
use crate::runtime::pair_views;

verus! {

/// The name of the generated error enum: the client's name followed by `Error`.
pub open spec fn error_name_spec(struct_name: Seq<char>) -> Seq<char> {
    struct_name + "Error"@
}

/// The name of the generated mocking trait: the client's name followed by `Trait`.
pub open spec fn trait_name_spec(struct_name: Seq<char>) -> Seq<char> {
    struct_name + "Trait"@
}

/// The retry count of an endpoint: its own `retries` when set, else the client-wide
/// `retries`, else no retry.
pub open spec fn retry_count_spec(def: EndpointDef, global_retries: Option<u32>) -> u32 {
    match def.retries {
        Some(r) => r,
        None => match global_retries {
            Some(g) => g,
            None => 0,
        },
    }
}

/// The names of the constructor parameters, and of the client's fields, that an
/// auth strategy adds; none without auth.
pub open spec fn auth_param_names(auth: Option<AuthStrategy>) -> Seq<Seq<char>> {
    match auth {
        Some(AuthStrategy::Bearer) => seq!["token"@],
        Some(AuthStrategy::Basic) => seq!["username"@, "password"@],
        Some(AuthStrategy::ApiKey(_)) => seq!["api_key"@],
        None => seq![],
    }
}

/// One parameter of a generated method, when the endpoint has the type.
pub open spec fn opt_param(name: Seq<char>, by_ref: bool, ty: Option<String>) -> Seq<(Seq<char>, Seq<char>)> {
    match ty {
        Some(t) => seq![(name, if by_ref { "&"@ + t@ } else { t@ })],
        None => seq![],
    }
}

/// The parameters of the method of an endpoint (after `&self`), in order, as
/// (name, type): `path_params: &P`, `query_params: &Q`, `body: &Req`, `headers: H`,
/// each present when the endpoint has that type.
pub open spec fn method_params_spec(def: EndpointDef) -> Seq<(Seq<char>, Seq<char>)> {
    opt_param("path_params"@, true, def.path_params) + opt_param("query_params"@, true, def.query_params)
        + opt_param("body"@, true, def.req) + opt_param("headers"@, false, def.headers)
}

/// The return type of the method of an endpoint: `Result<Res, {N}Error>`, with
/// `()` when the endpoint has no response type.
pub open spec fn return_type_spec(def: EndpointDef, error_name: Seq<char>) -> Seq<char> {
    let res = match def.res {
        Some(r) => r@,
        None => "()"@,
    };
    "Result<"@ + res + ", "@ + error_name + ">"@
}

/// The plan of one generated method, which the trait declares and the client
/// implements with the same signature.
#[derive(Debug)]
pub struct MethodPlan {
    /// The position of its endpoint in the client definition.
    pub endpoint_index: usize,
    /// The name of the method.
    pub fn_name: String,
    /// Its parameters after `&self`, as (name, type).
    pub params: Vec<(String, String)>,
    /// Its return type.
    pub return_type: String,
    /// How many times a failed request is retried.
    pub retry_count: u32,
}

/// The plan of a whole generated client.
#[derive(Debug)]
pub struct ClientPlan {
    pub struct_name: String,
    pub error_name: String,
    pub trait_name: String,
    pub methods: Vec<MethodPlan>,
    pub auth_params: Vec<String>,
    /// The variants of the error enum, in order.
    pub error_variants: Vec<String>,
    /// The names of the generated items in the order they are emitted: the error
    /// enum, the trait, then the client struct with its impls.
    pub item_order: Vec<String>,
}

/// `methods` plans the endpoints of `input` one for one, in order.
pub open spec fn methods_match(methods: Seq<MethodPlan>, input: ApiClientInput) -> bool {
    &&& methods.len() == input.endpoints@.len()
    &&& forall|i: int|
        0 <= i < methods.len() ==> {
            &&& (#[trigger] methods[i]).endpoint_index == i
            &&& methods[i].fn_name@ == method_name_spec(input.endpoints@[i])
            &&& methods[i].retry_count == retry_count_spec(input.endpoints@[i], input.global_retries)
            &&& pair_views(methods[i].params@) == method_params_spec(input.endpoints@[i])
            &&& methods[i].return_type@ == return_type_spec(
                input.endpoints@[i],
                error_name_spec(input.struct_name@),
            )
        }
}

fn push_param(params: &mut Vec<(String, String)>, name: &str, by_ref: bool, ty: &Option<String>)
    ensures
        pair_views(final(params)@) == pair_views(old(params)@) + opt_param(name@, by_ref, *ty),
{
    let ghost before = params@;
    match ty {
        Some(t) => {
            let text = if by_ref {
                String::from_str("&").concat(t.as_str())
            } else {
                t.clone()
            };
            params.push((String::from_str(name), text));
            proof {
                assert(pair_views(params@) =~= pair_views(before) + opt_param(name@, by_ref, *ty));
            }
        },
        None => {
            proof {
                assert(pair_views(params@) =~= pair_views(before) + opt_param(name@, by_ref, *ty));
            }
        },
    }
}

/// The parameters of the method of an endpoint.
pub fn method_params(def: &EndpointDef) -> (res: Vec<(String, String)>)
    ensures
        pair_views(res@) == method_params_spec(*def),
{
    let mut params: Vec<(String, String)> = Vec::new();
    proof {
        assert(pair_views(params@) =~= Seq::<(Seq<char>, Seq<char>)>::empty());
    }
    push_param(&mut params, "path_params", true, &def.path_params);
    push_param(&mut params, "query_params", true, &def.query_params);
    push_param(&mut params, "body", true, &def.req);
    push_param(&mut params, "headers", false, &def.headers);
    proof {
        assert(pair_views(params@) =~= method_params_spec(*def));
    }
    params
}

/// The return type of the method of an endpoint.
pub fn return_type(def: &EndpointDef, error_name: &String) -> (res: String)
    ensures
        res@ == return_type_spec(*def, error_name@),
{
    let res_text = match &def.res {
        Some(r) => r.clone(),
        None => String::from_str("()"),
    };
    String::from_str("Result<").concat(res_text.as_str()).concat(", ").concat(error_name.as_str()).concat(">")
}

/// The check of a client definition: it needs an endpoint, and each endpoint's
/// method name must be a Rust identifier (the first that is not is reported).
pub open spec fn validation_spec(input: ApiClientInput) -> MacroResult<()> {
    if input.endpoints@.len() == 0 {
        Err(MacroError::NoEndpointsConfigured)
    } else if exists|k: int|
        0 <= k < input.endpoints@.len() && !is_ident(method_name_spec(#[trigger] input.endpoints@[k])) {
        Err(
            MacroError::InvalidMethodName(
                (choose|k: int|
                    0 <= k < input.endpoints@.len() && !is_ident(
                        method_name_spec(#[trigger] input.endpoints@[k]),
                    ) && forall|m: int|
                        0 <= m < k ==> is_ident(method_name_spec(#[trigger] input.endpoints@[m]))) as usize,
            ),
        )
    } else {
        Ok(())
    }
}

/// Turns a client definition into the plan of the generated client.
pub struct ApiClientExpander {
    input: ApiClientInput,
}

impl ApiClientExpander {
    /// The client definition that this expander works on.
    pub closed spec fn input_model(&self) -> ApiClientInput {
        self.input
    }

    pub fn new(input: ApiClientInput) -> (res: Self)
        ensures
            res.input_model() == input,
    {
        Self { input }
    }

    /// The client definition that this expander works on.
    pub fn input(&self) -> (res: &ApiClientInput)
        ensures
            *res == self.input_model(),
    {
        &self.input
    }

    /// A definition is accepted exactly when it lists at least one endpoint and
    /// every method name is a Rust identifier.
    pub fn validate(&self) -> (res: MacroResult<()>)
        ensures
            res == validation_spec(self.input_model()),
    {
        if self.input.endpoints.len() == 0 {
            return Err(MacroError::NoEndpointsConfigured);
        }
        let mut k: usize = 0;
        while k < self.input.endpoints.len()
            invariant
                k <= self.input.endpoints@.len(),
                forall|m: int|
                    0 <= m < k ==> is_ident(method_name_spec(#[trigger] self.input.endpoints@[m])),
            decreases self.input.endpoints@.len() - k,
        {
            let name = method_name(&self.input.endpoints[k]);
            if !check_ident(name.as_str()) {
                proof {
                    let w = choose|j: int|
                        0 <= j < self.input.endpoints@.len() && !is_ident(
                            method_name_spec(#[trigger] self.input.endpoints@[j]),
                        ) && forall|m: int|
                            0 <= m < j ==> is_ident(method_name_spec(#[trigger] self.input.endpoints@[m]));
                    assert(0 <= k < self.input.endpoints@.len() && !is_ident(
                        method_name_spec(self.input.endpoints@[k as int]),
                    ) && forall|m: int|
                        0 <= m < k ==> is_ident(method_name_spec(#[trigger] self.input.endpoints@[m])));
                    if w < k {
                        assert(is_ident(method_name_spec(self.input.endpoints@[w])));
                    } else if w > k {
                        assert(is_ident(method_name_spec(self.input.endpoints@[k as int])));
                    }
                    assert(w == k);
                }
                return Err(MacroError::InvalidMethodName(k));
            }
            k += 1;
        }
        Ok(())
    }

    /// The name of the generated error enum.
    pub fn error_name(&self) -> (res: String)
        ensures
            res@ == error_name_spec(self.input_model().struct_name@),
    {
        self.input.struct_name.clone().concat("Error")
    }

    /// The name of the generated mocking trait.
    pub fn trait_name(&self) -> (res: String)
        ensures
            res@ == trait_name_spec(self.input_model().struct_name@),
    {
        self.input.struct_name.clone().concat("Trait")
    }

    /// The retry count of one endpoint.
    pub fn retry_count(def: &EndpointDef, global_retries: Option<u32>) -> (res: u32)
        ensures
            res == retry_count_spec(*def, global_retries),
    {
        let global = match global_retries {
            Some(g) => g,
            None => 0,
        };
        match def.retries {
            Some(r) => r,
            None => global,
        }
    }

    /// One method plan per endpoint, in order: its name and its retry count.
    pub fn expand_methods(&self) -> (res: Vec<MethodPlan>)
        ensures
            methods_match(res@, self.input_model()),
    {
        let error_name = self.error_name();
        let mut res: Vec<MethodPlan> = Vec::new();
        let mut i: usize = 0;
        while i < self.input.endpoints.len()
            invariant
                i <= self.input.endpoints@.len(),
                res@.len() == i,
                error_name@ == error_name_spec(self.input.struct_name@),
                forall|k: int|
                    0 <= k < i ==> {
                        &&& (#[trigger] res@[k]).endpoint_index == k
                        &&& res@[k].fn_name@ == method_name_spec(self.input.endpoints@[k])
                        &&& res@[k].retry_count == retry_count_spec(
                            self.input.endpoints@[k],
                            self.input.global_retries,
                        )
                        &&& pair_views(res@[k].params@) == method_params_spec(self.input.endpoints@[k])
                        &&& res@[k].return_type@ == return_type_spec(self.input.endpoints@[k], error_name@)
                    },
            decreases self.input.endpoints@.len() - i,
        {
            let def = &self.input.endpoints[i];
            let plan = MethodPlan {
                endpoint_index: i,
                fn_name: method_name(def),
                params: method_params(def),
                return_type: return_type(def, &error_name),
                retry_count: Self::retry_count(def, self.input.global_retries),
            };
            res.push(plan);
            i += 1;
        }
        res
    }

    /// The constructor parameters (and client fields) that the auth strategy adds.
    pub fn auth_params(&self) -> (res: Vec<String>)
        ensures
            views(res@) == auth_param_names(self.input_model().auth),
    {
        let res = match &self.input.auth {
            Some(AuthStrategy::Bearer) => vec![String::from_str("token")],
            Some(AuthStrategy::Basic) => vec![String::from_str("username"), String::from_str("password")],
            Some(AuthStrategy::ApiKey(_)) => vec![String::from_str("api_key")],
            None => Vec::new(),
        };
        proof {
            assert(views(res@) =~= auth_param_names(self.input.auth));
        }
        res
    }

    /// The plan of the whole client, or the reason the definition is refused.
    pub fn expand(&self) -> (res: MacroResult<ClientPlan>)
        ensures
            res is Err <==> validation_spec(self.input_model()) is Err,
            res matches Err(e) ==> validation_spec(self.input_model()) == Err::<(), MacroError>(e),
            res matches Ok(plan) ==> {
                &&& plan.struct_name@ == self.input_model().struct_name@
                &&& plan.error_name@ == error_name_spec(self.input_model().struct_name@)
                &&& plan.trait_name@ == trait_name_spec(self.input_model().struct_name@)
                &&& methods_match(plan.methods@, self.input_model())
                &&& views(plan.auth_params@) == auth_param_names(self.input_model().auth)
                &&& views(plan.error_variants@) == error_variant_names()
                &&& views(plan.item_order@) == seq![
                    error_name_spec(self.input_model().struct_name@),
                    trait_name_spec(self.input_model().struct_name@),
                    self.input_model().struct_name@,
                ]
            },
    {
        self.validate()?;
        let error_name = self.error_name();
        let trait_name = self.trait_name();
        let methods = self.expand_methods();
        let auth_params = self.auth_params();
        let item_order = vec![error_name.clone(), trait_name.clone(), self.input.struct_name.clone()];
        proof {
            assert(views(item_order@) =~= seq![error_name@, trait_name@, self.input.struct_name@]);
        }
        Ok(ClientPlan {
            error_variants: error_variants(),
            item_order,
            struct_name: self.input.struct_name.clone(),
            error_name,
            trait_name,
            methods,
            auth_params,
        })
    }
}

/// The generated client, error enum and trait have three different names.
pub proof fn lemma_generated_names_distinct(struct_name: Seq<char>)
    ensures
        error_name_spec(struct_name) != struct_name,
        trait_name_spec(struct_name) != struct_name,
        error_name_spec(struct_name) != trait_name_spec(struct_name),
{
    reveal_strlit("Error");
    reveal_strlit("Trait");
    let n = struct_name.len() as int;
    assert(error_name_spec(struct_name).len() == n + 5);
    assert(trait_name_spec(struct_name)[n] == 'T');
    assert(error_name_spec(struct_name)[n] == 'E');
}

/// A definition with at least one endpoint whose method names are all
/// identifier-shaped (ASCII letters, digits and `_`, not starting with a digit,
/// not `_` alone, of any length) is accepted.
pub proof fn lemma_identifier_names_accepted(input: ApiClientInput)
    requires
        input.endpoints@.len() > 0,
        forall|e: int|
            0 <= e < input.endpoints@.len() ==> {
                let s = #[trigger] method_name_spec(input.endpoints@[e]);
                &&& s.len() > 0
                &&& ('a' <= s[0] <= 'z' || 'A' <= s[0] <= 'Z' || s[0] == '_')
                &&& forall|k: int|
                    0 <= k < s.len() ==> ('a' <= #[trigger] s[k] <= 'z' || 'A' <= s[k] <= 'Z' || '0'
                        <= s[k] <= '9' || s[k] == '_')
                &&& !(s.len() == 1 && s[0] == '_')
            },
    ensures
        validation_spec(input) == Ok::<(), MacroError>(()),
{
    assert forall|e: int| 0 <= e < input.endpoints@.len() implies is_ident(
        method_name_spec(#[trigger] input.endpoints@[e]),
    ) by {
        self::method::lemma_ident_shape(method_name_spec(input.endpoints@[e]));
    }
}

/// A definition without endpoints is refused as such; otherwise a refusal names
/// the first endpoint whose method name is not identifier-shaped.
pub proof fn lemma_validation_refusals(input: ApiClientInput)
    ensures
        input.endpoints@.len() == 0 ==> validation_spec(input) == Err::<(), MacroError>(
            MacroError::NoEndpointsConfigured,
        ),
        validation_spec(input) matches Err(MacroError::InvalidMethodName(k)) ==> {
            &&& 0 <= k < input.endpoints@.len()
            &&& !is_ident(method_name_spec(input.endpoints@[k as int]))
            &&& forall|m: int| 0 <= m < k ==> is_ident(method_name_spec(#[trigger] input.endpoints@[m]))
        },
{
    if input.endpoints@.len() > 0 && exists|k: int|
        0 <= k < input.endpoints@.len() && !is_ident(method_name_spec(#[trigger] input.endpoints@[k])) {
        let w = choose|k: int|
            0 <= k < input.endpoints@.len() && !is_ident(method_name_spec(#[trigger] input.endpoints@[k]));
        lemma_first_bad_exists(input, w);
        let c = choose|k: int|
            0 <= k < input.endpoints@.len() && !is_ident(
                method_name_spec(#[trigger] input.endpoints@[k]),
            ) && forall|m: int| 0 <= m < k ==> is_ident(method_name_spec(#[trigger] input.endpoints@[m]));
        assert(input.endpoints@.len() == input.endpoints.len());
        assert(c as usize as int == c);
    }
}

proof fn lemma_first_bad_exists(input: ApiClientInput, w: int)
    requires
        0 <= w < input.endpoints@.len(),
        !is_ident(method_name_spec(input.endpoints@[w])),
    ensures
        exists|k: int|
            0 <= k < input.endpoints@.len() && !is_ident(method_name_spec(#[trigger] input.endpoints@[k]))
                && forall|m: int| 0 <= m < k ==> is_ident(method_name_spec(#[trigger] input.endpoints@[m])),
    decreases w,
{
    if exists|m: int| 0 <= m < w && !is_ident(method_name_spec(#[trigger] input.endpoints@[m])) {
        let m = choose|m: int| 0 <= m < w && !is_ident(method_name_spec(#[trigger] input.endpoints@[m]));
        lemma_first_bad_exists(input, m);
    } else {
        assert(forall|m: int| 0 <= m < w ==> is_ident(method_name_spec(#[trigger] input.endpoints@[m])));
    }
}

} // verus!
