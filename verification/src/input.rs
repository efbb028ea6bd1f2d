use vstd::prelude::*;

verus! {

/// The HTTP method of an endpoint.
#[derive(Debug, Clone, Copy, PartialEq, Eq, Structural)]
pub enum HttpMethod {
    Get,
    Post,
    Put,
    Delete,
    Patch,
}

/// How the generated client authenticates every request.
#[derive(Debug, Clone)]
pub enum AuthStrategy {
    /// `Authorization: Bearer <token>`.
    Bearer,
    /// `Authorization: Basic <base64>`.
    Basic,
    /// A custom header, named by the string, that carries an API key.
    ApiKey(String),
}

/// One endpoint of a client definition.
///
/// Types (`res`, `req`, `path_params`, `query_params`, `headers`) are held as
/// the source text of the type; the expander only carries them through.
#[derive(Debug, Clone)]
pub struct EndpointDef {
    pub method: HttpMethod,
    pub path: Option<String>,
    pub res: Option<String>,
    pub req: Option<String>,
    pub path_params: Option<String>,
    pub query_params: Option<String>,
    pub headers: Option<String>,
    pub fn_name: Option<String>,
    pub retries: Option<u32>,
}

/// A whole client definition: its name, its endpoints and its client-wide settings.
#[derive(Debug, Clone)]
pub struct ApiClientInput {
    pub struct_name: String,
    pub endpoints: Vec<EndpointDef>,
    pub global_retries: Option<u32>,
    pub auth: Option<AuthStrategy>,
}

impl EndpointDef {
    /// An endpoint with the given method and path and every optional field unset.
    pub fn new(method: HttpMethod, path: Option<String>) -> (res: EndpointDef)
        ensures
            res.method == method,
            res.path == path,
            res.res is None,
            res.req is None,
            res.path_params is None,
            res.query_params is None,
            res.headers is None,
            res.fn_name is None,
            res.retries is None,
    {
        EndpointDef {
            method,
            path,
            res: None,
            req: None,
            path_params: None,
            query_params: None,
            headers: None,
            fn_name: None,
            retries: None,
        }
    }
}

} // verus!
