use beckon::error::MacroError;
use beckon::expanders::method::{derive_method_name, method_name, split_path};
use beckon::expanders::ApiClientExpander;
use beckon::input::{ApiClientInput, AuthStrategy, EndpointDef, HttpMethod};

fn endpoint(method: HttpMethod, path: Option<&str>) -> EndpointDef {
    EndpointDef::new(method, path.map(|p| p.to_string()))
}

fn client(name: &str, endpoints: Vec<EndpointDef>) -> ApiClientInput {
    ApiClientInput {
        struct_name: name.to_string(),
        endpoints,
        global_retries: None,
        auth: None,
    }
}

#[test]
fn validate_rejects_empty_endpoint_list() {
    let expander = ApiClientExpander::new(client("UserApi", vec![]));
    assert_eq!(expander.validate(), Err(MacroError::NoEndpointsConfigured));
    assert!(matches!(expander.expand(), Err(MacroError::NoEndpointsConfigured)));
}

#[test]
fn validate_accepts_one_endpoint() {
    let expander = ApiClientExpander::new(client("UserApi", vec![endpoint(HttpMethod::Get, Some("/users"))]));
    assert_eq!(expander.validate(), Ok(()));
    assert!(expander.expand().is_ok());
}

#[test]
fn new_keeps_the_definition() {
    let expander = ApiClientExpander::new(client("UserApi", vec![endpoint(HttpMethod::Get, None)]));
    assert_eq!(expander.input().struct_name, "UserApi");
    assert_eq!(expander.input().endpoints.len(), 1);
}

#[test]
fn generated_type_names() {
    let expander = ApiClientExpander::new(client("HttpProvider", vec![endpoint(HttpMethod::Get, None)]));
    assert_eq!(expander.error_name(), "HttpProviderError");
    assert_eq!(expander.trait_name(), "HttpProviderTrait");
    let plan = expander.expand().unwrap();
    assert_eq!(plan.struct_name, "HttpProvider");
    assert_eq!(plan.error_name, "HttpProviderError");
    assert_eq!(plan.trait_name, "HttpProviderTrait");
    assert_ne!(plan.error_name, plan.trait_name);
}

#[test]
fn derived_method_names_from_the_readme() {
    assert_eq!(derive_method_name(HttpMethod::Get, Some("/users")), "get_users");
    assert_eq!(derive_method_name(HttpMethod::Get, Some("/users/{id}")), "get_users_by_id");
    assert_eq!(derive_method_name(HttpMethod::Post, Some("/users")), "post_users");
    assert_eq!(derive_method_name(HttpMethod::Put, Some("/users/{id}")), "put_users_by_id");
    assert_eq!(derive_method_name(HttpMethod::Delete, Some("/users/{id}")), "delete_users_by_id");
    assert_eq!(derive_method_name(HttpMethod::Patch, Some("/users/{id}")), "patch_users_by_id");
    assert_eq!(derive_method_name(HttpMethod::Get, Some("/protected/data")), "get_protected_data");
}

#[test]
fn derived_method_names_of_the_provider_tests() {
    assert_eq!(
        derive_method_name(HttpMethod::Get, Some("/users/{user_id}/posts/{post_id}")),
        "get_users_posts_by_user_id_and_post_id"
    );
    assert_eq!(derive_method_name(HttpMethod::Get, None), "get");
    assert_eq!(derive_method_name(HttpMethod::Delete, Some("/delete")), "delete_delete");
    assert_eq!(derive_method_name(HttpMethod::Get, Some("/flaky-auth")), "get_flaky_auth");
    assert_eq!(derive_method_name(HttpMethod::Get, Some("/not-found")), "get_not_found");
}

#[test]
fn derived_method_name_edge_cases() {
    assert_eq!(derive_method_name(HttpMethod::Get, Some("")), "get");
    assert_eq!(derive_method_name(HttpMethod::Get, Some("/")), "get");
    assert_eq!(derive_method_name(HttpMethod::Get, Some("//users//")), "get_users");
    assert_eq!(derive_method_name(HttpMethod::Get, Some("/{id}")), "get_by_id");
    assert_eq!(derive_method_name(HttpMethod::Get, Some("/{}")), "get_by_");
    assert_eq!(derive_method_name(HttpMethod::Get, Some("/{")), "get_{");
}

#[test]
fn split_path_drops_empty_segments() {
    assert_eq!(split_path("/users/{id}/"), vec!["users".to_string(), "{id}".to_string()]);
    assert_eq!(split_path("a//b"), vec!["a".to_string(), "b".to_string()]);
    assert!(split_path("///").is_empty());
}

#[test]
fn fn_name_overrides_the_derived_name() {
    let mut def = endpoint(HttpMethod::Get, Some("/users/me"));
    assert_eq!(method_name(&def), "get_users_me");
    def.fn_name = Some("get_current_user".to_string());
    assert_eq!(method_name(&def), "get_current_user");
}

#[test]
fn retry_counts_follow_override_then_global_then_zero() {
    let mut no_retry = endpoint(HttpMethod::Get, Some("/no-retry"));
    no_retry.retries = Some(0);
    let mut five = endpoint(HttpMethod::Get, Some("/five"));
    five.retries = Some(5);
    let inherit = endpoint(HttpMethod::Get, Some("/flaky"));
    let mut input = client("Api", vec![no_retry.clone(), five.clone(), inherit.clone()]);
    input.global_retries = Some(3);
    let plan = ApiClientExpander::new(input).expand().unwrap();
    let counts: Vec<u32> = plan.methods.iter().map(|m| m.retry_count).collect();
    assert_eq!(counts, vec![0, 5, 3]);
    let indexes: Vec<usize> = plan.methods.iter().map(|m| m.endpoint_index).collect();
    assert_eq!(indexes, vec![0, 1, 2]);
    assert_eq!(plan.methods[2].fn_name, "get_flaky");

    let plain = client("Api", vec![inherit.clone()]);
    let plan = ApiClientExpander::new(plain).expand().unwrap();
    assert_eq!(plan.methods[0].retry_count, 0);
    assert_eq!(ApiClientExpander::retry_count(&inherit, None), 0);
    assert_eq!(ApiClientExpander::retry_count(&inherit, Some(2)), 2);
    assert_eq!(ApiClientExpander::retry_count(&five, Some(2)), 5);
}

#[test]
fn auth_adds_constructor_parameters() {
    let mk = |auth: Option<AuthStrategy>| {
        let mut input = client("Api", vec![endpoint(HttpMethod::Get, Some("/data"))]);
        input.auth = auth;
        ApiClientExpander::new(input).auth_params()
    };
    assert!(mk(None).is_empty());
    assert_eq!(mk(Some(AuthStrategy::Bearer)), vec!["token".to_string()]);
    assert_eq!(mk(Some(AuthStrategy::Basic)), vec!["username".to_string(), "password".to_string()]);
    assert_eq!(mk(Some(AuthStrategy::ApiKey("X-Api-Key".to_string()))), vec!["api_key".to_string()]);
}

#[test]
fn plan_of_a_provider_with_auth_and_retries() {
    let mut def = endpoint(HttpMethod::Get, Some("/flaky-auth"));
    def.res = Some("MyResponse".to_string());
    let mut input = client("AuthRetryProvider", vec![def]);
    input.auth = Some(AuthStrategy::Bearer);
    input.global_retries = Some(2);
    let plan = ApiClientExpander::new(input).expand().unwrap();
    assert_eq!(plan.methods.len(), 1);
    assert_eq!(plan.methods[0].fn_name, "get_flaky_auth");
    assert_eq!(plan.methods[0].retry_count, 2);
    assert_eq!(plan.auth_params, vec!["token".to_string()]);
    assert_eq!(plan.trait_name, "AuthRetryProviderTrait");
}

#[test]
fn method_signatures_follow_the_endpoint() {
    let mut put = endpoint(HttpMethod::Put, Some("/users/{id}"));
    put.path_params = Some("UserPathParams".to_string());
    put.req = Some("UpdateUserRequest".to_string());
    put.res = Some("User".to_string());
    let mut search = endpoint(HttpMethod::Get, Some("/search"));
    search.query_params = Some("SearchQueryParams".to_string());
    search.headers = Some("HeaderMap".to_string());
    let delete = endpoint(HttpMethod::Delete, Some("/users/{id}"));
    let plan = ApiClientExpander::new(client("ApiClient", vec![put, search, delete])).expand().unwrap();
    let p = |v: &[(&str, &str)]| v.iter().map(|(a, b)| (a.to_string(), b.to_string())).collect::<Vec<_>>();
    assert_eq!(plan.methods[0].params, p(&[("path_params", "&UserPathParams"), ("body", "&UpdateUserRequest")]));
    assert_eq!(plan.methods[0].return_type, "Result<User, ApiClientError>");
    assert_eq!(plan.methods[1].params, p(&[("query_params", "&SearchQueryParams"), ("headers", "HeaderMap")]));
    assert!(plan.methods[2].params.is_empty());
    assert_eq!(plan.methods[2].return_type, "Result<(), ApiClientError>");
}

#[test]
fn readme_example_plan() {
    let mut list = endpoint(HttpMethod::Get, Some("/users"));
    list.res = Some("Vec<User>".to_string());
    let mut one = endpoint(HttpMethod::Get, Some("/users/{id}"));
    one.path_params = Some("UserPath".to_string());
    one.res = Some("User".to_string());
    let mut create = endpoint(HttpMethod::Post, Some("/users"));
    create.req = Some("User".to_string());
    create.res = Some("User".to_string());
    let plan = ApiClientExpander::new(client("UserApi", vec![list, one, create])).expand().unwrap();
    assert_eq!(plan.item_order, vec!["UserApiError".to_string(), "UserApiTrait".to_string(), "UserApi".to_string()]);
    assert_eq!(
        plan.error_variants,
        vec!["Url".to_string(), "Request".to_string(), "Http".to_string(), "Deserialize".to_string()]
    );
    let names: Vec<&str> = plan.methods.iter().map(|m| m.fn_name.as_str()).collect();
    assert_eq!(names, vec!["get_users", "get_users_by_id", "post_users"]);
    assert_eq!(plan.methods[0].return_type, "Result<Vec<User>, UserApiError>");
    assert_eq!(plan.methods[1].params, vec![("path_params".to_string(), "&UserPath".to_string())]);
    assert_eq!(plan.methods[2].params, vec![("body".to_string(), "&User".to_string())]);
}

#[test]
fn validate_refuses_method_names_that_are_not_identifiers() {
    let ok = endpoint(HttpMethod::Get, Some("/users"));
    let bad = endpoint(HttpMethod::Get, Some("/v1.0/{id}"));
    let expander = ApiClientExpander::new(client("Api", vec![ok.clone(), bad.clone(), bad]));
    assert_eq!(expander.validate(), Err(MacroError::InvalidMethodName(1)));
    assert!(matches!(expander.expand(), Err(MacroError::InvalidMethodName(1))));
    let mut renamed = endpoint(HttpMethod::Get, Some("/v1.0/{id}"));
    renamed.fn_name = Some("get_v1".to_string());
    assert_eq!(ApiClientExpander::new(client("Api", vec![ok, renamed])).validate(), Ok(()));
}
