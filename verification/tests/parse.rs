use std::str::FromStr;

use beckon::input::{AuthStrategy, HttpMethod};
use beckon::parse::{parse_client_def, InputError, MacroToken};
use proc_macro2::{Delimiter, TokenStream, TokenTree};

fn flat(input: TokenStream, out: &mut Vec<MacroToken>) {
    for tt in input {
        match tt {
            TokenTree::Ident(i) => out.push(MacroToken::Ident(i.to_string())),
            TokenTree::Punct(p) => out.push(MacroToken::Punct(p.as_char())),
            TokenTree::Literal(l) => out.push(MacroToken::Literal(l.to_string())),
            TokenTree::Group(g) => {
                let d = match g.delimiter() {
                    Delimiter::Parenthesis => Some(('(', ')')),
                    Delimiter::Brace => Some(('{', '}')),
                    Delimiter::Bracket => Some(('[', ']')),
                    Delimiter::None => None,
                };
                if let Some((o, _)) = d {
                    out.push(MacroToken::Open(o));
                }
                flat(g.stream(), out);
                if let Some((_, c)) = d {
                    out.push(MacroToken::Close(c));
                }
            }
        }
    }
}

fn tokens(src: &str) -> Vec<MacroToken> {
    let mut out = Vec::new();
    flat(TokenStream::from_str(src).unwrap(), &mut out);
    out
}

#[test]
fn parses_the_readme_example() {
    let def = parse_client_def(&tokens(
        r#"UserApi, {
            { path: "/users", method: GET, res: Vec<User>, },
            { path: "/users/{id}", method: GET, path_params: UserPath, res: User, },
            { path: "/users", method: POST, req: User, res: User, },
        }"#,
    ))
    .unwrap();
    assert_eq!(def.struct_name, "UserApi");
    assert!(def.auth.is_none());
    assert_eq!(def.global_retries, None);
    assert_eq!(def.endpoints.len(), 3);
    assert_eq!(def.endpoints[0].method, HttpMethod::Get);
    assert_eq!(def.endpoints[0].path.as_deref(), Some("/users"));
    assert_eq!(def.endpoints[0].res.as_deref(), Some("Vec<User>"));
    assert_eq!(def.endpoints[1].path_params.as_deref(), Some("UserPath"));
    assert_eq!(def.endpoints[2].method, HttpMethod::Post);
    assert_eq!(def.endpoints[2].req.as_deref(), Some("User"));
}

#[test]
fn parses_auth_and_retries_in_either_order() {
    let def = parse_client_def(&tokens(
        r#"AuthRetryApi, auth: Bearer, retries: 2, { { path: "/flaky-auth", method: GET, res: MyResponse } }"#,
    ))
    .unwrap();
    assert!(matches!(def.auth, Some(AuthStrategy::Bearer)));
    assert_eq!(def.global_retries, Some(2));
    let def = parse_client_def(&tokens(
        r#"Api, retries: 3, auth: ApiKey("X-Api-Key"), { { method: GET }, },"#,
    ))
    .unwrap();
    match def.auth {
        Some(AuthStrategy::ApiKey(h)) => assert_eq!(h, "X-Api-Key"),
        _ => panic!("expected ApiKey"),
    }
    assert_eq!(def.global_retries, Some(3));
    let def = parse_client_def(&tokens("Api, auth: Basic, { { method: DELETE } }")).unwrap();
    assert!(matches!(def.auth, Some(AuthStrategy::Basic)));
}

#[test]
fn parses_every_endpoint_field() {
    let def = parse_client_def(&tokens(
        r#"Api, { {
            path: "/users/me", method: PUT, fn_name: get_current_user, retries: 0,
            req: UpdateUserRequest, query_params: SearchQueryParams,
            headers: reqwest::header::HeaderMap, res: HashMap<String, Vec<u8>>
        } }"#,
    ))
    .unwrap();
    let e = &def.endpoints[0];
    assert_eq!(e.method, HttpMethod::Put);
    assert_eq!(e.fn_name.as_deref(), Some("get_current_user"));
    assert_eq!(e.retries, Some(0));
    assert_eq!(e.req.as_deref(), Some("UpdateUserRequest"));
    assert_eq!(e.query_params.as_deref(), Some("SearchQueryParams"));
    assert_eq!(e.headers.as_deref(), Some("reqwest::header::HeaderMap"));
    assert_eq!(e.res.as_deref(), Some("HashMap<String,Vec<u8>>"));
}

#[test]
fn refuses_malformed_definitions() {
    let bad = [
        "",
        "Api",
        "Api, { }x",
        "Api { { method: GET } }",
        "Api, { { path: \"/users\" } }",
        "Api, { { method: GET, colour: Red } }",
        "Api, { { method: GET, method: POST } }",
        "Api, { { method: FETCH } }",
        "Api, { { method: GET, path: users } }",
        "Api, { { method: GET, res: } }",
        "Api, { { method: GET retries: 1 } }",
        "Api, auth: Token, { { method: GET } }",
        "Api, retries: -1, { { method: GET } }",
        "Api, retries: 4294967296, { { method: GET } }",
        "Api, auth: Basic, auth: Bearer, { { method: GET } }",
    ];
    for src in bad {
        assert_eq!(parse_client_def(&tokens(src)).err(), Some(InputError::Malformed), "{}", src);
    }
}

#[test]
fn accepts_an_empty_endpoint_list_for_the_expander_to_refuse() {
    let def = parse_client_def(&tokens("Api, {}")).unwrap();
    assert!(def.endpoints.is_empty());
}

#[test]
fn largest_retry_count_is_accepted() {
    let def = parse_client_def(&tokens("Api, retries: 4294967295, { { method: GET } }")).unwrap();
    assert_eq!(def.global_retries, Some(u32::MAX));
}
