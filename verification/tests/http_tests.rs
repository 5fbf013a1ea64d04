use hitr::http::{
    finish_response, prepare_request, resolve_env_vars, strip_json_comments, substitute,
    AuthAction,
};
use hitr::model::{AuthConfig, Body, Env, EnvVar, HttpSpec, Info, KV, Request};
use hitr::strmap::StrMap;
use hitr::vault::{set_in, VaultData};

fn vars(pairs: &[(&str, &str)]) -> StrMap {
    let mut m = StrMap::new();
    for (k, v) in pairs {
        m.insert(k.to_string(), v.to_string());
    }
    m
}

fn kv(name: &str, value: &str) -> KV {
    KV { name: name.into(), value: value.into(), kind: None, description: None, enabled: None }
}

fn request(method: &str, url: &str) -> Request {
    Request {
        info: Info { name: "r".into(), kind: "http".into(), seq: 1 },
        http: HttpSpec {
            method: method.into(),
            url: url.into(),
            headers: vec![],
            params: vec![],
            body: Body { kind: None, json: None, text: None, data: None },
            auth: None,
            auth_config: None,
        },
        path: String::new(),
        rel_path: String::new(),
        id: String::new(),
    }
}

fn env(name: &str, vs: &[(&str, &str, bool)]) -> Env {
    Env {
        name: name.into(),
        variables: vs
            .iter()
            .map(|(n, v, s)| EnvVar { name: n.to_string(), value: v.to_string(), secret: *s })
            .collect(),
        path: String::new(),
    }
}

#[test]
fn substitute_fills_and_reports_missing() {
    let (s, miss) = substitute("{{base}}/a/{{ id }}/{{nope}}", &vars(&[("base", "http://h"), ("id", "7")]));
    assert_eq!(s, "http://h/a/7/{{nope}}");
    assert_eq!(miss, vec!["nope".to_string()]);
}

#[test]
fn substitute_plain_text_and_unclosed() {
    let (s, miss) = substitute("no vars here", &vars(&[("x", "1")]));
    assert_eq!(s, "no vars here");
    assert!(miss.is_empty());
    let (s2, miss2) = substitute("a {{x", &vars(&[("x", "1")]));
    assert_eq!(s2, "a {{x");
    assert!(miss2.is_empty());
}

#[test]
fn strip_comments_keeps_strings() {
    let s = "{\n  // note\n  \"u\": \"http://x\", /* b */ \"n\": 1\n}";
    assert_eq!(strip_json_comments(s), "{\n  \n  \"u\": \"http://x\",  \"n\": 1\n}");
    assert_eq!(strip_json_comments("{\"a\": \"\\\"//\"}"), "{\"a\": \"\\\"//\"}");
    assert_eq!(strip_json_comments("1 /* open"), "1 ");
}

#[test]
fn resolve_env_vars_prefers_vault_for_secrets() {
    let e = env("dev", &[("base", "http://h", false), ("tok", "", true), ("empty", "", false)]);
    let mut d = VaultData::new();
    set_in(&mut d, "dev", "tok", "T");
    let m = resolve_env_vars(&e, Some(&d));
    assert_eq!(m.get(&"base".to_string()), Some("http://h".to_string()));
    assert_eq!(m.get(&"tok".to_string()), Some("T".to_string()));
    assert_eq!(m.get(&"empty".to_string()), None);
    let locked = resolve_env_vars(&e, None);
    assert_eq!(locked.get(&"tok".to_string()), None);
}

#[test]
fn prepare_fails_on_unresolved_url_vars() {
    let r = request("get", "{{b}}/{{a}}/{{b}}");
    let e = prepare_request(&r, None, None).unwrap_err();
    assert_eq!(e, "unresolved var(s) in url: a, b — set values via env editor");
}

#[test]
fn prepare_uses_env_bearer_and_json_body() {
    let mut r = request("post", "{{base}}/x");
    r.http.headers = vec![kv("X-A", "{{v}}")];
    r.http.params = vec![kv("q", "{{v}}"), KV { enabled: Some(false), ..kv("off", "1") }];
    r.http.body = Body { kind: Some("json".into()), json: Some("{\"a\": 1 // c\n}".into()), text: None, data: None };
    let e = env("dev", &[("base", "http://h", false), ("v", "1", false), ("bearerToken", "T", false)]);
    let p = prepare_request(&r, Some(&e), None).unwrap();
    assert_eq!(p.method, "POST");
    assert_eq!(p.url, "http://h/x");
    assert_eq!(p.query, vec![("q".to_string(), "1".to_string())]);
    assert_eq!(p.headers, vec![("X-A".to_string(), "1".to_string())]);
    assert_eq!(p.auth, AuthAction::Header("Authorization".into(), "Bearer T".into()));
    assert!(p.json_content_type);
    assert_eq!(p.body.as_deref(), Some("{\"a\": 1 \n}"));
}

#[test]
fn prepare_basic_auth_and_api_key_query() {
    let mut r = request("GET", "http://h");
    r.http.auth_config = Some(AuthConfig { mode: "basic".into(), token: "".into(), key: "u".into(), location: "".into() });
    let p = prepare_request(&r, None, None).unwrap();
    assert_eq!(p.auth, AuthAction::Basic("u".into(), None));
    r.http.auth_config = Some(AuthConfig { mode: "api_key".into(), token: "k1".into(), key: "api".into(), location: "query".into() });
    let p2 = prepare_request(&r, None, None).unwrap();
    assert_eq!(p2.query, vec![("api".to_string(), "k1".to_string())]);
    assert_eq!(p2.auth, AuthAction::NoAuth);
}

#[test]
fn finish_response_pretty_prints_json() {
    let r = finish_response(
        200,
        "OK".into(),
        5,
        vec![("Content-Type".into(), "application/json".into())],
        "{\"a\":1}".into(),
        "http://h/".into(),
    );
    assert!(r.is_json);
    assert_eq!(r.body, "{\n  \"a\": 1\n}");
    let t = finish_response(200, "OK".into(), 5, vec![], "{\"a\":1}".into(), "u".into());
    assert!(!t.is_json);
    assert_eq!(t.body, "{\"a\":1}");
    let bad = finish_response(200, "OK".into(), 5, vec![("content-type".into(), "json".into())], "{nope".into(), "u".into());
    assert_eq!(bad.body, "{nope");
}

#[test]
fn prepare_fails_on_unresolved_vars_outside_the_url() {
    let mut r = request("get", "http://h/x");
    r.http.headers = vec![kv("X-A", "{{x}}"), KV { enabled: Some(false), ..kv("X-B", "{{off}}") }];
    r.http.body = Body { kind: Some("text".into()), json: None, text: Some("{{y}} {{x}}".into()), data: None };
    let e = prepare_request(&r, None, None).unwrap_err();
    assert_eq!(e, "unresolved var(s): x, y — set values via env editor");
}

#[test]
fn missing_secret_does_not_fall_back_to_the_file() {
    let e = env("dev", &[("tok", "stale", true)]);
    assert_eq!(resolve_env_vars(&e, None).get(&"tok".to_string()), None);
    assert_eq!(resolve_env_vars(&e, Some(&VaultData::new())).get(&"tok".to_string()), None);
}

#[test]
fn comment_markers_inside_strings_survive_and_line_comments_keep_newlines() {
    let s = "{\"u\": \"http://a/*b*/\"}";
    assert_eq!(strip_json_comments(s), s);
    assert_eq!(strip_json_comments("[1, // one\n2]"), "[1, \n2]");
}

#[test]
fn request_url_appends_the_query_or_names_a_bad_url() {
    let mut r = request("get", "http://h.test/p?x=1");
    r.http.params = vec![kv("q", "a b&c")];
    let p = prepare_request(&r, None, None).unwrap();
    assert_eq!(hitr::http::request_url(&p).unwrap(), "http://h.test/p?x=1&q=a+b%26c");
    let bad = prepare_request(&request("get", "no scheme"), None, None).unwrap();
    assert!(hitr::http::request_url(&bad).unwrap_err().starts_with("invalid url `no scheme`: "));
}
