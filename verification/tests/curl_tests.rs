use hitr::curl::{build_curl, parse_curl, shell_escape, tokenize};
use hitr::strmap::StrMap;

#[test]
fn tokenize_quotes_and_escapes() {
    let t = tokenize("curl 'a b' \"c \\\" d\" e\\ f").unwrap();
    assert_eq!(t, vec!["curl", "a b", "c \" d", "e f"]);
}

#[test]
fn tokenize_unclosed_quote() {
    assert_eq!(tokenize("curl 'oops").unwrap_err(), "unclosed quote");
}

#[test]
fn tokenize_line_continuation() {
    let t = tokenize("curl \\\n  -X POST \\\r\n url").unwrap();
    assert_eq!(t, vec!["curl", "-X", "POST", "url"]);
}

#[test]
fn parse_curl_data_implies_post() {
    let r = parse_curl("curl https://x.test/a -d 'hello'").unwrap();
    assert_eq!(r.http.method, "POST");
    assert_eq!(r.http.url, "https://x.test/a");
    assert_eq!(r.http.body.kind.as_deref(), Some("text"));
    assert_eq!(r.http.body.text.as_deref(), Some("hello"));
    assert_eq!(r.http.body.json, None);
    assert_eq!(r.info.kind, "http");
    assert_eq!(r.info.seq, 1);
}

#[test]
fn parse_curl_json_flag() {
    let r = parse_curl("curl --json '{\"a\":1}' https://x.test").unwrap();
    assert_eq!(r.http.method, "POST");
    assert_eq!(r.http.headers.len(), 1);
    assert_eq!(r.http.headers[0].name, "Content-Type");
    assert_eq!(r.http.headers[0].value, "application/json");
    assert_eq!(r.http.headers[0].enabled, Some(true));
    assert_eq!(r.http.body.kind.as_deref(), Some("json"));
    assert_eq!(r.http.body.json.as_deref(), Some("{\"a\":1}"));
}

#[test]
fn parse_curl_header_content_type_json() {
    let r = parse_curl("curl -X put -H 'content-type:  application/json ' --data '{}' http://h/x").unwrap();
    assert_eq!(r.http.method, "PUT");
    assert_eq!(r.http.headers[0].name, "content-type");
    assert_eq!(r.http.headers[0].value, "application/json");
    assert_eq!(r.http.body.kind.as_deref(), Some("json"));
}

#[test]
fn parse_curl_errors() {
    assert_eq!(parse_curl("   ").unwrap_err(), "empty");
    assert_eq!(parse_curl("wget http://x").unwrap_err(), "expected curl, got `wget`");
    assert_eq!(parse_curl("curl -s").unwrap_err(), "no url in curl");
    assert!(parse_curl("/usr/bin/curl http://x").is_ok());
}

#[test]
fn shell_escape_quotes() {
    assert_eq!(shell_escape("it's"), "'it'\\''s'");
    assert_eq!(tokenize(&shell_escape("it's a \"test\"")).unwrap(), vec!["it's a \"test\""]);
}

#[test]
fn build_curl_roundtrip() {
    let mut req = parse_curl("curl -X POST -H 'A: {{v}}' -d 'x={{v}}' http://h/{{v}}").unwrap();
    req.http.body.data = None;
    let mut vars = StrMap::new();
    vars.insert("v".to_string(), "1".to_string());
    let c = build_curl(&req, &vars);
    assert_eq!(c, "curl -X POST 'http://h/1' \\\n  -H 'A: 1' \\\n  --data 'x=1'");
    let back = parse_curl(&c).unwrap();
    assert_eq!(back.http.url, "http://h/1");
}

#[test]
fn shell_escape_round_trip_law_case() {
    let s = "a 'b' \\ \"c\" $d";
    assert_eq!(tokenize(&shell_escape(s)).unwrap(), vec![s]);
}

#[test]
fn shell_escape_round_trip_fails_on_continuation() {
    let s = "a\\\nb";
    assert_ne!(tokenize(&shell_escape(s)).unwrap(), vec![s]);
}

#[test]
fn parse_curl_ignores_forms_cookies_and_auth() {
    let r = parse_curl("curl -F 'file=@a.txt' -b 'sid=1' -u user:pw --form x=y https://x.test/up").unwrap();
    assert_eq!(r.http.url, "https://x.test/up");
    assert_eq!(r.http.method, "GET");
    assert!(r.http.headers.is_empty());
    assert_eq!(r.http.body.kind, None);
}

#[test]
fn export_then_reimport_gives_the_request_back() {
    let mut req = parse_curl("curl -X patch -H ' X-Id :  {{id}} ' -H 'Accept: */*' --data 'it'\\''s {{id}}' https://h.test/{{id}}").unwrap();
    req.http.headers[1].enabled = Some(false);
    let mut vars = StrMap::new();
    vars.insert("id".to_string(), "7".to_string());
    let back = parse_curl(&build_curl(&req, &vars)).unwrap();
    assert_eq!(back.http.method, "PATCH");
    assert_eq!(back.http.url, "https://h.test/7");
    assert_eq!(back.http.headers.len(), 1);
    assert_eq!(back.http.headers[0].name, "X-Id");
    assert_eq!(back.http.headers[0].value, "7");
    assert_eq!(back.http.body.kind.as_deref(), Some("text"));
    assert_eq!(back.http.body.text.as_deref(), Some("it's 7"));
}

#[test]
fn reimport_loses_a_url_that_reads_as_a_flag() {
    let mut req = parse_curl("curl https://h.test").unwrap();
    req.http.url = "-v".to_string();
    let back = parse_curl(&build_curl(&req, &StrMap::new()));
    assert_eq!(back.unwrap_err(), "no url in curl");
}

#[test]
fn last_method_wins_and_a_bare_data_flag_sends_nothing() {
    let r = parse_curl("curl -X get --request put https://h.test -d x").unwrap();
    assert_eq!(r.http.method, "PUT");
    assert_eq!(r.http.body.text.as_deref(), Some("x"));
    let bare = parse_curl("curl https://h.test -d").unwrap();
    assert_eq!(bare.http.method, "GET");
    assert_eq!(bare.http.body.kind, None);
    assert!(bare.http.params.is_empty() && bare.http.auth.is_none());
}
