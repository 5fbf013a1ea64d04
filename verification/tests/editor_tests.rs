use hitr::editor::{
    add_url_params, filter_requests, initial_body_text, merge_url_params, saved_body, split_url_and_params,
    toggle_line_comment, RENDER_CAP,
};
use hitr::http::strip_json_comments;
use hitr::loader::new_request;
use hitr::model::{Body, KV};

fn kv(name: &str, value: &str) -> KV {
    KV { name: name.into(), value: value.into(), kind: Some("query".into()), description: None, enabled: Some(true) }
}

#[test]
fn split_url_into_rows() {
    let (base, rows) = split_url_and_params("{{baseUrl}}/p?a=1&&b&c=x=y&");
    assert_eq!(base, "{{baseUrl}}/p");
    let pairs: Vec<(&str, &str)> = rows.iter().map(|r| (r.name.as_str(), r.value.as_str())).collect();
    assert_eq!(pairs, vec![("a", "1"), ("b", ""), ("c", "x=y")]);
    assert!(rows.iter().all(|r| r.kind.as_deref() == Some("query") && r.enabled == Some(true)));
    let (same, none) = split_url_and_params("{{baseUrl}}/p");
    assert_eq!(same, "{{baseUrl}}/p");
    assert!(none.is_empty());
}

#[test]
fn merge_and_add_params() {
    let url_rows = vec![kv("a", "u"), kv("b", "u")];
    let params = vec![kv("b", "p")];
    let merged = merge_url_params(&url_rows, &params);
    let names: Vec<(&str, &str)> = merged.iter().map(|r| (r.name.as_str(), r.value.as_str())).collect();
    assert_eq!(names, vec![("a", "u"), ("b", "p")]);
    let mut cur = vec![kv("a", "1")];
    add_url_params(&mut cur, &vec![kv("a", "2"), kv("c", "3"), kv("c", "4")]);
    let got: Vec<(&str, &str)> = cur.iter().map(|r| (r.name.as_str(), r.value.as_str())).collect();
    assert_eq!(got, vec![("a", "1"), ("c", "3"), ("c", "4")]);
}

#[test]
fn body_text_choice() {
    let b = Body { kind: Some("json".into()), json: Some(String::new()), text: Some("t".into()), data: Some("d".into()) };
    assert_eq!(initial_body_text(&b), "d");
    let t = Body { kind: Some("text".into()), json: Some("j".into()), text: None, data: None };
    assert_eq!(initial_body_text(&t), "j");
    let none = Body { kind: None, json: None, text: None, data: None };
    assert_eq!(initial_body_text(&none), "");
}

#[test]
fn request_search() {
    let mut reqs = Vec::new();
    for i in 0..5 {
        let mut r = new_request(&format!("Get User {}", i), "GET", "{{baseUrl}}/u");
        r.rel_path = format!("users/{}.yml", i);
        reqs.push(r);
    }
    reqs.push(new_request("Create", "POST", "{{baseUrl}}/orders"));
    assert_eq!(filter_requests(&reqs, ""), vec![0, 1, 2, 3, 4, 5]);
    assert_eq!(filter_requests(&reqs, "ORDERS"), vec![5]);
    assert_eq!(filter_requests(&reqs, "post"), vec![5]);
    assert_eq!(filter_requests(&reqs, "user 3"), vec![3]);
    let many: Vec<_> = (0..RENDER_CAP + 10).map(|i| new_request(&i.to_string(), "GET", "u")).collect();
    assert_eq!(filter_requests(&many, "").len(), RENDER_CAP);
}

#[test]
fn toggle_comments_on_and_off() {
    let text = "{\n  \"a\": 1,\n\n  \"b\": 2\n}";
    let (on, s, e) = toggle_line_comment(text, 4, 20);
    assert_eq!(on, "{\n//   \"a\": 1,\n\n//   \"b\": 2\n}");
    assert_eq!((s, e), (7, 26));
    let (off, s2, e2) = toggle_line_comment(&on, s, e);
    assert_eq!(off, text);
    assert_eq!((s2, e2), (4, 20));
}

#[test]
fn commented_lines_are_stripped_before_send() {
    let (on, _, _) = toggle_line_comment("{\n\"a\": 1\n}", 2, 2);
    assert_eq!(on, "{\n// \"a\": 1\n}");
    assert_eq!(strip_json_comments(&on), "{\n\n}");
}

#[test]
fn toggle_at_start_clamps_to_zero() {
    let (off, s, e) = toggle_line_comment("// x", 0, 0);
    assert_eq!(off, "x");
    assert_eq!((s, e), (0, 0));
}

#[test]
fn typing_the_same_query_twice_adds_rows_once() {
    let (_, rows) = split_url_and_params("{{baseUrl}}/x?a=9&c=3&c=4&d");
    let mut cur = vec![kv("a", "1")];
    add_url_params(&mut cur, &rows);
    let once: Vec<(String, String)> = cur.iter().map(|r| (r.name.clone(), r.value.clone())).collect();
    add_url_params(&mut cur, &rows);
    let twice: Vec<(String, String)> = cur.iter().map(|r| (r.name.clone(), r.value.clone())).collect();
    assert_eq!(once, twice);
    assert_eq!(twice.len(), 4);
}

#[test]
fn saved_body_follows_type_and_text() {
    let b = saved_body("json", "{\"a\":1}");
    assert_eq!((b.kind.as_deref(), b.data.as_deref(), b.json.is_none(), b.text.is_none()), (Some("json"), Some("{\"a\":1}"), true, true));
    assert_eq!(initial_body_text(&b), "{\"a\":1}");
    let none = saved_body("", "ignored");
    assert_eq!((none.kind, none.data), (None, None));
    let empty = saved_body("text", "");
    assert_eq!((empty.kind.as_deref(), empty.data), (Some("text"), None));
}

#[test]
fn toggle_offsets_are_bytes() {
    let (t, s, e) = toggle_line_comment("é x\ny", 3, 3);
    assert_eq!((t.as_str(), s, e), ("// é x\ny", 6, 6));
    let (t2, s2, e2) = toggle_line_comment("a\nüü b", 6, 8);
    assert_eq!((t2.as_str(), s2, e2), ("a\n// üü b", 9, 11));
}
