use hitr::history::{history_file_name, is_blank, keep_recent, newest_first, MAX_ENTRIES};
use hitr::loader::{
    elide_examples, env_for_write, env_with_location, file_stem, is_request, is_yml,
    may_hold_request, new_request, request_for_write, skip_walk_entry, sort_envs, sort_requests,
    with_location, yml_file_name,
};
use hitr::model::{Env, Request};

fn named_request(rel: &str, name: &str) -> Request {
    let mut r = new_request(name, "GET", "http://h");
    r.rel_path = rel.into();
    r
}

#[test]
fn elide_drops_examples_block() {
    let s = "meta:\n  name: a\nexamples:\n  - x: 1\n\n  # c\n\thttp: no\nhttp:\n  method: GET\n";
    assert_eq!(elide_examples(s), "meta:\n  name: a\n\nhttp:\n  method: GET\n");
}

#[test]
fn elide_keeps_text_without_examples() {
    let s = "info:\n  examples: inline is fine\nhttp:\n  url: x";
    assert_eq!(elide_examples(s), s);
    assert_eq!(elide_examples(""), "");
}

#[test]
fn file_names() {
    assert!(is_yml("a.yml"));
    assert!(!is_yml("a.yaml"));
    assert!(!is_yml(".yml"));
    assert_eq!(file_stem("dev.yml"), "dev");
    assert_eq!(file_stem("a.b.yml"), "a.b");
    assert_eq!(file_stem(".hidden"), ".hidden");
    assert_eq!(yml_file_name("dev"), "dev.yml");
    assert!(skip_walk_entry("environments"));
    assert!(skip_walk_entry(".git"));
    assert!(!skip_walk_entry("users"));
    assert!(!may_hold_request("folder.yml"));
    assert!(!may_hold_request("opencollection.yml"));
    assert!(may_hold_request("get.yml"));
}

#[test]
fn loaded_records() {
    let r = with_location(new_request("a", "", "u"), "/r/x/a.yml".into(), "x/a.yml".into());
    assert_eq!(r.id, "x/a.yml");
    assert_eq!(r.path, "/r/x/a.yml");
    assert!(is_request(&r));
    let mut q = r.clone();
    q.info.kind = "graphql".into();
    assert!(!is_request(&q));
    let e = env_with_location(Env { name: String::new(), variables: vec![], path: String::new() }, "/r/environments/qa.yml".into(), "qa.yml");
    assert_eq!(e.name, "qa");
}

#[test]
fn write_forms_and_errors() {
    let e = Env { name: "dev".into(), variables: vec![], path: String::new() };
    assert_eq!(env_for_write(e).unwrap_err(), "env has no path");
    let r = new_request("a", "GET", "u");
    assert!(r.path.is_empty() && r.rel_path.is_empty() && r.id.is_empty());
    assert_eq!(request_for_write(r).unwrap_err(), "request has no path");
    let mut r2 = new_request("a", "GET", "u");
    r2.path = "/p/a.yml".into();
    r2.rel_path = "a.yml".into();
    r2.id = "a.yml".into();
    let (p, clean) = request_for_write(r2).unwrap();
    assert_eq!(p, "/p/a.yml");
    assert!(clean.path.is_empty() && clean.rel_path.is_empty() && clean.id.is_empty());
}

#[test]
fn sorting_is_stable_and_ordered() {
    let rs = vec![named_request("b.yml", "1"), named_request("a.yml", "2"), named_request("b.yml", "3")];
    let s = sort_requests(rs);
    let names: Vec<&str> = s.iter().map(|r| r.info.name.as_str()).collect();
    assert_eq!(names, vec!["2", "1", "3"]);
    let es = vec![
        Env { name: "prod".into(), variables: vec![], path: String::new() },
        Env { name: "dev".into(), variables: vec![], path: String::new() },
    ];
    let se = sort_envs(es);
    assert_eq!(se[0].name, "dev");
    assert_eq!(se[1].name, "prod");
}

#[test]
fn history_file_name_is_sha256_prefix() {
    assert_eq!(history_file_name("abc"), "ba7816bf8f01cfea.jsonl");
}

#[test]
fn history_keeps_recent_entries() {
    let lines: Vec<String> = (0..25).map(|i| i.to_string()).collect();
    let kept = keep_recent(lines, "new".into());
    assert_eq!(kept.len(), MAX_ENTRIES);
    assert_eq!(kept[0], "16");
    assert_eq!(kept[MAX_ENTRIES - 1], "new");
    let few = keep_recent(vec!["a".into()], "b".into());
    assert_eq!(few, vec!["a".to_string(), "b".to_string()]);
    assert_eq!(newest_first(vec![1, 2, 3]), vec![3, 2, 1]);
    assert!(is_blank("  \t"));
    assert!(!is_blank(" x "));
}

#[test]
fn history_keeps_the_last_ten_fires() {
    let lines: Vec<String> = (0..10).map(|i| i.to_string()).collect();
    let kept = keep_recent(lines, "new".into());
    assert_eq!(kept.len(), 10);
    assert_eq!(kept[0], "1");
    assert_eq!(kept[9], "new");
}
