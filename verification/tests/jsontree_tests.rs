use hitr::jsontree::{
    collapsed_summary, compute_visible, flatten, initial_collapsed, line_matches, match_count,
    quote, toggle_collapsed, JsonValue, LineKind,
};
use std::collections::HashSet;

fn sample() -> JsonValue {
    JsonValue::Object(vec![
        ("name".into(), JsonValue::String("Ann \"A\"".into())),
        ("tags".into(), JsonValue::Array(vec![JsonValue::Number("1".into()), JsonValue::Null])),
        ("ok".into(), JsonValue::Bool(true)),
    ])
}

#[test]
fn quote_uses_json_literals() {
    assert_eq!(quote("a\"b\n"), "\"a\\\"b\\n\"");
}

#[test]
fn flatten_rows() {
    let lines = flatten(&sample());
    assert_eq!(lines.len(), 8);
    match &lines[0].kind {
        LineKind::Open { id, key, is_array, count, trailing_comma } => {
            assert_eq!((*id, *is_array, *count, *trailing_comma), (0, false, 3, false));
            assert_eq!(*key, None);
        }
        _ => panic!("open row expected"),
    }
    match &lines[1].kind {
        LineKind::Kv { key, value, class, trailing_comma } => {
            assert_eq!(key.as_deref(), Some("\"name\""));
            assert_eq!(value, "\"Ann \\\"A\\\"\"");
            assert_eq!(*class, "j-str");
            assert!(*trailing_comma);
        }
        _ => panic!("kv row expected"),
    }
    match &lines[2].kind {
        LineKind::Open { id, is_array, count, .. } => assert_eq!((*id, *is_array, *count), (1, true, 2)),
        _ => panic!("open row expected"),
    }
    assert_eq!(lines[3].ancestors, vec![0, 1]);
    assert_eq!(lines[3].depth, 2);
    match &lines[4].kind {
        LineKind::Item { value, class, trailing_comma } => {
            assert_eq!((value.as_str(), *class, *trailing_comma), ("null", "j-null", false));
        }
        _ => panic!("item row expected"),
    }
    match &lines[5].kind {
        LineKind::Close { id, is_array, trailing_comma } => assert_eq!((*id, *is_array, *trailing_comma), (1, true, true)),
        _ => panic!("close row expected"),
    }
    match &lines[6].kind {
        LineKind::Kv { key, value, class, trailing_comma } => {
            assert_eq!(key.as_deref(), Some("\"ok\""));
            assert_eq!((value.as_str(), *class, *trailing_comma), ("true", "j-bool", false));
        }
        _ => panic!("kv row expected"),
    }
    match &lines[7].kind {
        LineKind::Close { id, trailing_comma, .. } => assert_eq!((*id, *trailing_comma), (0, false)),
        _ => panic!("close row expected"),
    }
}

#[test]
fn visible_rows() {
    let lines = flatten(&sample());
    let none: HashSet<usize> = HashSet::new();
    assert_eq!(compute_visible(&lines, &none, ""), vec![0, 1, 2, 3, 4, 5, 6, 7]);
    let mut c = HashSet::new();
    c.insert(1usize);
    assert_eq!(compute_visible(&lines, &c, ""), vec![0, 1, 2, 6, 7]);
    assert_eq!(compute_visible(&lines, &c, "NULL"), vec![0, 2, 4, 5, 7]);
    assert_eq!(match_count(&lines, "a"), 1);
    assert_eq!(match_count(&lines, "TRUE"), 1);
    assert_eq!(match_count(&lines, ""), 0);
    assert!(line_matches(&lines[1], "ann"));
    assert!(!line_matches(&lines[0], "ann"));
}

#[test]
fn summaries_and_initial_collapse() {
    let lines = flatten(&sample());
    assert_eq!(collapsed_summary(&lines[2].kind), "[ …2 items ]");
    assert_eq!(collapsed_summary(&lines[0].kind), "{ …3 keys }");
    assert_eq!(collapsed_summary(&lines[1].kind), "");
    let deep = JsonValue::Array(vec![JsonValue::Array(vec![JsonValue::Object(vec![])])]);
    let dl = flatten(&deep);
    let init = initial_collapsed(&dl);
    assert!(init.contains(&2));
    assert!(!init.contains(&0));
    let big = JsonValue::Array((0..21).map(|i| JsonValue::Number(i.to_string())).collect());
    assert!(initial_collapsed(&flatten(&big)).contains(&0));
    let mut s = HashSet::new();
    toggle_collapsed(&mut s, 3);
    assert!(s.contains(&3));
    toggle_collapsed(&mut s, 3);
    assert!(s.is_empty());
}

#[test]
fn quote_escapes_controls_by_the_table() {
    assert_eq!(quote("\\\u{1}\u{8}\t\u{c}\r\u{b}\u{1f}é/"), "\"\\\\\\u0001\\b\\t\\f\\r\\u000b\\u001fé/\"");
}

#[test]
fn object_valued_member_shows_its_key_on_the_opening_row() {
    let v = JsonValue::Object(vec![("k".to_string(), JsonValue::Object(vec![]))]);
    let lines = flatten(&v);
    assert_eq!(lines.len(), 4);
    match &lines[1].kind {
        LineKind::Open { key, .. } => assert_eq!(key.as_deref(), Some("\"k\"")),
        _ => panic!("open row expected"),
    }
}

#[test]
fn tree_of_a_response_body() {
    let lines = hitr::jsontree::tree_of_text("{\"a\": [1, true], \"b\": \"x\"}").unwrap();
    assert_eq!(lines.len(), 7);
    match &lines[1].kind {
        LineKind::Open { key, is_array, count, .. } => {
            assert_eq!((key.as_deref(), *is_array, *count), (Some("\"a\""), true, 2));
        }
        _ => panic!("open row expected"),
    }
    assert!(hitr::jsontree::tree_of_text("not json").is_none());
}
