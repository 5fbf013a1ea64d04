use hitr::envedit::{
    check_curl_paste, check_name, check_new_request, check_previewed, check_spec_path, check_unlock,
    secret_writes, set_secret_flag, slug_env, strip_secret_values, SecretWrite,
};
use hitr::model::EnvVar;
use hitr::strmap::StrMap;

fn var(name: &str, value: &str, secret: bool) -> EnvVar {
    EnvVar { name: name.into(), value: value.into(), secret }
}

#[test]
fn env_slug_from_title() {
    assert_eq!(slug_env("My API (v2)"), "my_api__v2");
    assert_eq!(slug_env("--"), "");
}

#[test]
fn dialog_checks() {
    assert_eq!(check_new_request(" ", "f").unwrap_err(), "name required");
    assert_eq!(check_new_request("n", "\t").unwrap_err(), "folder required");
    assert!(check_new_request("n", "f").is_ok());
    assert_eq!(check_curl_paste("  \n").unwrap_err(), "paste a curl command");
    assert!(check_curl_paste("curl x").is_ok());
    assert_eq!(check_name("").unwrap_err(), "name required");
    assert_eq!(check_spec_path(" ").unwrap_err(), "spec path required");
    assert_eq!(check_previewed(false).unwrap_err(), "preview first");
    assert!(check_previewed(true).is_ok());
    assert_eq!(check_unlock("", "", true).unwrap_err(), "password required");
    assert_eq!(check_unlock("a", "b", false).unwrap_err(), "passwords don't match");
    assert!(check_unlock("a", "b", true).is_ok());
    assert!(check_unlock("a", "a", false).is_ok());
}

#[test]
fn saved_variables_hold_no_secret_values() {
    let vs = vec![var("base", "http://h", false), var("tok", "leak", true)];
    let saved = strip_secret_values(&vs);
    assert_eq!(saved[0].value, "http://h");
    assert_eq!(saved[1].name, "tok");
    assert_eq!(saved[1].value, "");
    assert!(saved[1].secret);
}

#[test]
fn secret_flag_round_trip() {
    let mut vars = vec![var("a", "1", false), var("tok", "abc", false)];
    let mut secrets = StrMap::new();
    set_secret_flag(&mut vars, &mut secrets, 1, true);
    assert_eq!(vars[1].value, "");
    assert!(vars[1].secret);
    assert_eq!(secrets.get(&"tok".to_string()), Some("abc".to_string()));
    set_secret_flag(&mut vars, &mut secrets, 1, false);
    assert_eq!(vars[1].value, "abc");
    assert!(!vars[1].secret);
    assert_eq!(secrets.get(&"tok".to_string()), None);
    assert_eq!(vars[0].value, "1");
}

#[test]
fn vault_writes_on_save() {
    let saved = vec![var("a", "", true), var("b", "", true), var("c", "x", false), var("d", "", true)];
    let mut secrets = StrMap::new();
    secrets.insert("a".into(), "1".into());
    secrets.insert("b".into(), "".into());
    secrets.insert("c".into(), "2".into());
    let ws = secret_writes(&saved, &secrets);
    assert_eq!(ws.len(), 2);
    match &ws[0] {
        SecretWrite::Store { name, value } => {
            assert_eq!(name, "a");
            assert_eq!(value, "1");
        }
        _ => panic!("expected a store"),
    }
    match &ws[1] {
        SecretWrite::Delete { name } => assert_eq!(name, "b"),
        _ => panic!("expected a delete"),
    }
}
