use hitr::vault::{seal_from_outcome, vault_from_outcome, AgeOpenFailure, AgeWriteFailure};
use hitr::strmap::StrMap;
use hitr::vault::{
    delete_env_in, delete_in, get_from, key, open_vault, rename_env_in, seal_vault, set_in,
    VaultData, VaultSession,
};

fn vault_with(pairs: &[(&str, &str)]) -> VaultData {
    let mut d = VaultData::new();
    for (k, v) in pairs {
        d.secrets.insert(k.to_string(), v.to_string());
    }
    d
}

fn lookup(d: &VaultData, k: &str) -> Option<String> {
    d.secrets.get(&k.to_string())
}

#[test]
fn key_joins_env_and_name() {
    assert_eq!(key("dev", "token"), "dev/token");
}

#[test]
fn read_after_write() {
    let mut d = VaultData::new();
    set_in(&mut d, "dev", "token", "s3cret");
    assert_eq!(get_from(&d, "dev", "token"), Some("s3cret".to_string()));
    assert_eq!(get_from(&d, "prod", "token"), None);
    set_in(&mut d, "dev", "token", "other");
    assert_eq!(get_from(&d, "dev", "token"), Some("other".to_string()));
}

#[test]
fn delete_undoes_write() {
    let mut d = vault_with(&[("dev/a", "1")]);
    set_in(&mut d, "dev", "b", "2");
    delete_in(&mut d, "dev", "b");
    assert_eq!(get_from(&d, "dev", "b"), None);
    assert_eq!(get_from(&d, "dev", "a"), Some("1".to_string()));
}

#[test]
fn delete_env_purges_only_that_env() {
    let mut d = vault_with(&[("dev/a", "1"), ("dev/b", "2"), ("devx/a", "3"), ("prod/a", "4")]);
    delete_env_in(&mut d, "dev");
    assert_eq!(lookup(&d, "dev/a"), None);
    assert_eq!(lookup(&d, "dev/b"), None);
    assert_eq!(lookup(&d, "devx/a"), Some("3".to_string()));
    assert_eq!(lookup(&d, "prod/a"), Some("4".to_string()));
}

#[test]
fn rename_moves_secrets() {
    let mut d = vault_with(&[("dev/a", "1"), ("dev/b", "2"), ("prod/a", "4")]);
    rename_env_in(&mut d, "dev", "qa");
    assert_eq!(lookup(&d, "qa/a"), Some("1".to_string()));
    assert_eq!(lookup(&d, "qa/b"), Some("2".to_string()));
    assert_eq!(lookup(&d, "dev/a"), None);
    assert_eq!(lookup(&d, "dev/b"), None);
    assert_eq!(lookup(&d, "prod/a"), Some("4".to_string()));
}

#[test]
fn rename_onto_existing_env_keeps_its_other_keys() {
    let mut d = vault_with(&[("a/x", "1"), ("b/y", "2")]);
    rename_env_in(&mut d, "a", "b");
    assert_eq!(lookup(&d, "b/x"), Some("1".to_string()));
    assert_eq!(lookup(&d, "b/y"), Some("2".to_string()));
    assert_eq!(lookup(&d, "a/x"), None);
}

#[test]
fn strmap_last_write_wins() {
    let mut m = StrMap::new();
    m.insert("k".to_string(), "1".to_string());
    m.insert("k".to_string(), "2".to_string());
    assert_eq!(m.get(&"k".to_string()), Some("2".to_string()));
    m.remove(&"k".to_string());
    assert_eq!(m.get(&"k".to_string()), None);
}

#[test]
fn seal_then_open_gives_back_the_json() {
    let json = b"{\"secrets\":{\"dev/a\":\"1\"}}".to_vec();
    let file = seal_vault(&json, "pw").unwrap();
    assert_ne!(file, json);
    assert_eq!(open_vault(&file, "pw").unwrap(), Some(json));
}

#[test]
fn empty_plaintext_is_the_empty_vault() {
    let file = seal_vault(b"", "pw").unwrap();
    assert_eq!(open_vault(&file, "pw").unwrap(), None);
}

#[test]
fn wrong_password_is_reported() {
    let file = seal_vault(b"{}", "pw").unwrap();
    let e = open_vault(&file, "nope").unwrap_err();
    assert!(e.starts_with("wrong password or corrupt vault: "), "{}", e);
}

#[test]
fn garbage_file_is_a_header_error() {
    let e = open_vault(b"not an age file", "pw").unwrap_err();
    assert!(e.starts_with("decrypt init: "), "{}", e);
}

#[test]
fn session_state_machine() {
    let mut s = VaultSession::new();
    assert_eq!(s.require_unlocked().unwrap_err(), "vault_locked");
    assert_eq!(s.needs_read().unwrap_err(), "vault_locked");
    s.unlock();
    assert!(s.require_unlocked().is_ok());
    assert_eq!(s.needs_read().unwrap(), true);
    s.fill(VaultData::new());
    assert_eq!(s.needs_read().unwrap(), false);
    s.lock();
    assert!(!s.unlocked);
    assert!(s.cache.is_none());
    assert_eq!(s.needs_read().unwrap_err(), "vault_locked");
}

#[test]
fn rename_overrides_a_clashing_secret() {
    let mut d = vault_with(&[("a/y", "1"), ("b/y", "2"), ("b/z", "3"), ("ab/y", "4")]);
    rename_env_in(&mut d, "a", "b");
    assert_eq!(lookup(&d, "b/y"), Some("1".to_string()));
    assert_eq!(lookup(&d, "b/z"), Some("3".to_string()));
    assert_eq!(lookup(&d, "ab/y"), Some("4".to_string()));
    assert_eq!(lookup(&d, "a/y"), None);
}

#[test]
fn vault_outcomes_map_to_results() {
    assert_eq!(vault_from_outcome(Ok(vec![])), Ok(None));
    assert_eq!(vault_from_outcome(Ok(b"{}".to_vec())), Ok(Some(b"{}".to_vec())));
    assert_eq!(vault_from_outcome(Err(AgeOpenFailure::Header("h".into()))), Err("decrypt init: h".to_string()));
    assert_eq!(
        vault_from_outcome(Err(AgeOpenFailure::Key("k".into()))),
        Err("wrong password or corrupt vault: k".to_string())
    );
    assert_eq!(vault_from_outcome(Err(AgeOpenFailure::Read("r".into()))), Err("r".to_string()));
    assert_eq!(seal_from_outcome(Ok(vec![1])), Ok(vec![1]));
    assert_eq!(seal_from_outcome(Err(AgeWriteFailure::Init("i".into()))), Err("encrypt init: i".to_string()));
    assert_eq!(seal_from_outcome(Err(AgeWriteFailure::Write("w".into()))), Err("w".to_string()));
}
