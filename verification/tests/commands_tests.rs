use hitr::commands::{
    check_env_name, copy_file_name, duplicate_of, env_from_template, fire_target,
    next_copy_number, to_curl, MAX_COPIES,
};
use hitr::loader::new_request;
use hitr::model::{Collection, Env, EnvVar};

fn collection() -> Collection {
    let mut r = new_request("Get", "get", "{{base}}/x");
    r.path = "/root/a.yml".into();
    r.id = "a.yml".into();
    r.rel_path = "a.yml".into();
    Collection {
        root: "/root".into(),
        requests: vec![r],
        envs: vec![Env {
            name: "dev".into(),
            variables: vec![
                EnvVar { name: "base".into(), value: "http://h".into(), secret: false },
                EnvVar { name: "tok".into(), value: "".into(), secret: true },
            ],
            path: "/root/environments/dev.yml".into(),
        }],
    }
}

#[test]
fn curl_for_a_request() {
    let c = collection();
    assert_eq!(to_curl(None, "a.yml", None, None).unwrap_err(), "collection not loaded");
    assert_eq!(to_curl(Some(&c), "zz", None, None).unwrap_err(), "not found: zz");
    assert_eq!(to_curl(Some(&c), "a.yml", Some("dev"), None).unwrap(), "curl -X GET 'http://h/x'");
    assert_eq!(to_curl(Some(&c), "a.yml", Some("nope"), None).unwrap(), "curl -X GET '{{base}}/x'");
}

#[test]
fn fire_targets() {
    let c = collection();
    assert_eq!(fire_target(None, "a.yml", None).unwrap_err(), "collection not loaded");
    assert_eq!(fire_target(Some(&c), "b", None).unwrap_err(), "request not found: b");
    let (r, e) = fire_target(Some(&c), "a.yml", Some("dev")).unwrap();
    assert_eq!(r.info.name, "Get");
    assert_eq!(e.unwrap().name, "dev");
}

#[test]
fn env_names_and_templates() {
    assert_eq!(check_env_name("  ").unwrap_err(), "new name is empty");
    assert_eq!(check_env_name("a/b").unwrap_err(), "name cannot contain slashes");
    assert_eq!(check_env_name("a\\b").unwrap_err(), "name cannot contain slashes");
    assert!(check_env_name("qa").is_ok());
    let c = collection();
    let e = env_from_template("qa", "/p".into(), Some(&c.envs[0]));
    assert_eq!(e.variables.len(), 2);
    assert_eq!(e.variables[0].name, "base");
    assert_eq!(e.variables[0].value, "");
    assert!(e.variables[1].secret);
}

#[test]
fn copies() {
    assert_eq!(copy_file_name("get", 1), "get-copy.yml");
    assert_eq!(copy_file_name("get", 2), "get-copy2.yml");
    assert_eq!(next_copy_number(1).unwrap(), 2);
    assert_eq!(next_copy_number(MAX_COPIES).unwrap_err(), "too many copies");
    let d = duplicate_of(collection().requests[0].clone(), "/root/a-copy.yml".into());
    assert_eq!(d.info.name, "Get (copy)");
    assert_eq!(d.path, "/root/a-copy.yml");
    assert!(d.id.is_empty() && d.rel_path.is_empty());
}
