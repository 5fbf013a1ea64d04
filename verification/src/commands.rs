//! The decisions behind the client's commands: finding requests and
//! environments in a loaded collection, checking names, and making the
//! records that the commands write.
use vstd::prelude::*;
use crate::curl::{build_curl, spec_build_curl};
use crate::http::{env_vars, resolve_env_vars};
use crate::model::{Collection, Env, EnvVar, Request};
use crate::strmap::StrMap;
use crate::text::{chars_of, extend_str, spec_decimal, string_from};
use crate::vault::VaultData;

verus! {

/// The index of the first request with id `id`.
pub open spec fn find_request_index(reqs: Seq<Request>, id: Seq<char>) -> Option<int>
    decreases reqs.len(),
{
    if reqs.len() == 0 {
        None
    } else if reqs[0].id@ == id {
        Some(0)
    } else {
        match find_request_index(reqs.drop_first(), id) {
            Some(i) => Some(i + 1),
            None => None,
        }
    }
}

/// The index of the first environment named `name`.
pub open spec fn find_env_index(envs: Seq<Env>, name: Seq<char>) -> Option<int>
    decreases envs.len(),
{
    if envs.len() == 0 {
        None
    } else if envs[0].name@ == name {
        Some(0)
    } else {
        match find_env_index(envs.drop_first(), name) {
            Some(i) => Some(i + 1),
            None => None,
        }
    }
}

/// The first request with id `id`.
pub fn find_request<'a>(c: &'a Collection, id: &str) -> (r: Option<&'a Request>)
    ensures
        match find_request_index(c.requests@, id@) {
            Some(i) => r == Some(&c.requests@[i]),
            None => r is None,
        },
{
    let n = c.requests.len();
    let mut i: usize = 0;
    assert(c.requests@.skip(0) == c.requests@);
    while i < n
        invariant
            i <= n,
            n == c.requests@.len(),
            find_request_index(c.requests@, id@) == match find_request_index(c.requests@.skip(i as int), id@) {
                Some(j) => Some(j + i),
                None => None,
            },
        decreases n - i,
    {
        assert(c.requests@.skip(i as int).drop_first() == c.requests@.skip(i + 1));
        assert(c.requests@.skip(i as int)[0] == c.requests@[i as int]);
        if crate::text::str_eq(c.requests[i].id.as_str(), id) {
            return Some(&c.requests[i]);
        }
        i = i + 1;
    }
    None
}

/// The first environment named `name`.
pub fn find_env<'a>(c: &'a Collection, name: &str) -> (r: Option<&'a Env>)
    ensures
        match find_env_index(c.envs@, name@) {
            Some(i) => r == Some(&c.envs@[i]),
            None => r is None,
        },
{
    let n = c.envs.len();
    let mut i: usize = 0;
    assert(c.envs@.skip(0) == c.envs@);
    while i < n
        invariant
            i <= n,
            n == c.envs@.len(),
            find_env_index(c.envs@, name@) == match find_env_index(c.envs@.skip(i as int), name@) {
                Some(j) => Some(j + i),
                None => None,
            },
        decreases n - i,
    {
        assert(c.envs@.skip(i as int).drop_first() == c.envs@.skip(i + 1));
        assert(c.envs@.skip(i as int)[0] == c.envs@[i as int]);
        if crate::text::str_eq(c.envs[i].name.as_str(), name) {
            return Some(&c.envs[i]);
        }
        i = i + 1;
    }
    None
}

/// The environment selected by an optional name: the first of that name,
/// or none.
pub open spec fn selected_env(c: Collection, env_name: Option<&str>) -> Option<Env> {
    match env_name {
        Some(n) => match find_env_index(c.envs@, n@) {
            Some(i) => Some(c.envs@[i]),
            None => None,
        },
        None => None,
    }
}

/// The selected environment.
fn select_env<'a>(c: &'a Collection, env_name: Option<&str>) -> (r: Option<&'a Env>)
    ensures
        match r {
            Some(e) => selected_env(*c, env_name) == Some(*e),
            None => selected_env(*c, env_name) is None,
        },
{
    match env_name {
        Some(n) => find_env(c, n),
        None => None,
    }
}

/// `<prefix><id>`
fn with_id(prefix: &str, id: &str) -> (r: String)
    ensures
        r@ == prefix@ + id@,
{
    let mut v = chars_of(prefix);
    extend_str(&mut v, id);
    string_from(v.as_slice())
}

/// The curl command for request `request_id` of the loaded collection,
/// with the variables of the selected environment filled in.
pub fn to_curl(
    coll: Option<&Collection>,
    request_id: &str,
    env_name: Option<&str>,
    vault_data: Option<&VaultData>,
) -> (r: Result<String, String>)
    ensures
        match coll {
            None => r matches Err(e) && e@ == "collection not loaded"@,
            Some(c) => match find_request_index(c.requests@, request_id@) {
                None => r matches Err(e) && e@ == "not found: "@ + request_id@,
                Some(i) => r matches Ok(s) && s@ == spec_build_curl(
                    c.requests@[i],
                    match selected_env(*c, env_name) {
                        Some(e) => env_vars(Some(&e), vault_data),
                        None => Map::empty(),
                    },
                ),
            },
        },
{
    let c = match coll {
        Some(c) => c,
        None => {
            return Err(String::from_str("collection not loaded"));
        },
    };
    let req = match find_request(c, request_id) {
        Some(q) => q,
        None => {
            return Err(with_id("not found: ", request_id));
        },
    };
    let vars = match select_env(c, env_name) {
        Some(e) => resolve_env_vars(e, vault_data),
        None => {
            let m = StrMap::new();
            assert(m.as_map() =~= Map::<Seq<char>, Seq<char>>::empty());
            m
        },
    };
    Ok(build_curl(req, &vars))
}

/// The request and environment a fire of `request_id` uses, or the error.
pub fn fire_target<'a>(
    coll: Option<&'a Collection>,
    request_id: &str,
    env_name: Option<&str>,
) -> (r: Result<(&'a Request, Option<&'a Env>), String>)
    ensures
        match coll {
            None => r matches Err(e) && e@ == "collection not loaded"@,
            Some(c) => match find_request_index(c.requests@, request_id@) {
                None => r matches Err(e) && e@ == "request not found: "@ + request_id@,
                Some(i) => r matches Ok((q, e)) && *q == c.requests@[i] && match e {
                    Some(x) => selected_env(*c, env_name) == Some(*x),
                    None => selected_env(*c, env_name) is None,
                },
            },
        },
{
    let c = match coll {
        Some(c) => c,
        None => {
            return Err(String::from_str("collection not loaded"));
        },
    };
    let req = match find_request(c, request_id) {
        Some(q) => q,
        None => {
            return Err(with_id("request not found: ", request_id));
        },
    };
    Ok((req, select_env(c, env_name)))
}

/// Checks a new environment name: not blank, and without `/` or `\`.
pub fn check_env_name(new_name: &str) -> (r: Result<(), String>)
    ensures
        match r {
            Ok(()) => crate::text::spec_trim(new_name@).len() > 0 && !new_name@.contains('/')
                && !new_name@.contains('\\'),
            Err(e) => if crate::text::spec_trim(new_name@).len() == 0 {
                e@ == "new name is empty"@
            } else {
                (new_name@.contains('/') || new_name@.contains('\\')) && e@
                    == "name cannot contain slashes"@
            },
        },
{
    if crate::text::trim_str(new_name).as_str().is_empty() {
        return Err(String::from_str("new name is empty"));
    }
    let v = chars_of(new_name);
    let mut i: usize = 0;
    while i < v.len()
        invariant
            i <= v@.len(),
            v@ == new_name@,
            crate::text::spec_trim(new_name@).len() > 0,
            forall|k: int| 0 <= k < i ==> v@[k] != '/' && v@[k] != '\\',
        decreases v@.len() - i,
    {
        if v[i] == '/' || v[i] == '\\' {
            assert(new_name@[i as int] == v@[i as int]);
            return Err(String::from_str("name cannot contain slashes"));
        }
        i = i + 1;
    }
    Ok(())
}

/// A new environment named `name` at `path`, with the variable names and
/// secret flags of `template` (if any) and no values.
pub fn env_from_template(name: &str, path: String, template: Option<&Env>) -> (r: Env)
    ensures
        r.name@ == name@,
        r.path == path,
        match template {
            Some(t) => r.variables@.len() == t.variables@.len() && forall|k: int|
                0 <= k < r.variables@.len() ==> {
                    &&& (#[trigger] r.variables@[k]).name@ == t.variables@[k].name@
                    &&& r.variables@[k].secret == t.variables@[k].secret
                    &&& r.variables@[k].value@.len() == 0
                },
            None => r.variables@.len() == 0,
        },
{
    let mut vars: Vec<EnvVar> = Vec::new();
    match template {
        Some(t) => {
            let mut k: usize = 0;
            while k < t.variables.len()
                invariant
                    k <= t.variables@.len(),
                    vars@.len() == k,
                    forall|j: int|
                        0 <= j < k ==> {
                            &&& (#[trigger] vars@[j]).name@ == t.variables@[j].name@
                            &&& vars@[j].secret == t.variables@[j].secret
                            &&& vars@[j].value@.len() == 0
                        },
                decreases t.variables@.len() - k,
            {
                vars.push(
                    EnvVar {
                        name: t.variables[k].name.clone(),
                        value: String::new(),
                        secret: t.variables[k].secret,
                    },
                );
                k = k + 1;
            }
        },
        None => {},
    }
    Env { name: name.to_owned(), variables: vars, path }
}

/// The template an environment is created from: the first environment of
/// the loaded collection with that name.
pub fn template_env<'a>(coll: Option<&'a Collection>, template_from: Option<&str>) -> (r: Option<&'a Env>)
    ensures
        match (coll, template_from) {
            (Some(c), Some(n)) => match find_env_index(c.envs@, n@) {
                Some(i) => r == Some(&c.envs@[i]),
                None => r is None,
            },
            _ => r is None,
        },
{
    match (coll, template_from) {
        (Some(c), Some(n)) => find_env(c, n),
        _ => None,
    }
}

/// The file name of copy number `n` of a request file with stem `stem`:
/// `<stem>-copy.yml` for the first, `<stem>-copy<n>.yml` after.
pub fn copy_file_name(stem: &str, n: usize) -> (r: String)
    ensures
        r@ == stem@ + "-copy"@ + (if n == 1 {
            Seq::<char>::empty()
        } else {
            spec_decimal(n as nat)
        }) + ".yml"@,
{
    let mut v = chars_of(stem);
    extend_str(&mut v, "-copy");
    if n != 1 {
        let d = crate::text::decimal(n);
        extend_str(&mut v, d.as_str());
    }
    extend_str(&mut v, ".yml");
    string_from(v.as_slice())
}

/// How many copy names a duplicate tries before giving up.
pub const MAX_COPIES: usize = 100;

/// The copy number to try after `n` was taken, or the error once
/// `MAX_COPIES` names were tried.
pub fn next_copy_number(n: usize) -> (r: Result<usize, String>)
    ensures
        match r {
            Ok(m) => m == n + 1 && m <= MAX_COPIES,
            Err(e) => n + 1 > MAX_COPIES && e@ == "too many copies"@,
        },
{
    if n >= MAX_COPIES {
        Err(String::from_str("too many copies"))
    } else {
        Ok(n + 1)
    }
}

/// The copy of a request written by duplicate: named `<name> (copy)`, at
/// `path`, with no runtime `rel_path` or `id`.
pub fn duplicate_of(src: Request, path: String) -> (r: Request)
    ensures
        r.info.name@ == src.info.name@ + " (copy)"@,
        r.info.kind == src.info.kind,
        r.info.seq == src.info.seq,
        r.http == src.http,
        r.path == path,
        r.rel_path@.len() == 0,
        r.id@.len() == 0,
{
    let mut name = chars_of(src.info.name.as_str());
    extend_str(&mut name, " (copy)");
    Request {
        info: crate::model::Info {
            name: string_from(name.as_slice()),
            kind: src.info.kind,
            seq: src.info.seq,
        },
        http: src.http,
        path,
        rel_path: String::new(),
        id: String::new(),
    }
}

} // verus!
