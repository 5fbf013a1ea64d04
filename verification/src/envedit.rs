//! The environment editor and the dialogs: the checks they make before
//! they act, a secret flag turned on or off, what is saved of the
//! variables and what is written to the vault.
use vstd::prelude::*;
use crate::model::EnvVar;
use crate::openapi::{is_ascii_alnum, trim_char, trim_end_char, trim_start_char};
use crate::strmap::StrMap;
use crate::text::{ascii_lower, chars_of, spec_ascii_lower, spec_trim, string_from, trim_str};

verus! {

/// An environment name made from a title: ASCII letters and digits
/// lower-cased, every other character `_`, then `_` trimmed from both
/// ends.
pub open spec fn spec_slug_env(s: Seq<char>) -> Seq<char> {
    trim_end_char(
        trim_start_char(
            s.map_values(|c: char| if is_ascii_alnum(c) { spec_ascii_lower(c) } else { '_' }),
            '_',
        ),
        '_',
    )
}

/// An environment name made from a title.
pub fn slug_env(s: &str) -> (r: String)
    ensures
        r@ == spec_slug_env(s@),
{
    let v = chars_of(s);
    let mut u: Vec<char> = Vec::new();
    let mut i: usize = 0;
    while i < v.len()
        invariant
            i <= v@.len(),
            u@ == v@.take(i as int).map_values(
                |c: char| if is_ascii_alnum(c) { spec_ascii_lower(c) } else { '_' },
            ),
        decreases v@.len() - i,
    {
        let c = v[i];
        let alnum = ('a' <= c && c <= 'z') || ('A' <= c && c <= 'Z') || ('0' <= c && c <= '9');
        let m = if alnum {
            ascii_lower(c)
        } else {
            '_'
        };
        u.push(m);
        assert(v@.take(i + 1).map_values(
            |c: char| if is_ascii_alnum(c) { spec_ascii_lower(c) } else { '_' },
        ) =~= v@.take(i as int).map_values(
            |c: char| if is_ascii_alnum(c) { spec_ascii_lower(c) } else { '_' },
        ).push(m));
        i = i + 1;
    }
    assert(v@.take(v@.len() as int) == v@);
    let t = trim_char(u.as_slice(), '_');
    string_from(t.as_slice())
}

/// Checks the new-request dialog: a name and a folder, neither blank.
pub fn check_new_request(name: &str, folder: &str) -> (r: Result<(), String>)
    ensures
        match r {
            Ok(()) => spec_trim(name@).len() > 0 && spec_trim(folder@).len() > 0,
            Err(e) => if spec_trim(name@).len() == 0 {
                e@ == "name required"@
            } else {
                spec_trim(folder@).len() == 0 && e@ == "folder required"@
            },
        },
{
    if trim_str(name).as_str().is_empty() {
        return Err(String::from_str("name required"));
    }
    if trim_str(folder).as_str().is_empty() {
        return Err(String::from_str("folder required"));
    }
    Ok(())
}

/// Checks the curl dialog before parsing: something pasted.
pub fn check_curl_paste(raw: &str) -> (r: Result<(), String>)
    ensures
        match r {
            Ok(()) => spec_trim(raw@).len() > 0,
            Err(e) => spec_trim(raw@).len() == 0 && e@ == "paste a curl command"@,
        },
{
    if trim_str(raw).as_str().is_empty() {
        return Err(String::from_str("paste a curl command"));
    }
    Ok(())
}

/// Checks a name typed in a dialog: not blank.
pub fn check_name(name: &str) -> (r: Result<(), String>)
    ensures
        match r {
            Ok(()) => spec_trim(name@).len() > 0,
            Err(e) => spec_trim(name@).len() == 0 && e@ == "name required"@,
        },
{
    if trim_str(name).as_str().is_empty() {
        return Err(String::from_str("name required"));
    }
    Ok(())
}

/// Checks the OpenAPI dialog before a preview: a spec path.
pub fn check_spec_path(path: &str) -> (r: Result<(), String>)
    ensures
        match r {
            Ok(()) => spec_trim(path@).len() > 0,
            Err(e) => spec_trim(path@).len() == 0 && e@ == "spec path required"@,
        },
{
    if trim_str(path).as_str().is_empty() {
        return Err(String::from_str("spec path required"));
    }
    Ok(())
}

/// Checks the OpenAPI dialog before an import: a preview was made.
pub fn check_previewed(previewed: bool) -> (r: Result<(), String>)
    ensures
        match r {
            Ok(()) => previewed,
            Err(e) => !previewed && e@ == "preview first"@,
        },
{
    if !previewed {
        return Err(String::from_str("preview first"));
    }
    Ok(())
}

/// Checks the unlock dialog: a password, and when the vault is created,
/// the same password typed twice.
pub fn check_unlock(password: &str, confirm: &str, vault_exists: bool) -> (r: Result<(), String>)
    ensures
        match r {
            Ok(()) => password@.len() > 0 && (vault_exists || password@ == confirm@),
            Err(e) => if password@.len() == 0 {
                e@ == "password required"@
            } else {
                !vault_exists && password@ != confirm@ && e@ == "passwords don't match"@
            },
        },
{
    let pc = chars_of(password);
    if pc.len() == 0 {
        return Err(String::from_str("password required"));
    }
    let same = crate::text::str_eq(password, confirm);
    if !vault_exists && !same {
        return Err(String::from_str("passwords don't match"));
    }
    Ok(())
}

/// The mathematical form of a variable.
pub open spec fn var_view(v: EnvVar) -> (Seq<char>, Seq<char>, bool) {
    (v.name@, v.value@, v.secret)
}

/// The mathematical form of a list of variables.
pub open spec fn var_views(vs: Seq<EnvVar>) -> Seq<(Seq<char>, Seq<char>, bool)> {
    vs.map_values(|v: EnvVar| var_view(v))
}

/// A variable as it is saved: a secret keeps its name and flag, its value
/// emptied; a plain variable as it is.
pub open spec fn saved_var(v: (Seq<char>, Seq<char>, bool)) -> (Seq<char>, Seq<char>, bool) {
    if v.2 {
        (v.0, Seq::empty(), true)
    } else {
        v
    }
}

/// The variables as they are written to the environment file: secrets
/// without their values.
pub fn strip_secret_values(vars: &Vec<EnvVar>) -> (r: Vec<EnvVar>)
    ensures
        var_views(r@) == var_views(vars@).map_values(
            |v: (Seq<char>, Seq<char>, bool)| saved_var(v),
        ),
{
    let mut out: Vec<EnvVar> = Vec::new();
    let mut i: usize = 0;
    while i < vars.len()
        invariant
            i <= vars@.len(),
            var_views(out@) == var_views(vars@).take(i as int).map_values(
                |v: (Seq<char>, Seq<char>, bool)| saved_var(v),
            ),
        decreases vars@.len() - i,
    {
        let v = &vars[i];
        let nv = EnvVar {
            name: v.name.clone(),
            value: if v.secret {
                String::new()
            } else {
                v.value.clone()
            },
            secret: v.secret,
        };
        let ghost before = var_views(out@);
        out.push(nv);
        assert(var_views(out@) =~= before.push(var_view(nv)));
        assert(var_views(vars@).take(i + 1).map_values(
            |v: (Seq<char>, Seq<char>, bool)| saved_var(v),
        ) =~= var_views(vars@).take(i as int).map_values(
            |v: (Seq<char>, Seq<char>, bool)| saved_var(v),
        ).push(saved_var(var_view(vars@[i as int]))));
        i = i + 1;
    }
    assert(var_views(vars@).take(vars@.len() as int) =~= var_views(vars@));
    out
}

/// No secret value is written to an environment file.
pub proof fn law_saved_secrets_are_empty(vars: Seq<(Seq<char>, Seq<char>, bool)>, i: int)
    requires
        0 <= i < vars.len(),
    ensures
        vars.map_values(|v: (Seq<char>, Seq<char>, bool)| saved_var(v))[i].2 ==> vars.map_values(
            |v: (Seq<char>, Seq<char>, bool)| saved_var(v),
        )[i].1.len() == 0,
        vars.map_values(|v: (Seq<char>, Seq<char>, bool)| saved_var(v))[i].0 == vars[i].0,
        vars.map_values(|v: (Seq<char>, Seq<char>, bool)| saved_var(v))[i].2 == vars[i].2,
{
}

} // verus!

verus! {

/// Turns the secret flag of variable `idx` on or off. Turning it on moves
/// a non-empty value into the edited secrets and empties the value;
/// turning it off moves the edited secret of that name, if any, back into
/// the value and drops it from the edited secrets.
pub fn set_secret_flag(vars: &mut Vec<EnvVar>, secrets: &mut StrMap, idx: usize, now_secret: bool)
    requires
        idx < old(vars)@.len(),
    ensures
        final(vars)@.len() == old(vars)@.len(),
        forall|j: int|
            0 <= j < old(vars)@.len() && j != idx ==> #[trigger] var_view(final(vars)@[j])
                == var_view(old(vars)@[j]),
        now_secret ==> var_view(final(vars)@[idx as int]) == (
            old(vars)@[idx as int].name@,
            Seq::<char>::empty(),
            true,
        ),
        now_secret ==> final(secrets).as_map() == if old(vars)@[idx as int].value@.len() > 0 {
            old(secrets).as_map().insert(
                old(vars)@[idx as int].name@,
                old(vars)@[idx as int].value@,
            )
        } else {
            old(secrets).as_map()
        },
        !now_secret ==> var_view(final(vars)@[idx as int]) == (
            old(vars)@[idx as int].name@,
            match old(secrets).lookup(old(vars)@[idx as int].name@) {
                Some(s) => s,
                None => old(vars)@[idx as int].value@,
            },
            false,
        ),
        !now_secret ==> final(secrets).as_map() == old(secrets).as_map().remove(
            old(vars)@[idx as int].name@,
        ),
{
    let name = vars[idx].name.clone();
    let value = vars[idx].value.clone();
    let ghost m0 = secrets.as_map();
    let nv = if now_secret {
        if !value.as_str().is_empty() {
            secrets.insert(name.clone(), value);
            assert(secrets.as_map() =~= m0.insert(name@, old(vars)@[idx as int].value@));
        }
        EnvVar { name, value: String::new(), secret: true }
    } else {
        let held = secrets.get(&name);
        secrets.remove(&name);
        assert(secrets.as_map() =~= m0.remove(name@));
        let v = match held {
            Some(s) => s,
            None => value,
        };
        EnvVar { name, value: v, secret: false }
    };
    vars.set(idx, nv);
}

/// Turning a variable with a non-empty value into a secret and back gives
/// the variable back as it was.
pub proof fn law_secret_flag_round_trip(
    name: Seq<char>,
    value: Seq<char>,
    secrets: Map<Seq<char>, Seq<char>>,
)
    requires
        value.len() > 0,
    ensures
        secrets.insert(name, value).get(name) == Some(value),
        secrets.insert(name, value).remove(name) == secrets.remove(name),
{
    assert(secrets.insert(name, value).remove(name) =~= secrets.remove(name));
}

/// A write to the vault: store a secret, or delete it.
#[derive(Debug)]
pub enum SecretWrite {
    Store { name: String, value: String },
    Delete { name: String },
}

/// The mathematical form of a write: the name, and the value stored or
/// none for a delete.
pub open spec fn write_view(w: SecretWrite) -> (Seq<char>, Option<Seq<char>>) {
    match w {
        SecretWrite::Store { name, value } => (name@, Some(value@)),
        SecretWrite::Delete { name } => (name@, None),
    }
}

/// The mathematical form of a list of writes.
pub open spec fn write_views(ws: Seq<SecretWrite>) -> Seq<(Seq<char>, Option<Seq<char>>)> {
    ws.map_values(|w: SecretWrite| write_view(w))
}

/// The writes for the saved variables `vs` and the edited secrets: for
/// each secret variable with an edited value, in order, a delete where the
/// value is empty and a set otherwise.
pub open spec fn planned_writes(
    vs: Seq<(Seq<char>, Seq<char>, bool)>,
    secrets: StrMap,
) -> Seq<(Seq<char>, Option<Seq<char>>)>
    decreases vs.len(),
{
    if vs.len() == 0 {
        Seq::empty()
    } else {
        let v = vs.last();
        let rest = planned_writes(vs.drop_last(), secrets);
        if v.2 && secrets.lookup(v.0) is Some {
            let val = secrets.lookup(v.0)->0;
            rest.push(
                (
                    v.0,
                    if val.len() == 0 {
                        None
                    } else {
                        Some(val)
                    },
                ),
            )
        } else {
            rest
        }
    }
}

/// The writes to the vault when the environment editor saves.
pub fn secret_writes(saved: &Vec<EnvVar>, secrets: &StrMap) -> (r: Vec<SecretWrite>)
    ensures
        write_views(r@) == planned_writes(var_views(saved@), *secrets),
{
    let ghost vv = var_views(saved@);
    let mut out: Vec<SecretWrite> = Vec::new();
    let mut i: usize = 0;
    assert(vv.take(0) =~= Seq::<(Seq<char>, Seq<char>, bool)>::empty());
    while i < saved.len()
        invariant
            i <= saved@.len(),
            vv == var_views(saved@),
            write_views(out@) == planned_writes(vv.take(i as int), *secrets),
        decreases saved@.len() - i,
    {
        let v = &saved[i];
        let ghost before = write_views(out@);
        assert(vv.take(i + 1).drop_last() =~= vv.take(i as int));
        assert(vv.take(i + 1).last() == var_view(*v));
        if v.secret {
            match secrets.get(&v.name) {
                Some(val) => {
                    let w = if val.as_str().is_empty() {
                        SecretWrite::Delete { name: v.name.clone() }
                    } else {
                        SecretWrite::Store { name: v.name.clone(), value: val }
                    };
                    out.push(w);
                    assert(write_views(out@) =~= before.push(write_view(w)));
                },
                None => {},
            }
        }
        i = i + 1;
    }
    assert(vv.take(saved@.len() as int) =~= vv);
    out
}

} // verus!
