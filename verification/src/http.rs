//! Variable substitution, JSON comment stripping and the assembly of a
//! request to send.
use vstd::prelude::*;
use crate::curl::spec_join;
use crate::model::{Body, Env, EnvVar, KV, Request};
use crate::strmap::StrMap;
use crate::vault::{VaultData, get_from, spec_key};
use crate::text::{
    chars_of, extend_chars, find_from, lemma_find_sound, slice_chars, spec_eq_ignore_ascii_case,
    occurs_at, spec_contains, spec_find, spec_to_uppercase, spec_trim,
    string_from, trim_chars, views,
};

verus! {

/// `{{`
pub open spec fn open_mark() -> Seq<char> {
    seq!['{', '{']
}

/// `}}`
pub open spec fn close_mark() -> Seq<char> {
    seq!['}', '}']
}

/// What `substitute` gives for `s`: the text with every `{{name}}` whose
/// trimmed name `vars` maps replaced by its value, and the trimmed names
/// that were not found, in order of appearance. A `{{` without a later
/// `}}` ends the scan; the rest is kept as it is.
pub open spec fn spec_substitute(s: Seq<char>, vars: Map<Seq<char>, Seq<char>>) -> (Seq<char>, Seq<Seq<char>>)
    decreases s.len(),
{
    match spec_find(s, open_mark()) {
        None => (s, Seq::empty()),
        Some(open) => {
            let after = s.skip(open + 2);
            match spec_find(after, close_mark()) {
                None => (s, Seq::empty()),
                Some(close) => {
                    let raw = after.take(close);
                    let key = spec_trim(raw);
                    let rest = after.skip(close + 2);
                    proof {
                        lemma_find_sound(s, open_mark());
                        lemma_find_sound(after, close_mark());
                    }
                    let tail = spec_substitute(rest, vars);
                    if vars.contains_key(key) {
                        (s.take(open) + vars[key] + tail.0, tail.1)
                    } else {
                        (
                            s.take(open) + open_mark() + raw + close_mark() + tail.0,
                            seq![key] + tail.1,
                        )
                    }
                },
            }
        },
    }
}

/// Replaces `{{name}}` in `s` with values from `vars`. Returns the new text
/// and the names that were not found; those stay in the text as written.
pub fn substitute(s: &str, vars: &StrMap) -> (r: (String, Vec<String>))
    ensures
        (r.0@, views(r.1@)) == spec_substitute(s@, vars.as_map()),
{
    let sv = chars_of(s);
    let n = sv.len();
    let ghost sq = sv@;
    let mut out: Vec<char> = Vec::new();
    let mut missing: Vec<String> = Vec::new();
    let mut pos: usize = 0;
    let open_v: Vec<char> = vec!['{', '{'];
    let close_v: Vec<char> = vec!['}', '}'];
    assert(open_v@ == open_mark());
    assert(close_v@ == close_mark());
    assert(sq.skip(0) == sq);
    loop
        invariant_except_break
            spec_substitute(sq, vars.as_map()) == (
                out@ + spec_substitute(sq.skip(pos as int), vars.as_map()).0,
                views(missing@) + spec_substitute(sq.skip(pos as int), vars.as_map()).1,
            ),
        invariant
            pos <= n,
            n == sq.len(),
            sv@ == sq,
            sq == s@,
            open_v@ == open_mark(),
            close_v@ == close_mark(),
        ensures
            spec_substitute(sq, vars.as_map()) == (out@, views(missing@)),
        decreases n - pos,
    {
        let ghost t = sq.skip(pos as int);
        let f = find_from(sv.as_slice(), pos, open_v.as_slice());
        match f {
            None => {
                let ghost old_out = out@;
                extend_chars(&mut out, &sv.as_slice()[pos..n]);
                assert(sv@.subrange(pos as int, n as int) == t);
                assert(spec_substitute(t, vars.as_map()) == (t, Seq::<Seq<char>>::empty()));
                assert(out@ =~= old_out + t);
                assert(views(missing@) + Seq::<Seq<char>>::empty() =~= views(missing@));
                break;
            },
            Some(i) => {
                proof {
                    lemma_find_sound(t, open_mark());
                }
                let ghost open = i - pos;
                let ghost after = t.skip(open + 2);
                assert(after == sq.skip(i + 2));
                let g = find_from(sv.as_slice(), i + 2, close_v.as_slice());
                match g {
                    None => {
                        let ghost old_out = out@;
                        extend_chars(&mut out, &sv.as_slice()[pos..n]);
                        assert(sv@.subrange(pos as int, n as int) == t);
                        assert(spec_substitute(t, vars.as_map()) == (t, Seq::<Seq<char>>::empty()));
                        assert(out@ =~= old_out + t);
                        assert(views(missing@) + Seq::<Seq<char>>::empty() =~= views(missing@));
                        break;
                    },
                    Some(j) => {
                        proof {
                            lemma_find_sound(after, close_mark());
                        }
                        let ghost close = j - (i + 2);
                        let raw = slice_chars(sv.as_slice(), i + 2, j);
                        assert(raw@ == after.take(close));
                        let key_chars = trim_chars(raw.as_slice());
                        let key = string_from(key_chars.as_slice());
                        let prefix = slice_chars(sv.as_slice(), pos, i);
                        assert(prefix@ == t.take(open));
                        assert(after.skip(close + 2) == sq.skip(j + 2));
                        let ghost tail = spec_substitute(sq.skip(j + 2), vars.as_map());
                        let ghost old_out = out@;
                        let ghost old_missing = views(missing@);
                        assert(spec_substitute(t, vars.as_map()) == if vars.as_map().contains_key(key_chars@) {
                            (t.take(open) + vars.as_map()[key_chars@] + tail.0, tail.1)
                        } else {
                            (
                                t.take(open) + open_mark() + raw@ + close_mark() + tail.0,
                                seq![key_chars@] + tail.1,
                            )
                        });
                        extend_chars(&mut out, prefix.as_slice());
                        match vars.get(&key) {
                            Some(v) => {
                                let vc = chars_of(v.as_str());
                                extend_chars(&mut out, vc.as_slice());
                                assert(out@ + tail.0 =~= old_out + (t.take(open) + vc@ + tail.0));
                                assert(views(missing@) + tail.1 =~= old_missing + tail.1);
                            },
                            None => {
                                out.push('{');
                                out.push('{');
                                extend_chars(&mut out, raw.as_slice());
                                out.push('}');
                                out.push('}');
                                missing.push(key);
                                assert(views(missing@) =~= old_missing.push(key_chars@));
                                assert(out@ + tail.0 =~= old_out + (t.take(open) + open_mark()
                                    + raw@ + close_mark() + tail.0));
                                assert(views(missing@) + tail.1 =~= old_missing + (
                                seq![key_chars@] + tail.1));
                            },
                        }
                        pos = j + 2;
                    },
                }
            },
        }
    }
    (string_from(out.as_slice()), missing)
}

} // verus!

verus! {

/// The index of the first newline at or after `j`, or the length.
pub open spec fn line_end(s: Seq<char>, j: int) -> int
    decreases s.len() - j,
{
    if j >= s.len() || s[j] == '\n' {
        j
    } else {
        line_end(s, j + 1)
    }
}

/// The index of the first `*/` at or after `j`, or where too little text
/// is left for one.
pub open spec fn block_end(s: Seq<char>, j: int) -> int
    decreases s.len() - j,
{
    if j + 1 >= s.len() || (s[j] == '*' && s[j + 1] == '/') {
        j
    } else {
        block_end(s, j + 1)
    }
}

/// What `strip_json_comments` gives for the text from index `i` on, in
/// the given state: inside a string literal or not, and just after a
/// backslash in one or not.
pub open spec fn spec_strip_from(s: Seq<char>, i: int, in_str: bool, escape: bool) -> Seq<char>
    decreases s.len() - i, 0int,
{
    if i < 0 || i >= s.len() {
        Seq::empty()
    } else {
        let c = s[i];
        if in_str {
            if escape {
                seq![c] + spec_strip_from(s, i + 1, true, false)
            } else if c == '\\' {
                seq![c] + spec_strip_from(s, i + 1, true, true)
            } else if c == '"' {
                seq![c] + spec_strip_from(s, i + 1, false, false)
            } else {
                seq![c] + spec_strip_from(s, i + 1, true, false)
            }
        } else if c == '"' {
            seq![c] + spec_strip_from(s, i + 1, true, false)
        } else if c == '/' && i + 1 < s.len() && s[i + 1] == '/' {
            let j = line_end(s, i + 2);
            proof {
                lemma_line_end_bounds(s, i + 2);
            }
            spec_strip_from(s, j, false, false)
        } else if c == '/' && i + 1 < s.len() && s[i + 1] == '*' {
            let j = block_end(s, i + 2);
            proof {
                lemma_block_end_bounds(s, i + 2);
            }
            let k = if j + 2 < s.len() {
                j + 2
            } else {
                s.len() as int
            };
            spec_strip_from(s, k, false, false)
        } else {
            seq![c] + spec_strip_from(s, i + 1, false, false)
        }
    }
}

/// `line_end` does not go back.
pub proof fn lemma_line_end_bounds(s: Seq<char>, j: int)
    ensures
        line_end(s, j) >= j,
        j <= s.len() ==> line_end(s, j) <= s.len(),
        line_end(s, j) < s.len() ==> s[line_end(s, j)] == '\n',
    decreases s.len() - j,
{
    if j >= s.len() || s[j] == '\n' {
    } else {
        lemma_line_end_bounds(s, j + 1);
    }
}

/// `block_end` does not go back.
pub proof fn lemma_block_end_bounds(s: Seq<char>, j: int)
    ensures
        block_end(s, j) >= j,
    decreases s.len() - j,
{
    if j + 1 >= s.len() || (s[j] == '*' && s[j + 1] == '/') {
    } else {
        lemma_block_end_bounds(s, j + 1);
    }
}

/// What `strip_json_comments` gives for `s`.
pub open spec fn spec_strip_json_comments(s: Seq<char>) -> Seq<char> {
    spec_strip_from(s, 0, false, false)
}

/// Removes `//` line comments and `/* … */` block comments from JSON text,
/// leaving string literals (and anything commented-looking in them)
/// intact. A line comment keeps its newline; an unclosed block comment
/// runs to the end.
pub fn strip_json_comments(s: &str) -> (r: String)
    ensures
        r@ == spec_strip_json_comments(s@),
{
    let v = chars_of(s);
    let n = v.len();
    let mut out: Vec<char> = Vec::new();
    let mut i: usize = 0;
    let mut in_str = false;
    let mut escape = false;
    while i < n
        invariant
            i <= n,
            n == v@.len(),
            v@ == s@,
            !in_str ==> !escape,
            out@ + spec_strip_from(v@, i as int, in_str, escape) == spec_strip_json_comments(v@),
        decreases n - i,
    {
        let c = v[i];
        let ghost before = out@;
        if in_str {
            out.push(c);
            if escape {
                escape = false;
            } else if c == '\\' {
                escape = true;
            } else if c == '"' {
                in_str = false;
            }
            i = i + 1;
            assert(out@ + spec_strip_from(v@, i as int, in_str, escape) =~= before + (seq![c]
                + spec_strip_from(v@, i as int, in_str, escape)));
        } else if c == '"' {
            in_str = true;
            out.push('"');
            i = i + 1;
            assert(out@ + spec_strip_from(v@, i as int, in_str, escape) =~= before + (seq![c]
                + spec_strip_from(v@, i as int, in_str, escape)));
        } else if c == '/' && i + 1 < n && v[i + 1] == '/' {
            let mut j = i + 2;
            while j < n && v[j] != '\n'
                invariant
                    i + 2 <= j <= n,
                    n == v@.len(),
                    line_end(v@, j as int) == line_end(v@, i + 2),
                decreases n - j,
            {
                j = j + 1;
            }
            i = j;
        } else if c == '/' && i + 1 < n && v[i + 1] == '*' {
            let mut j = i + 2;
            while j < n - 1 && !(v[j] == '*' && v[j + 1] == '/')
                invariant
                    i + 2 <= j <= n,
                    2 <= n,
                    n == v@.len(),
                    block_end(v@, j as int) == block_end(v@, i + 2),
                decreases n - j,
            {
                j = j + 1;
            }
            i = if j < n - 2 {
                j + 2
            } else {
                n
            };
        } else {
            out.push(c);
            i = i + 1;
            assert(out@ + spec_strip_from(v@, i as int, in_str, escape) =~= before + (seq![c]
                + spec_strip_from(v@, i as int, in_str, escape)));
        }
    }
    string_from(out.as_slice())
}

} // verus!

verus! {

/// The variables of an environment as `resolve_env_vars` gives them, for
/// the first `vs` of its variables: a secret variable takes its value from
/// the vault, and is left out where the vault holds none; any other
/// variable with a non-empty value takes that value; later variables win.
pub open spec fn resolved(
    vs: Seq<EnvVar>,
    env: Seq<char>,
    vault: Option<Map<Seq<char>, Seq<char>>>,
) -> Map<Seq<char>, Seq<char>>
    decreases vs.len(),
{
    if vs.len() == 0 {
        Map::empty()
    } else {
        let m = resolved(vs.drop_last(), env, vault);
        let v = vs.last();
        let k = spec_key(env, v.name@);
        if v.secret {
            if vault is Some && vault->0.contains_key(k) {
                m.insert(v.name@, vault->0[k])
            } else {
                m
            }
        } else if v.value@.len() > 0 {
            m.insert(v.name@, v.value@)
        } else {
            m
        }
    }
}

/// The vault contents as a map, if there is a vault.
pub open spec fn vault_map(vault_data: Option<&VaultData>) -> Option<Map<Seq<char>, Seq<char>>> {
    match vault_data {
        Some(d) => Some(d.secrets.as_map()),
        None => None,
    }
}

/// The values of the variables of `env`: non-secret values from the
/// environment itself, secret values from the vault under
/// `<envName>/<varName>` only. A secret the vault does not hold, and a
/// variable with no value, are left out, so that substitution keeps its
/// `{{name}}`.
pub fn resolve_env_vars(env: &Env, vault_data: Option<&VaultData>) -> (r: StrMap)
    ensures
        r.as_map() == resolved(env.variables@, env.name@, vault_map(vault_data)),
{
    let mut out = StrMap::new();
    let mut i: usize = 0;
    assert(out.as_map() =~= Map::<Seq<char>, Seq<char>>::empty());
    while i < env.variables.len()
        invariant
            i <= env.variables@.len(),
            out.as_map() == resolved(env.variables@.take(i as int), env.name@, vault_map(vault_data)),
        decreases env.variables@.len() - i,
    {
        let v = &env.variables[i];
        let ghost prev = out.as_map();
        let ghost vs = env.variables@.take(i + 1);
        assert(vs.drop_last() == env.variables@.take(i as int));
        assert(vs.last() == *v);
        if v.secret {
            if let Some(data) = vault_data {
                if let Some(val) = get_from(data, env.name.as_str(), v.name.as_str()) {
                    out.insert(v.name.clone(), val);
                    assert(out.as_map() =~= prev.insert(v.name@, data.secrets.as_map()[spec_key(env.name@, v.name@)]));
                }
            }
        } else if !v.value.as_str().is_empty() {
            out.insert(v.name.clone(), v.value.clone());
            assert(out.as_map() =~= prev.insert(v.name@, v.value@));
        }
        i = i + 1;
    }
    assert(env.variables@.take(env.variables@.len() as int) == env.variables@);
    out
}

} // verus!

verus! {

/// How a request authenticates, once variables are filled in.
#[derive(Debug, Clone, PartialEq, Eq)]
pub enum AuthAction {
    /// No authentication is added.
    NoAuth,
    /// A header is added: name and value.
    Header(String, String),
    /// HTTP basic authentication: user and optional password.
    Basic(String, Option<String>),
}

/// A request ready to send: what the sender adds, in order — the query
/// pairs to the URL, then the headers, the authentication, a JSON
/// content type if asked for, and the body.
#[derive(Debug, Clone, PartialEq, Eq)]
pub struct PreparedRequest {
    /// The method, upper-cased.
    pub method: String,
    /// The URL with variables filled in.
    pub url: String,
    /// Query pairs to append to the URL.
    pub query: Vec<(String, String)>,
    /// Headers of the request, variables filled in.
    pub headers: Vec<(String, String)>,
    pub auth: AuthAction,
    /// Whether to add `Content-Type: application/json`.
    pub json_content_type: bool,
    pub body: Option<String>,
}

/// The mathematical form of an `AuthAction`.
pub enum AuthPlan {
    NoAuth,
    Header(Seq<char>, Seq<char>),
    Basic(Seq<char>, Option<Seq<char>>),
}

/// The mathematical form of a `PreparedRequest`.
pub struct RequestPlan {
    pub method: Seq<char>,
    pub url: Seq<char>,
    pub query: Seq<(Seq<char>, Seq<char>)>,
    pub headers: Seq<(Seq<char>, Seq<char>)>,
    pub auth: AuthPlan,
    pub json_content_type: bool,
    pub body: Option<Seq<char>>,
}

/// The views of a list of string pairs.
pub open spec fn pair_views(v: Seq<(String, String)>) -> Seq<(Seq<char>, Seq<char>)> {
    v.map_values(|p: (String, String)| (p.0@, p.1@))
}

/// The mathematical form of an `AuthAction`.
pub open spec fn auth_view(a: AuthAction) -> AuthPlan {
    match a {
        AuthAction::NoAuth => AuthPlan::NoAuth,
        AuthAction::Header(n, v) => AuthPlan::Header(n@, v@),
        AuthAction::Basic(u, p) => AuthPlan::Basic(
            u@,
            match p {
                Some(x) => Some(x@),
                None => None,
            },
        ),
    }
}

/// The mathematical form of a `PreparedRequest`.
pub open spec fn plan_view(p: PreparedRequest) -> RequestPlan {
    RequestPlan {
        method: p.method@,
        url: p.url@,
        query: pair_views(p.query@),
        headers: pair_views(p.headers@),
        auth: auth_view(p.auth),
        json_content_type: p.json_content_type,
        body: match p.body {
            Some(b) => Some(b@),
            None => None,
        },
    }
}

/// Whether a row is enabled: only `Some(false)` disables it.
pub open spec fn row_enabled(h: KV) -> bool {
    h.enabled != Some(false)
}

/// The query pairs from the enabled, named parameter rows, with
/// variables filled in.
pub open spec fn query_from_params(ps: Seq<KV>, vars: Map<Seq<char>, Seq<char>>) -> Seq<(Seq<char>, Seq<char>)>
    decreases ps.len(),
{
    if ps.len() == 0 {
        Seq::empty()
    } else {
        let prev = query_from_params(ps.drop_last(), vars);
        let p = ps.last();
        if row_enabled(p) && p.name@.len() > 0 {
            prev.push((spec_substitute(p.name@, vars).0, spec_substitute(p.value@, vars).0))
        } else {
            prev
        }
    }
}

/// The headers from the enabled header rows, values filled in.
pub open spec fn headers_from_rows(hs: Seq<KV>, vars: Map<Seq<char>, Seq<char>>) -> Seq<(Seq<char>, Seq<char>)>
    decreases hs.len(),
{
    if hs.len() == 0 {
        Seq::empty()
    } else {
        let prev = headers_from_rows(hs.drop_last(), vars);
        let h = hs.last();
        if row_enabled(h) {
            prev.push((h.name@, spec_substitute(h.value@, vars).0))
        } else {
            prev
        }
    }
}

/// The authentication mode: that of `auth_config`, else `inherit`.
pub open spec fn auth_mode(req: Request) -> Seq<char> {
    match req.http.auth_config {
        Some(a) => a.mode@,
        None => "inherit"@,
    }
}

/// The api key query pair, when the mode is `api_key` and the key goes
/// in the query (or nowhere is said) and both name and value are there.
pub open spec fn api_key_query(req: Request, vars: Map<Seq<char>, Seq<char>>) -> Seq<(Seq<char>, Seq<char>)> {
    match req.http.auth_config {
        Some(ac) => {
            let val = spec_substitute(ac.token@, vars).0;
            if auth_mode(req) == "api_key"@ && (ac.location@ == "query"@ || ac.location@.len() == 0)
                && ac.key@.len() > 0 && val.len() > 0 {
                seq![(ac.key@, val)]
            } else {
                Seq::empty()
            }
        },
        None => Seq::empty(),
    }
}

/// Whether some row (enabled or not) is named `name`, in any ASCII case.
pub open spec fn has_row_named(hs: Seq<KV>, name: Seq<char>) -> bool {
    exists|i: int| 0 <= i < hs.len() && spec_eq_ignore_ascii_case((#[trigger] hs[i]).name@, name)
}

/// Whether some enabled row is named `name`, in any ASCII case.
pub open spec fn has_enabled_row_named(hs: Seq<KV>, name: Seq<char>) -> bool {
    exists|i: int|
        0 <= i < hs.len() && row_enabled(#[trigger] hs[i]) && spec_eq_ignore_ascii_case(
            hs[i].name@,
            name,
        )
}

/// The authentication of `req`. An explicit mode wins; `inherit` or any
/// other mode falls back to the `bearerToken` variable. Bearer, basic and
/// the fallback give way to an `Authorization` header of the request.
pub open spec fn spec_auth(req: Request, vars: Map<Seq<char>, Seq<char>>) -> AuthPlan {
    let mode = auth_mode(req);
    let auth_present = has_row_named(req.http.headers@, "authorization"@);
    if mode == "none"@ {
        AuthPlan::NoAuth
    } else if mode == "bearer"@ {
        match req.http.auth_config {
            Some(ac) => {
                let tok = spec_substitute(ac.token@, vars).0;
                if !auth_present && tok.len() > 0 {
                    AuthPlan::Header("Authorization"@, "Bearer "@ + tok)
                } else {
                    AuthPlan::NoAuth
                }
            },
            None => AuthPlan::NoAuth,
        }
    } else if mode == "api_key"@ {
        match req.http.auth_config {
            Some(ac) => {
                let val = spec_substitute(ac.token@, vars).0;
                if ac.location@ == "header"@ && ac.key@.len() > 0 && val.len() > 0 {
                    AuthPlan::Header(ac.key@, val)
                } else {
                    AuthPlan::NoAuth
                }
            },
            None => AuthPlan::NoAuth,
        }
    } else if mode == "basic"@ {
        match req.http.auth_config {
            Some(ac) => {
                let user = spec_substitute(ac.key@, vars).0;
                let pass = spec_substitute(ac.token@, vars).0;
                if !auth_present && user.len() > 0 {
                    AuthPlan::Basic(
                        user,
                        if pass.len() == 0 {
                            None
                        } else {
                            Some(pass)
                        },
                    )
                } else {
                    AuthPlan::NoAuth
                }
            },
            None => AuthPlan::NoAuth,
        }
    } else if !auth_present && vars.contains_key("bearerToken"@) {
        AuthPlan::Header("Authorization"@, "Bearer "@ + vars["bearerToken"@])
    } else {
        AuthPlan::NoAuth
    }
}

/// `o` when it holds non-empty text, else `fallback`, else nothing.
pub open spec fn nonempty_or(o: Option<String>, fallback: Option<String>) -> Seq<char> {
    match o {
        Some(x) if x@.len() > 0 => x@,
        _ => match fallback {
            Some(d) => d@,
            None => Seq::empty(),
        },
    }
}

/// The body text sent for `b`: for `json` and `text` bodies the field of
/// that name when non-empty, else `data`; for other kinds `data`.
pub open spec fn sent_body_raw(b: Body) -> Seq<char> {
    match b.kind {
        Some(k) => if k@ == "json"@ {
            nonempty_or(b.json, b.data)
        } else if k@ == "text"@ {
            nonempty_or(b.text, b.data)
        } else {
            match b.data {
                Some(d) => d@,
                None => Seq::empty(),
            }
        },
        None => Seq::empty(),
    }
}

/// Whether the body is JSON.
pub open spec fn body_kind_is_json(b: Body) -> bool {
    match b.kind {
        Some(k) => k@ == "json"@,
        None => false,
    }
}

/// The plan for sending `req` with the variables `vars`.
pub open spec fn spec_plan(req: Request, vars: Map<Seq<char>, Seq<char>>) -> RequestPlan {
    let raw = sent_body_raw(req.http.body);
    let json = body_kind_is_json(req.http.body);
    let sending = req.http.body.kind is Some && raw.len() > 0;
    let cleaned = if json {
        spec_strip_json_comments(raw)
    } else {
        raw
    };
    RequestPlan {
        method: spec_to_uppercase(req.http.method@),
        url: spec_substitute(req.http.url@, vars).0,
        query: query_from_params(req.http.params@, vars) + api_key_query(req, vars),
        headers: headers_from_rows(req.http.headers@, vars),
        auth: spec_auth(req, vars),
        json_content_type: sending && json && !has_enabled_row_named(
            req.http.headers@,
            "content-type"@,
        ),
        body: if sending {
            Some(spec_substitute(cleaned, vars).0)
        } else {
            None
        },
    }
}

/// The names left unfilled in the enabled, named parameter rows: in each
/// name, then in each value.
pub open spec fn params_missing(ps: Seq<KV>, vars: Map<Seq<char>, Seq<char>>) -> Seq<Seq<char>>
    decreases ps.len(),
{
    if ps.len() == 0 {
        Seq::empty()
    } else {
        let prev = params_missing(ps.drop_last(), vars);
        let p = ps.last();
        if row_enabled(p) && p.name@.len() > 0 {
            prev + spec_substitute(p.name@, vars).1 + spec_substitute(p.value@, vars).1
        } else {
            prev
        }
    }
}

/// The names left unfilled in the values of the enabled header rows.
pub open spec fn headers_missing(hs: Seq<KV>, vars: Map<Seq<char>, Seq<char>>) -> Seq<Seq<char>>
    decreases hs.len(),
{
    if hs.len() == 0 {
        Seq::empty()
    } else {
        let prev = headers_missing(hs.drop_last(), vars);
        let h = hs.last();
        if row_enabled(h) {
            prev + spec_substitute(h.value@, vars).1
        } else {
            prev
        }
    }
}

/// The names left unfilled in what the authentication mode fills: the
/// token for `bearer` and `api_key`, user then password for `basic`.
pub open spec fn auth_missing(req: Request, vars: Map<Seq<char>, Seq<char>>) -> Seq<Seq<char>> {
    match req.http.auth_config {
        Some(ac) => {
            let mode = ac.mode@;
            if mode == "bearer"@ || mode == "api_key"@ {
                spec_substitute(ac.token@, vars).1
            } else if mode == "basic"@ {
                spec_substitute(ac.key@, vars).1 + spec_substitute(ac.token@, vars).1
            } else {
                Seq::empty()
            }
        },
        None => Seq::empty(),
    }
}

/// The body text filled in before sending, comments stripped from JSON.
pub open spec fn cleaned_body(b: Body) -> Seq<char> {
    if body_kind_is_json(b) {
        spec_strip_json_comments(sent_body_raw(b))
    } else {
        sent_body_raw(b)
    }
}

/// Whether a body is sent: it has a kind and some text.
pub open spec fn sends_body(b: Body) -> bool {
    b.kind is Some && sent_body_raw(b).len() > 0
}

/// The names left unfilled in the body that is sent.
pub open spec fn body_missing(req: Request, vars: Map<Seq<char>, Seq<char>>) -> Seq<Seq<char>> {
    if sends_body(req.http.body) {
        spec_substitute(cleaned_body(req.http.body), vars).1
    } else {
        Seq::empty()
    }
}

/// The names left unfilled anywhere but in the URL: parameters, headers,
/// authentication and body, in that order.
pub open spec fn missing_outside_url(req: Request, vars: Map<Seq<char>, Seq<char>>) -> Seq<Seq<char>> {
    params_missing(req.http.params@, vars) + headers_missing(req.http.headers@, vars)
        + auth_missing(req, vars) + body_missing(req, vars)
}

/// The message for unresolved variables outside the URL.
pub open spec fn unresolved_fields_message(names: Seq<Seq<char>>) -> Seq<char> {
    "unresolved var(s): "@ + spec_join(names, ", "@) + " \u{2014} set values via env editor"@
}

/// Whether `names` is the increasing list of the distinct names of `missing`.
pub open spec fn listed_names(names: Seq<Seq<char>>, missing: Seq<Seq<char>>) -> bool {
    crate::order::strictly_sorted(names) && forall|k: Seq<char>| #[trigger] names.contains(k)
        <==> missing.contains(k)
}

/// The variables for an optional environment: none without one.
pub open spec fn env_vars(
    env: Option<&Env>,
    vault_data: Option<&VaultData>,
) -> Map<Seq<char>, Seq<char>> {
    match env {
        Some(e) => resolved(e.variables@, e.name@, vault_map(vault_data)),
        None => Map::empty(),
    }
}

/// The message for unresolved variables in a URL.
pub open spec fn unresolved_message(names: Seq<Seq<char>>) -> Seq<char> {
    "unresolved var(s) in url: "@ + spec_join(names, ", "@) + " \u{2014} set values via env editor"@
}

} // verus!

verus! {

/// Appends the names of `more` to `out`.
fn push_all(out: &mut Vec<String>, more: Vec<String>)
    ensures
        views(final(out)@) == views(old(out)@) + views(more@),
{
    let ghost start = views(out@);
    let mut i: usize = 0;
    while i < more.len()
        invariant
            i <= more@.len(),
            views(out@) == start + views(more@).take(i as int),
        decreases more@.len() - i,
    {
        let ghost before = views(out@);
        let x = more[i].clone();
        assert(x@ == views(more@)[i as int]);
        out.push(x);
        assert(views(out@) =~= before.push(x@));
        assert(views(more@).take(i + 1) =~= views(more@).take(i as int).push(views(more@)[i as int]));
        assert(views(out@) =~= start + views(more@).take(i + 1));
        i = i + 1;
    }
    assert(views(more@).take(more@.len() as int) =~= views(more@));
}

/// The query pairs from the parameter rows; the names left unfilled are
/// added to `missing`.
fn query_pairs(ps: &Vec<KV>, vars: &StrMap, missing: &mut Vec<String>) -> (r: Vec<(String, String)>)
    ensures
        pair_views(r@) == query_from_params(ps@, vars.as_map()),
        views(final(missing)@) == views(old(missing)@) + params_missing(ps@, vars.as_map()),
{
    let ghost m0 = views(missing@);
    let mut out: Vec<(String, String)> = Vec::new();
    let mut i: usize = 0;
    assert(pair_views(out@) =~= query_from_params(ps@.take(0), vars.as_map()));
    while i < ps.len()
        invariant
            i <= ps@.len(),
            pair_views(out@) == query_from_params(ps@.take(i as int), vars.as_map()),
            views(missing@) == m0 + params_missing(ps@.take(i as int), vars.as_map()),
        decreases ps@.len() - i,
    {
        let p = &ps[i];
        assert(ps@.take(i + 1).drop_last() =~= ps@.take(i as int));
        assert(ps@.take(i + 1).last() == *p);
        if p.enabled != Some(false) && !p.name.as_str().is_empty() {
            let (k, mk) = substitute(p.name.as_str(), vars);
            let (v, mv) = substitute(p.value.as_str(), vars);
            let ghost before = pair_views(out@);
            out.push((k, v));
            assert(pair_views(out@) =~= before.push((k@, v@)));
            let ghost mb = views(missing@);
            push_all(missing, mk);
            push_all(missing, mv);
            assert(views(missing@) =~= m0 + (params_missing(ps@.take(i as int), vars.as_map())
                + views(mk@) + views(mv@)));
        }
        i = i + 1;
    }
    assert(ps@.take(ps@.len() as int) =~= ps@);
    out
}

/// The headers from the enabled header rows; the names left unfilled are
/// added to `missing`.
fn header_rows(hs: &Vec<KV>, vars: &StrMap, missing: &mut Vec<String>) -> (r: Vec<(String, String)>)
    ensures
        pair_views(r@) == headers_from_rows(hs@, vars.as_map()),
        views(final(missing)@) == views(old(missing)@) + headers_missing(hs@, vars.as_map()),
{
    let ghost m0 = views(missing@);
    let mut out: Vec<(String, String)> = Vec::new();
    let mut i: usize = 0;
    assert(pair_views(out@) =~= headers_from_rows(hs@.take(0), vars.as_map()));
    while i < hs.len()
        invariant
            i <= hs@.len(),
            pair_views(out@) == headers_from_rows(hs@.take(i as int), vars.as_map()),
            views(missing@) == m0 + headers_missing(hs@.take(i as int), vars.as_map()),
        decreases hs@.len() - i,
    {
        let h = &hs[i];
        assert(hs@.take(i + 1).drop_last() =~= hs@.take(i as int));
        assert(hs@.take(i + 1).last() == *h);
        if h.enabled != Some(false) {
            let (v, mv) = substitute(h.value.as_str(), vars);
            let ghost before = pair_views(out@);
            out.push((h.name.clone(), v));
            assert(pair_views(out@) =~= before.push((h.name@, v@)));
            push_all(missing, mv);
            assert(views(missing@) =~= m0 + (headers_missing(hs@.take(i as int), vars.as_map())
                + views(mv@)));
        }
        i = i + 1;
    }
    assert(hs@.take(hs@.len() as int) =~= hs@);
    out
}

/// Whether some row, enabled or not, is named `name` in any ASCII case.
fn any_row_named(hs: &Vec<KV>, name: &str, enabled_only: bool) -> (r: bool)
    ensures
        r == if enabled_only {
            has_enabled_row_named(hs@, name@)
        } else {
            has_row_named(hs@, name@)
        },
{
    let mut i: usize = 0;
    while i < hs.len()
        invariant
            i <= hs@.len(),
            forall|k: int|
                0 <= k < i ==> !((!enabled_only || row_enabled(#[trigger] hs@[k]))
                    && spec_eq_ignore_ascii_case(hs@[k].name@, name@)),
        decreases hs@.len() - i,
    {
        let on = hs[i].enabled != Some(false);
        if (!enabled_only || on) && crate::text::str_eq_ignore_ascii_case(
            hs[i].name.as_str(),
            name,
        ) {
            return true;
        }
        i = i + 1;
    }
    false
}

/// `Bearer <tok>`.
fn bearer(tok: &str) -> (r: String)
    ensures
        r@ == "Bearer "@ + tok@,
{
    let mut v = chars_of("Bearer ");
    crate::text::extend_str(&mut v, tok);
    string_from(v.as_slice())
}

/// The authentication of `req`.
fn auth_for(req: &Request, vars: &StrMap) -> (r: AuthAction)
    ensures
        auth_view(r) == spec_auth(*req, vars.as_map()),
{
    let present = any_row_named(&req.http.headers, "authorization", false);
    let inherit = String::from_str("inherit");
    let mode: &str = match &req.http.auth_config {
        Some(a) => a.mode.as_str(),
        None => inherit.as_str(),
    };
    assert(mode@ == auth_mode(*req));
    if crate::text::str_eq(mode, "none") {
        AuthAction::NoAuth
    } else if crate::text::str_eq(mode, "bearer") {
        match &req.http.auth_config {
            Some(ac) => {
                let (tok, _) = substitute(ac.token.as_str(), vars);
                if !present && !tok.as_str().is_empty() {
                    AuthAction::Header(String::from_str("Authorization"), bearer(tok.as_str()))
                } else {
                    AuthAction::NoAuth
                }
            },
            None => AuthAction::NoAuth,
        }
    } else if crate::text::str_eq(mode, "api_key") {
        match &req.http.auth_config {
            Some(ac) => {
                let (val, _) = substitute(ac.token.as_str(), vars);
                if crate::text::str_eq(ac.location.as_str(), "header") && !ac.key.as_str().is_empty()
                    && !val.as_str().is_empty() {
                    AuthAction::Header(ac.key.clone(), val)
                } else {
                    AuthAction::NoAuth
                }
            },
            None => AuthAction::NoAuth,
        }
    } else if crate::text::str_eq(mode, "basic") {
        match &req.http.auth_config {
            Some(ac) => {
                let (user, _) = substitute(ac.key.as_str(), vars);
                let (pass, _) = substitute(ac.token.as_str(), vars);
                if !present && !user.as_str().is_empty() {
                    let p = if pass.as_str().is_empty() {
                        None
                    } else {
                        Some(pass)
                    };
                    AuthAction::Basic(user, p)
                } else {
                    AuthAction::NoAuth
                }
            },
            None => AuthAction::NoAuth,
        }
    } else if !present {
        match vars.get(&String::from_str("bearerToken")) {
            Some(tok) => AuthAction::Header(String::from_str("Authorization"), bearer(tok.as_str())),
            None => AuthAction::NoAuth,
        }
    } else {
        AuthAction::NoAuth
    }
}

/// `o` when it holds non-empty text, else `fallback`, else empty.
fn nonempty_or_exec(o: &Option<String>, fallback: &Option<String>) -> (r: String)
    ensures
        r@ == nonempty_or(*o, *fallback),
{
    match o {
        Some(x) => {
            if !x.as_str().is_empty() {
                return x.clone();
            }
        },
        None => {},
    }
    match fallback {
        Some(d) => d.clone(),
        None => String::new(),
    }
}

/// The body text sent for `b`.
fn sent_body(b: &Body) -> (r: String)
    ensures
        r@ == sent_body_raw(*b),
{
    match &b.kind {
        Some(k) => {
            if crate::text::str_eq(k.as_str(), "json") {
                nonempty_or_exec(&b.json, &b.data)
            } else if crate::text::str_eq(k.as_str(), "text") {
                nonempty_or_exec(&b.text, &b.data)
            } else {
                match &b.data {
                    Some(d) => d.clone(),
                    None => String::new(),
                }
            }
        },
        None => String::new(),
    }
}

/// The distinct names of `missing`, increasing, joined by `, `.
fn name_list(missing: &Vec<String>) -> (r: Vec<char>)
    ensures
        exists|names: Seq<Seq<char>>| listed_names(names, views(missing@)) && r@ == spec_join(
            names,
            ", "@,
        ),
{
    let names = crate::order::sorted_unique(missing);
    let mut parts: Vec<Vec<char>> = Vec::new();
    let mut i: usize = 0;
    while i < names.len()
        invariant
            i <= names@.len(),
            parts@.map_values(|l: Vec<char>| l@) == views(names@).take(i as int),
        decreases names@.len() - i,
    {
        parts.push(chars_of(names[i].as_str()));
        assert(views(names@).take(i + 1) =~= views(names@).take(i as int).push(names@[i as int]@));
        assert(parts@.map_values(|l: Vec<char>| l@) =~= views(names@).take(i + 1));
        i = i + 1;
    }
    assert(views(names@).take(names@.len() as int) =~= views(names@));
    let sep = chars_of(", ");
    let r = crate::curl::join_lines(&parts, sep.as_slice());
    assert(listed_names(views(names@), views(missing@)));
    r
}

/// The names left unfilled in what the authentication mode fills.
fn auth_missing_names(req: &Request, vars: &StrMap) -> (r: Vec<String>)
    ensures
        views(r@) == auth_missing(*req, vars.as_map()),
{
    match &req.http.auth_config {
        Some(ac) => {
            if crate::text::str_eq(ac.mode.as_str(), "bearer") || crate::text::str_eq(
                ac.mode.as_str(),
                "api_key",
            ) {
                let (_, m) = substitute(ac.token.as_str(), vars);
                m
            } else if crate::text::str_eq(ac.mode.as_str(), "basic") {
                let (_, mut m) = substitute(ac.key.as_str(), vars);
                let (_, m2) = substitute(ac.token.as_str(), vars);
                push_all(&mut m, m2);
                m
            } else {
                let m: Vec<String> = Vec::new();
                assert(views(m@) =~= Seq::<Seq<char>>::empty());
                m
            }
        },
        None => {
            let m: Vec<String> = Vec::new();
            assert(views(m@) =~= Seq::<Seq<char>>::empty());
            m
        },
    }
}

/// Prepares `req` for sending with the variables of `env`.
///
/// Fills `{{var}}` in the URL, the enabled parameters and headers, the
/// authentication and the body; strips comments from a JSON body; adds
/// `Content-Type: application/json` for a JSON body without an enabled
/// content type. Fails loudly, naming the variables, when the URL still
/// holds `{{` after substitution, or else when any variable is left
/// unfilled in the parameters, headers, authentication or body.
pub fn prepare_request(
    req: &Request,
    env: Option<&Env>,
    vault_data: Option<&VaultData>,
) -> (r: Result<PreparedRequest, String>)
    ensures
        ({
            let vars = env_vars(env, vault_data);
            let url = spec_substitute(req.http.url@, vars);
            let rest = missing_outside_url(*req, vars);
            match r {
                Ok(p) => !spec_contains(url.0, open_mark()) && rest.len() == 0 && plan_view(p)
                    == spec_plan(*req, vars),
                Err(e) => if spec_contains(url.0, open_mark()) {
                    exists|names: Seq<Seq<char>>|
                        listed_names(names, url.1) && e@ == unresolved_message(names)
                } else {
                    rest.len() > 0 && exists|names: Seq<Seq<char>>|
                        listed_names(names, rest) && e@ == unresolved_fields_message(names)
                },
            }
        }),
{
    let vars = match env {
        Some(e) => resolve_env_vars(e, vault_data),
        None => {
            let m = StrMap::new();
            assert(m.as_map() =~= Map::<Seq<char>, Seq<char>>::empty());
            m
        },
    };
    let ghost vm = vars.as_map();
    assert(vm == env_vars(env, vault_data));
    let (url, missing) = substitute(req.http.url.as_str(), &vars);
    let uc = chars_of(url.as_str());
    let om: Vec<char> = vec!['{', '{'];
    assert(om@ == open_mark());
    if crate::text::contains_chars(uc.as_slice(), om.as_slice()) {
        let listed = name_list(&missing);
        let ghost names = choose|names: Seq<Seq<char>>|
            listed_names(names, views(missing@)) && listed@ == spec_join(names, ", "@);
        let mut msg = chars_of("unresolved var(s) in url: ");
        extend_chars(&mut msg, listed.as_slice());
        crate::text::extend_str(&mut msg, " \u{2014} set values via env editor");
        assert(msg@ =~= unresolved_message(names));
        return Err(string_from(msg.as_slice()));
    }
    let mut rest: Vec<String> = Vec::new();
    assert(views(rest@) =~= Seq::<Seq<char>>::empty());
    let method = crate::text::to_uppercase(req.http.method.as_str());
    let mut query = query_pairs(&req.http.params, &vars, &mut rest);
    let ghost q0 = pair_views(query@);
    match &req.http.auth_config {
        Some(ac) => {
            if crate::text::str_eq(ac.mode.as_str(), "api_key") && (crate::text::str_eq(
                ac.location.as_str(),
                "query",
            ) || ac.location.as_str().is_empty()) {
                let (val, _) = substitute(ac.token.as_str(), &vars);
                if !ac.key.as_str().is_empty() && !val.as_str().is_empty() {
                    query.push((ac.key.clone(), val));
                    assert(pair_views(query@) =~= q0 + api_key_query(*req, vm));
                } else {
                    assert(pair_views(query@) =~= q0 + api_key_query(*req, vm));
                }
            } else {
                assert(pair_views(query@) =~= q0 + api_key_query(*req, vm));
            }
        },
        None => {
            assert(pair_views(query@) =~= q0 + api_key_query(*req, vm));
        },
    }
    let headers = header_rows(&req.http.headers, &vars, &mut rest);
    push_all(&mut rest, auth_missing_names(req, &vars));
    let auth = auth_for(req, &vars);
    let raw = sent_body(&req.http.body);
    let json = match &req.http.body.kind {
        Some(k) => crate::text::str_eq(k.as_str(), "json"),
        None => false,
    };
    let mut json_content_type = false;
    let mut body: Option<String> = None;
    if req.http.body.kind.is_some() && !raw.as_str().is_empty() {
        let cleaned = if json {
            strip_json_comments(raw.as_str())
        } else {
            raw
        };
        let (sub, mb) = substitute(cleaned.as_str(), &vars);
        push_all(&mut rest, mb);
        let has_ct = any_row_named(&req.http.headers, "content-type", true);
        json_content_type = json && !has_ct;
        body = Some(sub);
    }
    assert(views(rest@) =~= missing_outside_url(*req, vm));
    if rest.len() > 0 {
        let listed = name_list(&rest);
        let ghost names = choose|names: Seq<Seq<char>>|
            listed_names(names, views(rest@)) && listed@ == spec_join(names, ", "@);
        let mut msg = chars_of("unresolved var(s): ");
        extend_chars(&mut msg, listed.as_slice());
        crate::text::extend_str(&mut msg, " \u{2014} set values via env editor");
        assert(msg@ =~= unresolved_fields_message(names));
        return Err(string_from(msg.as_slice()));
    }
    Ok(PreparedRequest { method, url, query, headers, auth, json_content_type, body })
}

} // verus!

verus! {

/// A response as the client shows it.
#[derive(Debug, Clone, PartialEq, Eq)]
pub struct FiredResponse {
    pub status: u16,
    pub status_text: String,
    pub latency_ms: u64,
    pub headers: Vec<(String, String)>,
    pub body: String,
    pub is_json: bool,
    pub final_url: String,
}

/// The text that `serde_json` gives when it parses `text` into a
/// `serde_json::Value` and writes that value back pretty-printed; `None`
/// when either step fails.
pub uninterp spec fn spec_json_pretty(text: Seq<char>) -> Option<Seq<char>>;

/// Parses `text` with `serde_json::from_str::<serde_json::Value>` and
/// writes the value with `serde_json::to_string_pretty`. The result is
/// claimed to be a function of `text` alone; what that function is, is
/// serde_json's and is not stated here.
#[verifier::external_body]
fn json_pretty(text: &str) -> (r: Option<String>)
    ensures
        match r {
            Some(p) => spec_json_pretty(text@) == Some(p@),
            None => spec_json_pretty(text@) is None,
        },
{
    match serde_json::from_str::<serde_json::Value>(text) {
        Ok(v) => serde_json::to_string_pretty(&v).ok(),
        Err(_) => None,
    }
}

/// Whether some `content-type` header (any ASCII case) mentions `json`.
pub open spec fn response_is_json(hs: Seq<(Seq<char>, Seq<char>)>) -> bool {
    exists|i: int|
        0 <= i < hs.len() && spec_eq_ignore_ascii_case((#[trigger] hs[i]).0, "content-type"@)
            && spec_contains(hs[i].1, "json"@)
}

/// The body shown for a response: pretty-printed when it is JSON and
/// parses, else as received.
pub open spec fn shown_body(is_json: bool, text: Seq<char>) -> Seq<char> {
    if is_json {
        match spec_json_pretty(text) {
            Some(p) => p,
            None => text,
        }
    } else {
        text
    }
}

/// The response to show for what the server sent.
pub fn finish_response(
    status: u16,
    status_text: String,
    latency_ms: u64,
    headers: Vec<(String, String)>,
    text: String,
    final_url: String,
) -> (r: FiredResponse)
    ensures
        r.status == status,
        r.status_text == status_text,
        r.latency_ms == latency_ms,
        r.headers == headers,
        r.final_url == final_url,
        r.is_json == response_is_json(pair_views(headers@)),
        r.body@ == shown_body(r.is_json, text@),
{
    let json = chars_of("json");
    let mut is_json = false;
    let mut i: usize = 0;
    while i < headers.len()
        invariant
            i <= headers@.len(),
            json@ == "json"@,
            is_json == exists|k: int|
                0 <= k < i && spec_eq_ignore_ascii_case((#[trigger] pair_views(headers@)[k]).0, "content-type"@)
                    && spec_contains(pair_views(headers@)[k].1, "json"@),
        decreases headers@.len() - i,
    {
        assert(pair_views(headers@)[i as int] == (headers@[i as int].0@, headers@[i as int].1@));
        if !is_json {
            let v = chars_of(headers[i].1.as_str());
            if crate::text::str_eq_ignore_ascii_case(headers[i].0.as_str(), "content-type")
                && crate::text::contains_chars(v.as_slice(), json.as_slice()) {
                is_json = true;
            }
        }
        i = i + 1;
    }
    let body = if is_json {
        match json_pretty(text.as_str()) {
            Some(p) => p,
            None => text,
        }
    } else {
        text
    };
    FiredResponse { status, status_text, latency_ms, headers, body, is_json, final_url }
}

} // verus!

verus! {

/// Text without `{{` comes back unchanged, and nothing is reported
/// missing.
pub proof fn law_substitute_plain_text(s: Seq<char>, vars: Map<Seq<char>, Seq<char>>)
    requires
        !spec_contains(s, open_mark()),
    ensures
        spec_substitute(s, vars) == (s, Seq::<Seq<char>>::empty()),
{
}

/// With no variables at all, every `{{name}}` stays as written: the text
/// comes back unchanged.
pub proof fn law_substitute_keeps_unresolved(s: Seq<char>)
    ensures
        spec_substitute(s, Map::empty()).0 == s,
    decreases s.len(),
{
    let vars = Map::<Seq<char>, Seq<char>>::empty();
    match spec_find(s, open_mark()) {
        None => {},
        Some(open) => {
            lemma_find_sound(s, open_mark());
            let after = s.skip(open + 2);
            match spec_find(after, close_mark()) {
                None => {},
                Some(close) => {
                    lemma_find_sound(after, close_mark());
                    let raw = after.take(close);
                    let rest = after.skip(close + 2);
                    law_substitute_keeps_unresolved(rest);
                    assert(s.subrange(open, open + 2) == open_mark());
                    assert(after.subrange(close, close + 2) == close_mark());
                    assert(s =~= s.take(open) + open_mark() + raw + close_mark() + rest) by {
                        assert(s.take(open) + s.subrange(open, open + 2) + after =~= s);
                        assert(raw + after.subrange(close, close + 2) + rest =~= after);
                    }
                },
            }
        },
    }
}

/// Every name reported missing is one that the variables do not hold.
pub proof fn law_missing_are_unknown(s: Seq<char>, vars: Map<Seq<char>, Seq<char>>)
    ensures
        forall|i: int|
            0 <= i < spec_substitute(s, vars).1.len() ==> !vars.contains_key(
                #[trigger] spec_substitute(s, vars).1[i],
            ),
    decreases s.len(),
{
    match spec_find(s, open_mark()) {
        None => {},
        Some(open) => {
            lemma_find_sound(s, open_mark());
            let after = s.skip(open + 2);
            match spec_find(after, close_mark()) {
                None => {},
                Some(close) => {
                    lemma_find_sound(after, close_mark());
                    let rest = after.skip(close + 2);
                    law_missing_are_unknown(rest, vars);
                    let key = spec_trim(after.take(close));
                    let tail = spec_substitute(rest, vars);
                    if !vars.contains_key(key) {
                        assert forall|i: int|
                            0 <= i < (seq![key] + tail.1).len() implies !vars.contains_key(
                            #[trigger] (seq![key] + tail.1)[i],
                        ) by {
                            if i > 0 {
                                assert((seq![key] + tail.1)[i] == tail.1[i - 1]);
                            }
                        }
                    }
                },
            }
        },
    }
}

/// The trimmed names of the complete `{{name}}` placeholders of `s`, left
/// to right, repeats included, whatever the variables.
pub open spec fn placeholders(s: Seq<char>) -> Seq<Seq<char>>
    decreases s.len(),
{
    match spec_find(s, open_mark()) {
        None => Seq::empty(),
        Some(open) => {
            let after = s.skip(open + 2);
            match spec_find(after, close_mark()) {
                None => Seq::empty(),
                Some(close) => {
                    proof {
                        lemma_find_sound(s, open_mark());
                        lemma_find_sound(after, close_mark());
                    }
                    seq![spec_trim(after.take(close))] + placeholders(after.skip(close + 2))
                },
            }
        },
    }
}

/// The names substitution reports missing are exactly the placeholders
/// of the text, left to right with repeats, whose names the variables do
/// not hold.
pub proof fn law_missing_are_the_unknown_placeholders(s: Seq<char>, vars: Map<Seq<char>, Seq<char>>)
    ensures
        spec_substitute(s, vars).1 == placeholders(s).filter(|k: Seq<char>| !vars.contains_key(k)),
    decreases s.len(),
{
    let pred = |k: Seq<char>| !vars.contains_key(k);
    match spec_find(s, open_mark()) {
        None => {
            assert(Seq::<Seq<char>>::empty().filter(pred) =~= Seq::<Seq<char>>::empty());
        },
        Some(open) => {
            lemma_find_sound(s, open_mark());
            let after = s.skip(open + 2);
            match spec_find(after, close_mark()) {
                None => {
                    assert(Seq::<Seq<char>>::empty().filter(pred) =~= Seq::<Seq<char>>::empty());
                },
                Some(close) => {
                    lemma_find_sound(after, close_mark());
                    let rest = after.skip(close + 2);
                    law_missing_are_the_unknown_placeholders(rest, vars);
                    let key = spec_trim(after.take(close));
                    Seq::filter_distributes_over_add(seq![key], placeholders(rest), pred);
                    reveal_with_fuel(Seq::filter, 2);
                    assert(seq![key].drop_last() =~= Seq::<Seq<char>>::empty());
                    if vars.contains_key(key) {
                        assert(seq![key].filter(pred) =~= Seq::<Seq<char>>::empty());
                        assert(Seq::<Seq<char>>::empty() + placeholders(rest).filter(pred)
                            =~= placeholders(rest).filter(pred));
                    } else {
                        assert(seq![key].filter(pred) =~= seq![key]);
                    }
                },
            }
        },
    }
}

/// Whether the text from index `i` on, read in the given string state,
/// holds no `/` outside its string literals.
pub open spec fn no_slash_outside_strings(s: Seq<char>, i: int, in_str: bool, escape: bool) -> bool
    decreases s.len() - i,
{
    if i < 0 || i >= s.len() {
        true
    } else {
        let c = s[i];
        if in_str {
            if escape {
                no_slash_outside_strings(s, i + 1, true, false)
            } else if c == '\\' {
                no_slash_outside_strings(s, i + 1, true, true)
            } else if c == '"' {
                no_slash_outside_strings(s, i + 1, false, false)
            } else {
                no_slash_outside_strings(s, i + 1, true, false)
            }
        } else if c == '"' {
            no_slash_outside_strings(s, i + 1, true, false)
        } else {
            c != '/' && no_slash_outside_strings(s, i + 1, false, false)
        }
    }
}

/// Comment stripping from index `i` on keeps the rest as it is when no
/// `/` stands outside a string literal there.
proof fn lemma_strip_no_slash(s: Seq<char>, i: int, in_str: bool, escape: bool)
    requires
        0 <= i <= s.len(),
        no_slash_outside_strings(s, i, in_str, escape),
    ensures
        spec_strip_from(s, i, in_str, escape) == s.skip(i),
    decreases s.len() - i,
{
    if i < s.len() {
        let c = s[i];
        let (a, b) = if in_str {
            if escape {
                (true, false)
            } else if c == '\\' {
                (true, true)
            } else if c == '"' {
                (false, false)
            } else {
                (true, false)
            }
        } else if c == '"' {
            (true, false)
        } else {
            (false, false)
        };
        lemma_strip_no_slash(s, i + 1, a, b);
        assert(s.skip(i) =~= seq![c] + s.skip(i + 1));
    } else {
        assert(s.skip(i) =~= Seq::<char>::empty());
    }
}

/// JSON text with no `/` outside its string literals holds no comment and
/// comes back unchanged, whatever its string literals hold.
pub proof fn law_strip_keeps_text_without_slash(s: Seq<char>)
    requires
        no_slash_outside_strings(s, 0, false, false),
    ensures
        spec_strip_json_comments(s) == s,
{
    lemma_strip_no_slash(s, 0, false, false);
    assert(s.skip(0) =~= s);
}

/// A line comment is dropped up to its end, and the newline that ends it
/// is kept.
pub proof fn law_line_comment_keeps_its_newline(s: Seq<char>, i: int)
    requires
        0 <= i,
        i + 1 < s.len(),
        s[i] == '/',
        s[i + 1] == '/',
        line_end(s, i + 2) < s.len(),
    ensures
        spec_strip_from(s, i, false, false) == seq!['\n'] + spec_strip_from(
            s,
            line_end(s, i + 2) + 1,
            false,
            false,
        ),
{
    lemma_line_end_bounds(s, i + 2);
    let j = line_end(s, i + 2);
    assert(s[j] == '\n');
    assert(spec_strip_from(s, j, false, false) == seq![s[j]] + spec_strip_from(s, j + 1, false, false));
}

} // verus!

verus! {

proof fn lemma_strip_in_string(x: Seq<char>, i: int, s: Seq<char>)
    requires
        0 <= i,
        i + s.len() < x.len(),
        x.subrange(i, i + s.len()) == s,
        x[i + s.len()] == '"',
        !s.contains('"'),
        !s.contains('\\'),
    ensures
        spec_strip_from(x, i, true, false) == s + seq!['"'] + spec_strip_from(
            x,
            i + s.len() + 1,
            false,
            false,
        ),
    decreases s.len(),
{
    if s.len() == 0 {
        assert(s + seq!['"'] =~= seq!['"']);
    } else {
        assert(x[i] == x.subrange(i, i + s.len())[0]);
        assert(s[0] != '"' && s[0] != '\\') by {
            assert(s.contains(s[0]));
        }
        let t = s.drop_first();
        assert(x.subrange(i + 1, i + 1 + t.len()) =~= t) by {
            assert forall|k: int| 0 <= k < t.len() implies x.subrange(i + 1, i + 1 + t.len())[k]
                == t[k] by {
                assert(x.subrange(i, i + s.len())[k + 1] == x[i + 1 + k]);
            }
        }
        assert(!t.contains('"') && !t.contains('\\')) by {
            if t.contains('"') {
                let k = choose|k: int| 0 <= k < t.len() && t[k] == '"';
                assert(s[k + 1] == '"');
            }
            if t.contains('\\') {
                let k = choose|k: int| 0 <= k < t.len() && t[k] == '\\';
                assert(s[k + 1] == '\\');
            }
        }
        lemma_strip_in_string(x, i + 1, t);
        assert(seq![s[0]] + (t + seq!['"']) =~= s + seq!['"']);
    }
}

/// Comment markers inside a string literal are text: a literal without
/// quotes or backslashes inside comes back from comment stripping as it is.
pub proof fn law_strip_keeps_string_literal(s: Seq<char>)
    requires
        !s.contains('"'),
        !s.contains('\\'),
    ensures
        spec_strip_json_comments(seq!['"'] + s + seq!['"']) == seq!['"'] + s + seq!['"'],
{
    let x = seq!['"'] + s + seq!['"'];
    assert(x.subrange(1, 1 + s.len() as int) =~= s);
    lemma_strip_in_string(x, 1, s);
    assert(spec_strip_from(x, x.len() as int, false, false) == Seq::<char>::empty());
    assert(seq!['"'] + (s + seq!['"']) =~= x);
}

} // verus!

verus! {

/// The bearer helper: a request without its own authentication mode and
/// without an `Authorization` header is sent with `Authorization: Bearer`
/// and the environment's `bearerToken`, when it has one.
pub proof fn law_env_bearer_token(req: Request, vars: Map<Seq<char>, Seq<char>>)
    requires
        req.http.auth_config is None,
        !has_row_named(req.http.headers@, "authorization"@),
        vars.contains_key("bearerToken"@),
    ensures
        spec_plan(req, vars).auth == AuthPlan::Header(
            "Authorization"@,
            "Bearer "@ + vars["bearerToken"@],
        ),
{
    reveal_strlit("inherit");
    reveal_strlit("none");
    reveal_strlit("bearer");
    reveal_strlit("api_key");
    reveal_strlit("basic");
    assert("inherit"@[0] == 'i');
    assert("none"@[0] == 'n' && "bearer"@[0] == 'b' && "api_key"@[0] == 'a' && "basic"@[0] == 'b');
    assert("inherit"@ != "none"@);
    assert("inherit"@ != "bearer"@);
    assert("inherit"@ != "api_key"@);
    assert("inherit"@ != "basic"@);
}

/// A secret variable takes its value from the vault at send time: when the
/// vault holds `<env>/<name>` and no later variable has the same name,
/// the resolved variables map the name to the vault's value.
pub proof fn law_secret_comes_from_vault(
    vs: Seq<EnvVar>,
    env: Seq<char>,
    vault: Map<Seq<char>, Seq<char>>,
    i: int,
)
    requires
        0 <= i < vs.len(),
        vs[i].secret,
        vault.contains_key(spec_key(env, vs[i].name@)),
        forall|j: int| i < j < vs.len() ==> (#[trigger] vs[j]).name@ != vs[i].name@,
    ensures
        resolved(vs, env, Some(vault)).contains_key(vs[i].name@),
        resolved(vs, env, Some(vault))[vs[i].name@] == vault[spec_key(env, vs[i].name@)],
    decreases vs.len(),
{
    if i < vs.len() - 1 {
        let rest = vs.drop_last();
        assert(rest[i] == vs[i]);
        assert forall|j: int| i < j < rest.len() implies (#[trigger] rest[j]).name@ != rest[i].name@ by {
            assert(rest[j] == vs[j]);
        }
        law_secret_comes_from_vault(rest, env, vault, i);
        assert(vs.last() == vs[vs.len() - 1]);
    }
}

} // verus!

verus! {

/// The text of `url` parsed as reqwest's `Url` with the query pairs
/// appended, form-encoded; none where `url` does not parse.
pub uninterp spec fn spec_url_with_query(url: Seq<char>, query: Seq<(Seq<char>, Seq<char>)>) -> Option<
    Seq<char>,
>;

/// Parses `url` with `reqwest::Url::parse` and appends each pair with
/// `query_pairs_mut().append_pair`, giving the URL's text. The result is
/// named, not stated; the error is the parser's message.
#[verifier::external_body]
fn url_with_query(url: &str, query: &Vec<(String, String)>) -> (r: Result<String, String>)
    ensures
        match r {
            Ok(u) => spec_url_with_query(url@, pair_views(query@)) == Some(u@),
            Err(_) => spec_url_with_query(url@, pair_views(query@)) is None,
        },
{
    let mut parsed = match reqwest::Url::parse(url) {
        Ok(u) => u,
        Err(e) => return Err(e.to_string()),
    };
    for (k, v) in query {
        parsed.query_pairs_mut().append_pair(k, v);
    }
    Ok(parsed.to_string())
}

/// The URL a prepared request goes to: its URL with its query pairs
/// appended, or `invalid url `<url>`: <reason>` where the URL does not
/// parse.
pub fn request_url(p: &PreparedRequest) -> (r: Result<String, String>)
    ensures
        match r {
            Ok(u) => spec_url_with_query(p.url@, pair_views(p.query@)) == Some(u@),
            Err(e) => spec_url_with_query(p.url@, pair_views(p.query@)) is None && exists|why: Seq<char>|
                e@ == "invalid url `"@ + p.url@ + "`: "@ + why,
        },
{
    match url_with_query(p.url.as_str(), &p.query) {
        Ok(u) => Ok(u),
        Err(why) => {
            let mut msg = chars_of("invalid url `");
            crate::text::extend_str(&mut msg, p.url.as_str());
            crate::text::extend_str(&mut msg, "`: ");
            crate::text::extend_str(&mut msg, why.as_str());
            assert(msg@ =~= "invalid url `"@ + p.url@ + "`: "@ + why@);
            Err(string_from(msg.as_slice()))
        },
    }
}

} // verus!

verus! {

/// For each character of `s` from index `i` on, read in the given string
/// state as the comment stripper reads it: whether it is kept, and whether
/// it belongs to a string literal (its quotes included).
pub open spec fn strip_marks(s: Seq<char>, i: int, in_str: bool, escape: bool) -> Seq<(bool, bool)>
    decreases s.len() - i,
{
    if i < 0 || i >= s.len() {
        Seq::empty()
    } else {
        let c = s[i];
        if in_str {
            if escape {
                seq![(true, true)] + strip_marks(s, i + 1, true, false)
            } else if c == '\\' {
                seq![(true, true)] + strip_marks(s, i + 1, true, true)
            } else if c == '"' {
                seq![(true, true)] + strip_marks(s, i + 1, false, false)
            } else {
                seq![(true, true)] + strip_marks(s, i + 1, true, false)
            }
        } else if c == '"' {
            seq![(true, true)] + strip_marks(s, i + 1, true, false)
        } else if c == '/' && i + 1 < s.len() && s[i + 1] == '/' {
            let j = line_end(s, i + 2);
            proof {
                lemma_line_end_bounds(s, i + 2);
            }
            Seq::new((j - i) as nat, |k: int| (false, false)) + strip_marks(s, j, false, false)
        } else if c == '/' && i + 1 < s.len() && s[i + 1] == '*' {
            let j = block_end(s, i + 2);
            proof {
                lemma_block_end_bounds(s, i + 2);
            }
            let k = if j + 2 < s.len() {
                j + 2
            } else {
                s.len() as int
            };
            Seq::new((k - i) as nat, |x: int| (false, false)) + strip_marks(s, k, false, false)
        } else {
            seq![(true, false)] + strip_marks(s, i + 1, false, false)
        }
    }
}

/// The characters of `t` marked kept in `m`, in order.
pub open spec fn kept_chars(t: Seq<char>, m: Seq<(bool, bool)>) -> Seq<char>
    decreases t.len(),
{
    if t.len() == 0 || m.len() == 0 {
        Seq::empty()
    } else {
        (if m[0].0 {
            seq![t[0]]
        } else {
            Seq::empty()
        }) + kept_chars(t.drop_first(), m.drop_first())
    }
}

proof fn lemma_kept_none(t: Seq<char>, m: Seq<(bool, bool)>, rest_t: Seq<char>, rest_m: Seq<(bool, bool)>)
    requires
        t.len() == m.len(),
        forall|k: int| 0 <= k < m.len() ==> !(#[trigger] m[k]).0,
    ensures
        kept_chars(t + rest_t, m + rest_m) == kept_chars(rest_t, rest_m),
    decreases t.len(),
{
    if t.len() > 0 {
        assert(!m[0].0);
        assert((t + rest_t).drop_first() =~= t.drop_first() + rest_t);
        assert((m + rest_m).drop_first() =~= m.drop_first() + rest_m);
        assert forall|k: int| 0 <= k < m.drop_first().len() implies !(#[trigger] m.drop_first()[k]).0 by {
            assert(m.drop_first()[k] == m[k + 1]);
        }
        lemma_kept_none(t.drop_first(), m.drop_first(), rest_t, rest_m);
    } else {
        assert(t + rest_t =~= rest_t);
        assert(m + rest_m =~= rest_m);
    }
}

proof fn lemma_strip_marks(s: Seq<char>, i: int, in_str: bool, escape: bool)
    requires
        0 <= i <= s.len(),
    ensures
        strip_marks(s, i, in_str, escape).len() == s.len() - i,
        spec_strip_from(s, i, in_str, escape) == kept_chars(s.skip(i), strip_marks(s, i, in_str, escape)),
        forall|k: int|
            0 <= k < s.len() - i ==> (#[trigger] strip_marks(s, i, in_str, escape)[k]).1
                ==> strip_marks(s, i, in_str, escape)[k].0,
    decreases s.len() - i,
{
    let m = strip_marks(s, i, in_str, escape);
    if i >= s.len() {
        assert(s.skip(i).len() == 0);
    } else {
        let c = s[i];
        let t = s.skip(i);
        assert(t[0] == c);
        if in_str || c == '"' || !(c == '/' && i + 1 < s.len() && (s[i + 1] == '/' || s[i + 1] == '*')) {
            let (a, b) = if in_str {
                if escape {
                    (true, false)
                } else if c == '\\' {
                    (true, true)
                } else if c == '"' {
                    (false, false)
                } else {
                    (true, false)
                }
            } else if c == '"' {
                (true, false)
            } else {
                (false, false)
            };
            lemma_strip_marks(s, i + 1, a, b);
            let r = strip_marks(s, i + 1, a, b);
            assert(m == seq![(true, in_str || c == '"')] + r);
            assert(m.drop_first() =~= r);
            assert(t.drop_first() =~= s.skip(i + 1));
            assert forall|k: int| 0 <= k < s.len() - i implies (#[trigger] m[k]).1 ==> m[k].0 by {
                if k > 0 {
                    assert(m[k] == r[k - 1]);
                }
            }
        } else if s[i + 1] == '/' {
            lemma_line_end_bounds(s, i + 2);
            let j = line_end(s, i + 2);
            lemma_strip_marks(s, j, false, false);
            let run = Seq::new((j - i) as nat, |k: int| (false, false));
            let r = strip_marks(s, j, false, false);
            assert(t =~= s.subrange(i, j) + s.skip(j));
            lemma_kept_none(s.subrange(i, j), run, s.skip(j), r);
            assert forall|k: int| 0 <= k < s.len() - i implies (#[trigger] m[k]).1 ==> m[k].0 by {
                if k >= j - i {
                    assert(m[k] == r[k - (j - i)]);
                }
            }
        } else {
            lemma_block_end_bounds(s, i + 2);
            let j = block_end(s, i + 2);
            let k2 = if j + 2 < s.len() {
                j + 2
            } else {
                s.len() as int
            };
            lemma_strip_marks(s, k2, false, false);
            let run = Seq::new((k2 - i) as nat, |x: int| (false, false));
            let r = strip_marks(s, k2, false, false);
            assert(t =~= s.subrange(i, k2) + s.skip(k2));
            lemma_kept_none(s.subrange(i, k2), run, s.skip(k2), r);
            assert forall|k: int| 0 <= k < s.len() - i implies (#[trigger] m[k]).1 ==> m[k].0 by {
                if k >= k2 - i {
                    assert(m[k] == r[k - (k2 - i)]);
                }
            }
        }
    }
}

/// Comment stripping only deletes: the result is `s` with the characters
/// marked dropped taken out, in order, and every character of a string
/// literal (quotes and escapes included) is kept.
pub proof fn law_strip_keeps_string_literals(s: Seq<char>)
    ensures
        strip_marks(s, 0, false, false).len() == s.len(),
        spec_strip_json_comments(s) == kept_chars(s, strip_marks(s, 0, false, false)),
        forall|k: int|
            0 <= k < s.len() ==> (#[trigger] strip_marks(s, 0, false, false)[k]).1 ==> strip_marks(
                s,
                0,
                false,
                false,
            )[k].0,
{
    lemma_strip_marks(s, 0, false, false);
    assert(s.skip(0) =~= s);
}

} // verus!

verus! {

/// Where `s` holds `pat` at `i` and nowhere before, `spec_find` finds `i`.
proof fn lemma_find_first(s: Seq<char>, pat: Seq<char>, i: int)
    requires
        occurs_at(s, pat, i),
        forall|j: int| 0 <= j < i ==> !occurs_at(s, pat, j),
    ensures
        spec_find(s, pat) == Some(i),
{
    lemma_find_sound(s, pat);
    if let Some(f) = spec_find(s, pat) {
    }
}

/// A text that is one placeholder `{{n}}`, with a name free of braces and
/// of surrounding whitespace, is filled with the variable's value.
proof fn lemma_substitute_placeholder(n: Seq<char>, vars: Map<Seq<char>, Seq<char>>)
    requires
        forall|k: int| 0 <= k < n.len() ==> n[k] != '}' && n[k] != '{',
        spec_trim(n) == n,
        vars.contains_key(n),
    ensures
        spec_substitute(open_mark() + n + close_mark(), vars).0 == vars[n],
{
    let s = open_mark() + n + close_mark();
    assert(occurs_at(s, open_mark(), 0)) by {
        assert(s.subrange(0, 2) =~= open_mark());
    }
    lemma_find_first(s, open_mark(), 0);
    let after = s.skip(2);
    assert(after =~= n + close_mark());
    assert(occurs_at(after, close_mark(), n.len() as int)) by {
        assert(after.subrange(n.len() as int, n.len() as int + 2) =~= close_mark());
    }
    assert forall|j: int| 0 <= j < n.len() implies !occurs_at(after, close_mark(), j) by {
        if occurs_at(after, close_mark(), j) {
            assert(after.subrange(j, j + 2)[0] == after[j]);
            assert(after[j] == n[j]);
        }
    }
    lemma_find_first(after, close_mark(), n.len() as int);
    assert(after.take(n.len() as int) =~= n);
    let rest = after.skip(n.len() as int + 2);
    assert(rest =~= Seq::<char>::empty());
    assert(spec_find(rest, open_mark()) is None);
    assert(spec_substitute(rest, vars).0 == rest);
    assert(s.take(0) =~= Seq::<char>::empty());
    assert(spec_substitute(s, vars).0 == s.take(0) + vars[n] + spec_substitute(rest, vars).0);
    assert(Seq::<char>::empty() + vars[n] + Seq::<char>::empty() =~= vars[n]);
}

/// In `bearer` mode, for a request without an `Authorization` header, the
/// header sent is `Bearer ` and the token with `{{vars}}` filled in, and
/// none when that comes out empty. A token that is one placeholder
/// `{{name}}` of a variable with a value is sent as `Bearer ` and that
/// value.
pub proof fn law_bearer_token_is_filled(req: Request, vars: Map<Seq<char>, Seq<char>>)
    requires
        req.http.auth_config is Some,
        req.http.auth_config->0.mode@ == "bearer"@,
        !has_row_named(req.http.headers@, "authorization"@),
    ensures
        ({
            let tok = spec_substitute(req.http.auth_config->0.token@, vars).0;
            spec_plan(req, vars).auth == if tok.len() > 0 {
                AuthPlan::Header("Authorization"@, "Bearer "@ + tok)
            } else {
                AuthPlan::NoAuth
            }
        }),
        forall|n: Seq<char>|
            #![trigger vars[n]]
            req.http.auth_config->0.token@ == open_mark() + n + close_mark() && (forall|k: int|
                0 <= k < n.len() ==> n[k] != '}' && n[k] != '{') && spec_trim(n) == n
                && vars.contains_key(n) && vars[n].len() > 0 ==> spec_plan(req, vars).auth
                == AuthPlan::Header("Authorization"@, "Bearer "@ + vars[n]),
{
    reveal_strlit("bearer");
    reveal_strlit("none");
    assert("bearer"@.len() != "none"@.len());
    assert forall|n: Seq<char>|
        #![trigger vars[n]]
        req.http.auth_config->0.token@ == open_mark() + n + close_mark() && (forall|k: int|
            0 <= k < n.len() ==> n[k] != '}' && n[k] != '{') && spec_trim(n) == n
            && vars.contains_key(n) && vars[n].len() > 0 implies spec_plan(req, vars).auth
            == AuthPlan::Header("Authorization"@, "Bearer "@ + vars[n]) by {
        lemma_substitute_placeholder(n, vars);
    }
}

} // verus!
