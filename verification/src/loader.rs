//! Collection files: what is read from a request file, what is kept of a
//! loaded request, and what is written back.
use vstd::prelude::*;
use crate::http::{lemma_line_end_bounds, line_end};
use crate::order::{
    insertion_point, law_stable_sort_orders_and_keeps, lemma_ins_pos_bounds, sorted_by, stable_fold,
    stable_sort,
};
use crate::model::{Env, HttpSpec, Info, Request, empty_body, spec_empty_body};
use crate::text::{chars_of, extend_chars, slice_chars, spec_starts_with, starts_with, string_from};

verus! {

/// Whether a line of an elided block may be dropped: it begins with a
/// space, a tab or `#`.
pub open spec fn block_line_start(c: char) -> bool {
    c == ' ' || c == '\t' || c == '#'
}

/// What `elide_examples` keeps of the lines of `s` from index `i` on, in
/// the given state: inside a top-level `examples:` block or not.
pub open spec fn elide_from(s: Seq<char>, i: int, skip: bool) -> Seq<char>
    decreases s.len() - i,
{
    if i < 0 || i >= s.len() {
        Seq::empty()
    } else {
        let le = line_end(s, i);
        proof {
            lemma_line_end_bounds(s, i);
        }
        let e = if le < s.len() {
            le + 1
        } else {
            s.len() as int
        };
        let stripped = s.subrange(i, le);
        let line = s.subrange(i, e);
        if !skip && spec_starts_with(stripped, "examples:"@) {
            elide_from(s, e, true)
        } else if skip && stripped.len() == 0 {
            line + elide_from(s, e, true)
        } else if skip && block_line_start(stripped[0]) {
            elide_from(s, e, true)
        } else {
            line + elide_from(s, e, false)
        }
    }
}

/// What `elide_examples` gives for `s`.
pub open spec fn spec_elide_examples(s: Seq<char>) -> Seq<char> {
    elide_from(s, 0, false)
}

/// Removes a top-level `examples:` block from request file text: the
/// `examples:` line and the indented or `#` lines after it. Empty lines
/// inside the block are kept; the first other line ends it.
pub fn elide_examples(s: &str) -> (r: String)
    ensures
        r@ == spec_elide_examples(s@),
{
    let v = chars_of(s);
    let n = v.len();
    let pat = chars_of("examples:");
    let mut out: Vec<char> = Vec::new();
    let mut skip = false;
    let mut i: usize = 0;
    while i < n
        invariant
            i <= n,
            n == v@.len(),
            v@ == s@,
            pat@ == "examples:"@,
            out@ + elide_from(v@, i as int, skip) == spec_elide_examples(v@),
        decreases n - i,
    {
        let mut le = i;
        while le < n && v[le] != '\n'
            invariant
                i <= le <= n,
                n == v@.len(),
                line_end(v@, le as int) == line_end(v@, i as int),
            decreases n - le,
        {
            le = le + 1;
        }
        proof {
            lemma_line_end_bounds(v@, i as int);
        }
        let e = if le < n {
            le + 1
        } else {
            n
        };
        let stripped = slice_chars(v.as_slice(), i, le);
        let ghost before = out@;
        let ghost prev_skip = skip;
        if !skip && starts_with(stripped.as_slice(), pat.as_slice()) {
            skip = true;
        } else if skip && stripped.len() == 0 {
            let line = slice_chars(v.as_slice(), i, e);
            extend_chars(&mut out, line.as_slice());
        } else if skip && (stripped[0] == ' ' || stripped[0] == '\t' || stripped[0] == '#') {
        } else {
            let line = slice_chars(v.as_slice(), i, e);
            extend_chars(&mut out, line.as_slice());
            skip = false;
        }
        assert(out@ + elide_from(v@, e as int, skip) =~= before + elide_from(v@, i as int, prev_skip));
        i = e;
    }
    string_from(out.as_slice())
}

/// Whether a line of `s` begins at `i`.
pub open spec fn line_start(s: Seq<char>, i: int) -> bool {
    0 <= i < s.len() && (i == 0 || s[i - 1] == '\n')
}

/// Whether some line of `s` begins with `examples:`.
pub open spec fn has_examples_line(s: Seq<char>) -> bool {
    exists|i: int|
        #[trigger] line_start(s, i) && spec_starts_with(s.subrange(i, line_end(s, i)), "examples:"@)
}

proof fn lemma_elide_keeps(s: Seq<char>, i: int)
    requires
        0 <= i <= s.len(),
        i == 0 || i == s.len() || s[i - 1] == '\n',
        !has_examples_line(s),
    ensures
        elide_from(s, i, false) == s.skip(i),
    decreases s.len() - i,
{
    if i >= s.len() {
        assert(s.skip(i) =~= Seq::<char>::empty());
    } else {
        lemma_line_end_bounds(s, i);
        let le = line_end(s, i);
        let e = if le < s.len() {
            le + 1
        } else {
            s.len() as int
        };
        assert(line_start(s, i));
        lemma_elide_keeps(s, e);
        assert(s.subrange(i, e) + s.skip(e) =~= s.skip(i));
    }
}

/// Text in which no line begins with `examples:` comes back unchanged.
pub proof fn law_elide_keeps_text_without_examples(s: Seq<char>)
    requires
        !has_examples_line(s),
    ensures
        spec_elide_examples(s) == s,
{
    lemma_elide_keeps(s, 0);
    assert(s.skip(0) =~= s);
}

} // verus!

verus! {

/// The index of the last `.` in `s`, if any.
pub open spec fn last_dot(s: Seq<char>) -> Option<int>
    decreases s.len(),
{
    if s.len() == 0 {
        None
    } else if s.last() == '.' {
        Some(s.len() - 1)
    } else {
        last_dot(s.drop_last())
    }
}

/// The extension of a file name, as `Path::extension` gives it: what
/// follows the last `.`, unless that `.` begins the name.
pub open spec fn spec_extension(name: Seq<char>) -> Option<Seq<char>> {
    match last_dot(name) {
        Some(i) => if i > 0 {
            Some(name.skip(i + 1))
        } else {
            None
        },
        None => None,
    }
}

/// The stem of a file name, as `Path::file_stem` gives it: the name
/// without its extension.
pub open spec fn spec_file_stem(name: Seq<char>) -> Seq<char> {
    match last_dot(name) {
        Some(i) => if i > 0 {
            name.take(i)
        } else {
            name
        },
        None => name,
    }
}

/// The index of the last `.` in `v`.
fn find_last_dot(v: &[char]) -> (r: Option<usize>)
    ensures
        match r {
            Some(i) => last_dot(v@) == Some(i as int) && i < v@.len(),
            None => last_dot(v@) is None,
        },
{
    let mut i = v.len();
    assert(v@.take(i as int) == v@);
    while i > 0
        invariant
            i <= v@.len(),
            last_dot(v@) == last_dot(v@.take(i as int)),
        decreases i,
    {
        assert(v@.take(i as int).drop_last() == v@.take(i - 1));
        if v[i - 1] == '.' {
            return Some(i - 1);
        }
        i = i - 1;
    }
    None
}

/// Whether a file name has the extension `yml`.
pub fn is_yml(name: &str) -> (r: bool)
    ensures
        r == (spec_extension(name@) == Some("yml"@)),
{
    let v = chars_of(name);
    match find_last_dot(v.as_slice()) {
        Some(i) => {
            if i > 0 {
                let vl = v.len();
                let ext = slice_chars(v.as_slice(), i + 1, vl);
                assert(ext@ == v@.skip(i + 1));
                crate::text::str_eq(string_from(ext.as_slice()).as_str(), "yml")
            } else {
                false
            }
        },
        None => false,
    }
}

/// The stem of a file name.
pub fn file_stem(name: &str) -> (r: String)
    ensures
        r@ == spec_file_stem(name@),
{
    let v = chars_of(name);
    match find_last_dot(v.as_slice()) {
        Some(i) => {
            if i > 0 {
                let st = slice_chars(v.as_slice(), 0, i);
                assert(st@ == v@.take(i as int));
                string_from(st.as_slice())
            } else {
                name.to_owned()
            }
        },
        None => name.to_owned(),
    }
}

/// Whether the collection walk leaves out a directory entry of this name:
/// `environments` and hidden entries.
pub fn skip_walk_entry(name: &str) -> (r: bool)
    ensures
        r == (name@ == "environments"@ || spec_starts_with(name@, "."@)),
{
    let v = chars_of(name);
    let dot = chars_of(".");
    crate::text::str_eq(name, "environments") || starts_with(v.as_slice(), dot.as_slice())
}

/// Whether a `.yml` file of this name may hold a request: folder and
/// collection settings files do not.
pub fn may_hold_request(file_name: &str) -> (r: bool)
    ensures
        r == (file_name@ != "folder.yml"@ && file_name@ != "opencollection.yml"@),
{
    !crate::text::str_eq(file_name, "folder.yml") && !crate::text::str_eq(
        file_name,
        "opencollection.yml",
    )
}

/// Whether a parsed file is a request: its type is `http` or it has a
/// method.
pub fn is_request(req: &Request) -> (r: bool)
    ensures
        r == (req.info.kind@ == "http"@ || req.http.method@.len() > 0),
{
    crate::text::str_eq(req.info.kind.as_str(), "http") || !req.http.method.as_str().is_empty()
}

/// A loaded request with its runtime fields set: its path, its path
/// relative to the root, and its id, which is the relative path.
pub fn with_location(req: Request, path: String, rel_path: String) -> (r: Request)
    ensures
        r.info == req.info,
        r.http == req.http,
        r.path == path,
        r.rel_path == rel_path,
        r.id == rel_path,
{
    let id = rel_path.clone();
    Request { path, rel_path, id, ..req }
}

/// A loaded environment: its name defaults to the file stem, and its path
/// is set.
pub fn env_with_location(env: Env, path: String, file_name: &str) -> (r: Env)
    ensures
        r.name@ == if env.name@.len() == 0 {
            spec_file_stem(file_name@)
        } else {
            env.name@
        },
        r.variables == env.variables,
        r.path == path,
{
    let name = if env.name.as_str().is_empty() {
        file_stem(file_name)
    } else {
        env.name
    };
    Env { name, variables: env.variables, path }
}

/// An environment to write to disk: its path, and the environment without
/// the runtime `path`. Fails when there is no path.
pub fn env_for_write(env: Env) -> (r: Result<(String, Env), String>)
    ensures
        match r {
            Ok((p, e)) => env.path@.len() > 0 && p == env.path && e.name == env.name && e.variables
                == env.variables && e.path@.len() == 0,
            Err(msg) => env.path@.len() == 0 && msg@ == "env has no path"@,
        },
{
    if env.path.as_str().is_empty() {
        return Err(String::from_str("env has no path"));
    }
    Ok((env.path, Env { name: env.name, variables: env.variables, path: String::new() }))
}

/// A request to write to disk: its path, and the request without the
/// runtime `path`, `rel_path` and `id`. Fails when there is no path.
pub fn request_for_write(req: Request) -> (r: Result<(String, Request), String>)
    ensures
        match r {
            Ok((p, q)) => req.path@.len() > 0 && p == req.path && q.info == req.info && q.http
                == req.http && q.path@.len() == 0 && q.rel_path@.len() == 0 && q.id@.len() == 0,
            Err(msg) => req.path@.len() == 0 && msg@ == "request has no path"@,
        },
{
    if req.path.as_str().is_empty() {
        return Err(String::from_str("request has no path"));
    }
    Ok(
        (
            req.path,
            Request {
                info: req.info,
                http: req.http,
                path: String::new(),
                rel_path: String::new(),
                id: String::new(),
            },
        ),
    )
}

/// `<name>.yml`
pub fn yml_file_name(name: &str) -> (r: String)
    ensures
        r@ == name@ + ".yml"@,
{
    let mut v = chars_of(name);
    crate::text::extend_str(&mut v, ".yml");
    string_from(v.as_slice())
}

/// A new request file's content: an `http` request of sequence 1 with the
/// given name, method and URL, and nothing else; no runtime field (path,
/// relative path, id) is set, so none is written to the file.
pub fn new_request(name: &str, method: &str, url: &str) -> (r: Request)
    ensures
        r.info.name@ == name@,
        r.info.kind@ == "http"@,
        r.info.seq == 1,
        r.http.method@ == method@,
        r.http.url@ == url@,
        r.http.headers@.len() == 0,
        r.http.params@.len() == 0,
        spec_empty_body(r.http.body),
        r.http.auth is None,
        r.http.auth_config is None,
        r.path@.len() == 0,
        r.rel_path@.len() == 0,
        r.id@.len() == 0,
{
    Request {
        info: Info { name: name.to_owned(), kind: String::from_str("http"), seq: 1 },
        http: HttpSpec {
            method: method.to_owned(),
            url: url.to_owned(),
            headers: Vec::new(),
            params: Vec::new(),
            body: empty_body(),
            auth: None,
            auth_config: None,
        },
        path: String::new(),
        rel_path: String::new(),
        id: String::new(),
    }
}

} // verus!

verus! {

/// The key requests are sorted by: the relative path.
pub open spec fn rel_path_key() -> spec_fn(Request) -> Seq<char> {
    |q: Request| q.rel_path@
}

/// The key environments are sorted by: the name.
pub open spec fn env_name_key() -> spec_fn(Env) -> Seq<char> {
    |e: Env| e.name@
}

/// Requests in order of relative path; equal paths keep their order.
pub fn sort_requests(reqs: Vec<Request>) -> (r: Vec<Request>)
    ensures
        r@ == stable_sort(reqs@, rel_path_key()),
        sorted_by(r@, rel_path_key()),
        r@.to_multiset() == reqs@.to_multiset(),
{
    let ghost orig = reqs@;
    let mut rest = reqs;
    let mut out: Vec<Request> = Vec::new();
    let mut keys: Vec<Vec<char>> = Vec::new();
    while rest.len() > 0
        invariant
            keys@.map_values(|v: Vec<char>| v@) == out@.map_values(rel_path_key()),
            stable_fold(out@, rest@, rel_path_key()) == stable_sort(orig, rel_path_key()),
        decreases rest@.len(),
    {
        let ghost r0 = rest@;
        let x = rest.remove(0);
        assert(rest@ == r0.drop_first());
        let k = chars_of(x.rel_path.as_str());
        let p = insertion_point(&keys, k.as_slice());
        proof {
            lemma_ins_pos_bounds(out@.map_values(rel_path_key()), k@);
        }
        let ghost ob = out@;
        let ghost kb = keys@;
        out.insert(p, x);
        keys.insert(p, k);
        assert(out@ == ob.insert(p as int, x));
        assert(keys@ == kb.insert(p as int, k));
        assert forall|i: int| 0 <= i < out@.len() implies #[trigger] keys@[i]@ == out@[i].rel_path@ by {
            if i < p {
                assert(kb.map_values(|v: Vec<char>| v@)[i] == ob.map_values(rel_path_key())[i]);
            } else if i > p {
                assert(kb.map_values(|v: Vec<char>| v@)[i - 1] == ob.map_values(rel_path_key())[i - 1]);
            }
        }
        assert(keys@.map_values(|v: Vec<char>| v@) =~= out@.map_values(rel_path_key()));
    }
    assert(rest@.len() == 0);
    proof {
        law_stable_sort_orders_and_keeps(orig, rel_path_key());
    }
    out
}

/// Environments in order of name; equal names keep their order.
pub fn sort_envs(envs: Vec<Env>) -> (r: Vec<Env>)
    ensures
        r@ == stable_sort(envs@, env_name_key()),
        sorted_by(r@, env_name_key()),
        r@.to_multiset() == envs@.to_multiset(),
{
    let ghost orig = envs@;
    let mut rest = envs;
    let mut out: Vec<Env> = Vec::new();
    let mut keys: Vec<Vec<char>> = Vec::new();
    while rest.len() > 0
        invariant
            keys@.map_values(|v: Vec<char>| v@) == out@.map_values(env_name_key()),
            stable_fold(out@, rest@, env_name_key()) == stable_sort(orig, env_name_key()),
        decreases rest@.len(),
    {
        let ghost r0 = rest@;
        let x = rest.remove(0);
        assert(rest@ == r0.drop_first());
        let k = chars_of(x.name.as_str());
        let p = insertion_point(&keys, k.as_slice());
        proof {
            lemma_ins_pos_bounds(out@.map_values(env_name_key()), k@);
        }
        let ghost ob = out@;
        let ghost kb = keys@;
        out.insert(p, x);
        keys.insert(p, k);
        assert(out@ == ob.insert(p as int, x));
        assert(keys@ == kb.insert(p as int, k));
        assert forall|i: int| 0 <= i < out@.len() implies #[trigger] keys@[i]@ == out@[i].name@ by {
            if i < p {
                assert(kb.map_values(|v: Vec<char>| v@)[i] == ob.map_values(env_name_key())[i]);
            } else if i > p {
                assert(kb.map_values(|v: Vec<char>| v@)[i - 1] == ob.map_values(env_name_key())[i - 1]);
            }
        }
        assert(keys@.map_values(|v: Vec<char>| v@) =~= out@.map_values(env_name_key()));
    }
    assert(rest@.len() == 0);
    proof {
        law_stable_sort_orders_and_keeps(orig, env_name_key());
    }
    out
}

} // verus!
