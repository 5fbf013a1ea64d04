//! OpenAPI 3 import: one request per operation, foldered by first tag,
//! with a suggested environment.
//!
//! The library reads a plain model of the spec (`ApiSpec`) that holds what
//! the importer looks at; examples are kept as pretty-printed JSON text.
use vstd::prelude::*;
use crate::model::{
    Body, BodyView, EnvVar, HttpSpec, Info, KV, KVView, Request, body_view, copy_opt, empty_body,
    kv_view, kv_views, opt_str,
};
use crate::text::{
    chars_of, extend_str, slice_chars, spec_eq_ignore_ascii_case, spec_to_lowercase,
    string_from, to_lowercase, views,
};

verus! {

/// Where a parameter goes.
#[derive(Debug, Clone, Copy, PartialEq, Eq)]
pub enum ParamLocation {
    Query,
    Header,
    Path,
    Cookie,
}

/// A parameter, as far as the importer reads it.
#[derive(Debug, Clone, PartialEq, Eq)]
pub struct ParamSpec {
    pub location: ParamLocation,
    pub name: String,
    /// The example, if there is one.
    pub example: Option<ParamExample>,
    pub description: Option<String>,
}

/// A parameter or a reference to one (`#/components/parameters/<name>`).
#[derive(Debug, Clone, PartialEq, Eq)]
pub enum ParamRef {
    Item(ParamSpec),
    Reference(String),
}

/// A schema or a reference to one (`#/components/schemas/<name>`).
#[derive(Debug, Clone, PartialEq, Eq)]
pub enum SchemaRef {
    Item,
    Reference(String),
}

/// The example of a parameter.
#[derive(Debug, Clone, PartialEq, Eq)]
pub enum ParamExample {
    /// A JSON string.
    Text(String),
    /// Any other JSON value.
    Other,
}

/// An entry of an `examples` map.
#[derive(Debug, Clone, PartialEq, Eq)]
pub enum ExampleValue {
    /// An example with a value, pretty-printed.
    Value(String),
    /// A reference, an example without a value, or one that could not be
    /// printed.
    Unusable,
}

/// The content of a request body for one media type.
#[derive(Debug, Clone, PartialEq, Eq)]
pub struct MediaContent {
    /// The `example`, pretty-printed.
    pub example: Option<String>,
    /// The entries of `examples`, in order.
    pub examples: Vec<ExampleValue>,
    pub schema: Option<SchemaRef>,
}

/// A request body or a reference to one.
#[derive(Debug, Clone, PartialEq, Eq)]
pub enum RequestBodyRef {
    /// A request body, with its content for each media type, in order.
    Item(Vec<(String, MediaContent)>),
    Reference,
}

/// An operation, as far as the importer reads it.
#[derive(Debug, Clone, PartialEq, Eq)]
pub struct OperationSpec {
    pub operation_id: Option<String>,
    pub summary: Option<String>,
    pub tags: Vec<String>,
    pub parameters: Vec<ParamRef>,
    pub request_body: Option<RequestBodyRef>,
}

/// The operations of a path, one slot per method.
#[derive(Debug, Clone, PartialEq, Eq)]
pub struct PathOps {
    pub get: Option<OperationSpec>,
    pub post: Option<OperationSpec>,
    pub put: Option<OperationSpec>,
    pub patch: Option<OperationSpec>,
    pub delete: Option<OperationSpec>,
    pub head: Option<OperationSpec>,
    pub options: Option<OperationSpec>,
    pub trace: Option<OperationSpec>,
}

/// A path of the spec; `ops` is `None` for a reference.
#[derive(Debug, Clone, PartialEq, Eq)]
pub struct PathEntry {
    pub path: String,
    pub ops: Option<PathOps>,
}

/// A security scheme.
#[derive(Debug, Clone, PartialEq, Eq)]
pub enum SecuritySchemeSpec {
    /// HTTP authentication with the given scheme name.
    Http(String),
    /// An api key with the given parameter name.
    ApiKey(String),
    /// Any other scheme.
    Other,
}

/// The components of the spec that the importer reads.
#[derive(Debug, Clone, PartialEq, Eq)]
pub struct ComponentsSpec {
    /// Schema names, each with whether it is a schema (not a reference).
    pub schemas: Vec<(String, bool)>,
    pub parameters: Vec<(String, ParamRef)>,
    /// Security schemes in order; `None` for a reference.
    pub security_schemes: Vec<Option<SecuritySchemeSpec>>,
}

/// An OpenAPI 3 spec, as far as the importer reads it.
#[derive(Debug, Clone, PartialEq, Eq)]
pub struct ApiSpec {
    pub title: String,
    pub version: String,
    /// Server URLs in order.
    pub servers: Vec<String>,
    pub paths: Vec<PathEntry>,
    pub components: Option<ComponentsSpec>,
}

/// A variable the imported environment should have.
#[derive(Debug, Clone, PartialEq, Eq)]
pub struct SuggestedVar {
    pub name: String,
    pub secret: bool,
    pub value: String,
}

/// An operation listed in an import preview.
#[derive(Debug, Clone, PartialEq, Eq)]
pub struct SampleOp {
    pub method: String,
    pub name: String,
    pub folder: String,
    pub path: String,
}

/// What an import would bring.
#[derive(Debug, Clone, PartialEq, Eq)]
pub struct ImportPreview {
    pub title: String,
    pub version: String,
    pub op_count: usize,
    pub folder_count: usize,
    pub suggested_vars: Vec<SuggestedVar>,
    pub sample_ops: Vec<SampleOp>,
}

/// What an import did.
#[derive(Debug, Clone, PartialEq, Eq)]
pub struct ImportStats {
    pub written: usize,
    pub skipped_existing: usize,
    pub folder_prefix: String,
    pub env_created: Option<String>,
}

/// Whether `c` is an ASCII letter or digit.
pub open spec fn is_ascii_alnum(c: char) -> bool {
    ('a' <= c && c <= 'z') || ('A' <= c && c <= 'Z') || ('0' <= c && c <= '9')
}

/// Every character that is not an ASCII letter or digit made `_`.
pub open spec fn underscored(s: Seq<char>) -> Seq<char> {
    s.map_values(|c: char| if is_ascii_alnum(c) { c } else { '_' })
}

/// `s` without leading `c`s.
pub open spec fn trim_start_char(s: Seq<char>, c: char) -> Seq<char>
    decreases s.len(),
{
    if s.len() > 0 && s[0] == c {
        trim_start_char(s.drop_first(), c)
    } else {
        s
    }
}

/// `s` without trailing `c`s.
pub open spec fn trim_end_char(s: Seq<char>, c: char) -> Seq<char>
    decreases s.len(),
{
    if s.len() > 0 && s.last() == c {
        trim_end_char(s.drop_last(), c)
    } else {
        s
    }
}

/// A file-name-safe form of `s`: non-alphanumerics made `_`, then `_`
/// trimmed from both ends.
pub open spec fn spec_slug(s: Seq<char>) -> Seq<char> {
    trim_end_char(trim_start_char(underscored(s), '_'), '_')
}

/// `v` without leading and trailing `c`s.
pub(crate) fn trim_char(v: &[char], c: char) -> (r: Vec<char>)
    ensures
        r@ == trim_end_char(trim_start_char(v@, c), c),
{
    let n = v.len();
    let mut a: usize = 0;
    assert(v@.subrange(0, n as int) == v@);
    while a < n && v[a] == c
        invariant
            a <= n,
            n == v@.len(),
            trim_start_char(v@, c) == trim_start_char(v@.subrange(a as int, n as int), c),
        decreases n - a,
    {
        assert(v@.subrange(a as int, n as int).drop_first() == v@.subrange(a + 1, n as int));
        a = a + 1;
    }
    let ghost t = v@.subrange(a as int, n as int);
    let mut b: usize = n;
    assert(t.subrange(0, (b - a) as int) == t);
    while b > a && v[b - 1] == c
        invariant
            a <= b <= n,
            n == v@.len(),
            t == v@.subrange(a as int, n as int),
            trim_start_char(t, c) == t || (t.len() > 0 && t[0] != c),
            trim_end_char(t, c) == trim_end_char(v@.subrange(a as int, b as int), c),
        decreases b - a,
    {
        assert(v@.subrange(a as int, b as int).drop_last() == v@.subrange(a as int, b - 1));
        b = b - 1;
    }
    slice_chars(v, a, b)
}

/// A file-name-safe form of `s`.
pub fn slug(s: &str) -> (r: String)
    ensures
        r@ == spec_slug(s@),
{
    let v = chars_of(s);
    let mut u: Vec<char> = Vec::new();
    let mut i: usize = 0;
    while i < v.len()
        invariant
            i <= v@.len(),
            u@ == underscored(v@.take(i as int)),
        decreases v@.len() - i,
    {
        let c = v[i];
        let alnum = ('a' <= c && c <= 'z') || ('A' <= c && c <= 'Z') || ('0' <= c && c <= '9');
        u.push(if alnum { c } else { '_' });
        assert(underscored(v@.take(i + 1)) =~= underscored(v@.take(i as int)).push(
            if alnum { c } else { '_' },
        ));
        i = i + 1;
    }
    assert(v@.take(v@.len() as int) == v@);
    let t = trim_char(u.as_slice(), '_');
    string_from(t.as_slice())
}

/// Trimming the front leaves a tail that does not begin with `c`.
proof fn lemma_trim_start_char(s: Seq<char>, c: char)
    ensures
        exists|n: int| 0 <= n <= s.len() && trim_start_char(s, c) == s.skip(n),
        trim_start_char(s, c).len() > 0 ==> trim_start_char(s, c)[0] != c,
    decreases s.len(),
{
    if s.len() > 0 && s[0] == c {
        lemma_trim_start_char(s.drop_first(), c);
        let n = choose|n: int|
            0 <= n <= s.drop_first().len() && trim_start_char(s.drop_first(), c)
                == s.drop_first().skip(n);
        assert(s.drop_first().skip(n) =~= s.skip(n + 1));
    } else {
        assert(s.skip(0) =~= s);
    }
}

/// Trimming the end leaves a head that does not end with `c`.
proof fn lemma_trim_end_char(s: Seq<char>, c: char)
    ensures
        exists|m: int| 0 <= m <= s.len() && trim_end_char(s, c) == s.take(m),
        trim_end_char(s, c).len() > 0 ==> trim_end_char(s, c).last() != c,
    decreases s.len(),
{
    if s.len() > 0 && s.last() == c {
        lemma_trim_end_char(s.drop_last(), c);
        let m = choose|m: int|
            0 <= m <= s.drop_last().len() && trim_end_char(s.drop_last(), c) == s.drop_last().take(
                m,
            );
        assert(s.drop_last().take(m) =~= s.take(m));
    } else {
        assert(s.take(s.len() as int) =~= s);
    }
}

/// A slug holds only ASCII letters, digits and `_`, neither begins nor
/// ends with `_`, and is its own slug.
pub proof fn law_slug_is_safe(s: Seq<char>)
    ensures
        forall|k: int|
            0 <= k < spec_slug(s).len() ==> is_ascii_alnum(#[trigger] spec_slug(s)[k])
                || spec_slug(s)[k] == '_',
        spec_slug(s).len() > 0 ==> spec_slug(s)[0] != '_' && spec_slug(s).last() != '_',
        spec_slug(spec_slug(s)) == spec_slug(s),
{
    let u = underscored(s);
    let a = trim_start_char(u, '_');
    let r = trim_end_char(a, '_');
    lemma_trim_start_char(u, '_');
    lemma_trim_end_char(a, '_');
    let n = choose|n: int| 0 <= n <= u.len() && a == u.skip(n);
    let m = choose|m: int| 0 <= m <= a.len() && r == a.take(m);
    assert forall|k: int| 0 <= k < r.len() implies is_ascii_alnum(#[trigger] r[k]) || r[k] == '_' by {
        assert(r[k] == u[n + k]);
    }
    if r.len() > 0 {
        assert(r[0] == a[0]);
    }
    assert(underscored(r) =~= r);
    assert(trim_start_char(r, '_') == r);
    assert(trim_end_char(r, '_') == r);
}

/// `{{baseUrl}}` followed by the path; path parameters stay as `{param}`.
pub fn build_url(path: &str) -> (r: String)
    ensures
        r@ == "{{baseUrl}}"@ + path@,
{
    let mut v = chars_of("{{baseUrl}}");
    extend_str(&mut v, path);
    string_from(v.as_slice())
}

/// The folder of an operation: its first tag, else `default`.
pub open spec fn spec_folder_of(op: OperationSpec) -> Seq<char> {
    if op.tags@.len() > 0 {
        op.tags@[0]@
    } else {
        "default"@
    }
}

/// The folder of an operation.
pub fn folder_of(op: &OperationSpec) -> (r: String)
    ensures
        r@ == spec_folder_of(*op),
{
    if op.tags.len() > 0 {
        op.tags[0].clone()
    } else {
        String::from_str("default")
    }
}

/// The request name for an operation: its operation id, else its summary
/// cut to 80 characters when non-empty, else `<method>_<path slug>` with
/// the method lower-cased and leading `/` dropped from the path.
pub open spec fn spec_op_name(op: OperationSpec, method: Seq<char>, path: Seq<char>) -> Seq<char> {
    match op.operation_id {
        Some(id) => id@,
        None => match op.summary {
            Some(sum) if sum@.len() > 0 => if sum@.len() > 80 {
                sum@.take(80)
            } else {
                sum@
            },
            _ => spec_to_lowercase(method) + "_"@ + spec_slug(trim_start_char(path, '/')),
        },
    }
}

/// `s` without leading `/`.
fn trim_leading_slashes(s: &str) -> (r: String)
    ensures
        r@ == trim_start_char(s@, '/'),
{
    let v = chars_of(s);
    let n = v.len();
    let mut a: usize = 0;
    assert(v@.subrange(0, n as int) == v@);
    while a < n && v[a] == '/'
        invariant
            a <= n,
            n == v@.len(),
            trim_start_char(v@, '/') == trim_start_char(v@.subrange(a as int, n as int), '/'),
        decreases n - a,
    {
        assert(v@.subrange(a as int, n as int).drop_first() == v@.subrange(a + 1, n as int));
        a = a + 1;
    }
    let t = slice_chars(v.as_slice(), a, n);
    string_from(t.as_slice())
}

/// The request name for an operation.
pub fn op_name(op: &OperationSpec, method: &str, path: &str) -> (r: String)
    ensures
        r@ == spec_op_name(*op, method@, path@),
{
    match &op.operation_id {
        Some(id) => {
            return id.clone();
        },
        None => {},
    }
    match &op.summary {
        Some(sum) => {
            if !sum.as_str().is_empty() {
                let v = chars_of(sum.as_str());
                if v.len() > 80 {
                    let t = slice_chars(v.as_slice(), 0, 80);
                    return string_from(t.as_slice());
                }
                return sum.clone();
            }
        },
        None => {},
    }
    let m = to_lowercase(method);
    let mut out = chars_of(m.as_str());
    out.push('_');
    let p = trim_leading_slashes(path);
    let sl = slug(p.as_str());
    extend_str(&mut out, sl.as_str());
    proof {
        reveal_strlit("_");
    }
    assert(out@ == spec_to_lowercase(method@) + "_"@ + spec_slug(trim_start_char(path@, '/')));
    string_from(out.as_slice())
}

} // verus!

verus! {

/// The index of the last `c` in `s`, if any.
pub open spec fn last_index(s: Seq<char>, c: char) -> Option<int>
    decreases s.len(),
{
    if s.len() == 0 {
        None
    } else if s.last() == c {
        Some(s.len() - 1)
    } else {
        last_index(s.drop_last(), c)
    }
}

/// The last `/`-separated segment of a reference, as
/// `rsplit('/').next()` gives it.
pub open spec fn last_segment(r: Seq<char>) -> Seq<char> {
    match last_index(r, '/') {
        Some(i) => r.skip(i + 1),
        None => r,
    }
}

/// The last `/`-separated segment of a reference.
fn last_segment_of(r: &str) -> (s: String)
    ensures
        s@ == last_segment(r@),
{
    let v = chars_of(r);
    let mut i = v.len();
    assert(v@.take(i as int) == v@);
    while i > 0
        invariant
            i <= v@.len(),
            v@ == r@,
            last_index(v@, '/') == last_index(v@.take(i as int), '/'),
        decreases i,
    {
        assert(v@.take(i as int).drop_last() == v@.take(i - 1));
        assert(v@.take(i as int).last() == v@[i - 1]);
        if v[i - 1] == '/' {
            let n = v.len();
            let t = slice_chars(v.as_slice(), i, n);
            assert(t@ == v@.skip(i as int));
            assert(last_index(v@.take(i as int), '/') == Some(i - 1));
            assert(last_index(r@, '/') == Some(i - 1));
            assert(last_segment(r@) == r@.skip(i as int));
            return string_from(t.as_slice());
        }
        i = i - 1;
    }
    r.to_owned()
}

/// The first entry named `name`.
pub open spec fn find_named<T>(entries: Seq<(String, T)>, name: Seq<char>) -> Option<T>
    decreases entries.len(),
{
    if entries.len() == 0 {
        None
    } else if entries[0].0@ == name {
        Some(entries[0].1)
    } else {
        find_named(entries.drop_first(), name)
    }
}

/// The parameter that `r` stands for: itself, or the parameter component
/// named by the last segment of the reference when that is not itself a
/// reference.
pub open spec fn spec_resolve_param(spec: ApiSpec, r: ParamRef) -> Option<ParamSpec> {
    match r {
        ParamRef::Item(p) => Some(p),
        ParamRef::Reference(s) => match spec.components {
            Some(c) => match find_named(c.parameters@, last_segment(s@)) {
                Some(ParamRef::Item(p)) => Some(p),
                _ => None,
            },
            None => None,
        },
    }
}

/// The parameter that `r` stands for.
pub fn resolve_param<'a>(spec: &'a ApiSpec, r: &'a ParamRef) -> (p: Option<&'a ParamSpec>)
    ensures
        match p {
            Some(q) => spec_resolve_param(*spec, *r) == Some(*q),
            None => spec_resolve_param(*spec, *r) is None,
        },
{
    match r {
        ParamRef::Item(p) => Some(p),
        ParamRef::Reference(s) => {
            match &spec.components {
                Some(c) => {
                    let name = last_segment_of(s.as_str());
                    let mut i: usize = 0;
                    assert(c.parameters@.skip(0) == c.parameters@);
                    while i < c.parameters.len()
                        invariant
                            i <= c.parameters@.len(),
                            *r == ParamRef::Reference(*s),
                            spec.components == Some(*c),
                            name@ == last_segment(s@),
                            find_named(c.parameters@, name@) == find_named(
                                c.parameters@.skip(i as int),
                                name@,
                            ),
                        decreases c.parameters@.len() - i,
                    {
                        assert(c.parameters@.skip(i as int).drop_first() == c.parameters@.skip(
                            i + 1,
                        ));
                        assert(c.parameters@.skip(i as int)[0] == c.parameters@[i as int]);
                        if c.parameters[i].0 == name {
                            assert(find_named(c.parameters@.skip(i as int), name@) == Some(
                                c.parameters@[i as int].1,
                            ));
                            return match &c.parameters[i].1 {
                                ParamRef::Item(p) => Some(p),
                                ParamRef::Reference(_) => None,
                            };
                        }
                        i = i + 1;
                    }
                    None
                },
                None => None,
            }
        },
    }
}

/// The row made from a parameter: its name, its string example or empty,
/// its description, the given type, enabled.
pub open spec fn param_row(p: ParamSpec, kind: Seq<char>) -> KVView {
    KVView {
        name: p.name@,
        value: match p.example {
            Some(ParamExample::Text(e)) => e@,
            _ => Seq::empty(),
        },
        kind: Some(kind),
        description: opt_str(p.description),
        enabled: Some(true),
    }
}

/// The header and query rows of the first `ps` parameters of an
/// operation; other parameters and unresolved references are skipped.
pub open spec fn spec_extract_params(spec: ApiSpec, ps: Seq<ParamRef>) -> (Seq<KVView>, Seq<KVView>)
    decreases ps.len(),
{
    if ps.len() == 0 {
        (Seq::empty(), Seq::empty())
    } else {
        let prev = spec_extract_params(spec, ps.drop_last());
        match spec_resolve_param(spec, ps.last()) {
            Some(p) => match p.location {
                ParamLocation::Query => (prev.0, prev.1.push(param_row(p, "query"@))),
                ParamLocation::Header => (prev.0.push(param_row(p, "header"@)), prev.1),
                _ => prev,
            },
            None => prev,
        }
    }
}

/// The row made from a parameter.
fn make_param_row(p: &ParamSpec, kind: &str) -> (r: KV)
    ensures
        kv_view(r) == param_row(*p, kind@),
{
    KV {
        name: p.name.clone(),
        value: match &p.example {
            Some(ParamExample::Text(e)) => e.clone(),
            _ => String::new(),
        },
        kind: Some(kind.to_owned()),
        description: copy_opt(&p.description),
        enabled: Some(true),
    }
}

/// The header rows and query rows of an operation's parameters.
pub fn extract_params(op: &OperationSpec, spec: &ApiSpec) -> (r: (Vec<KV>, Vec<KV>))
    ensures
        (kv_views(r.0@), kv_views(r.1@)) == spec_extract_params(*spec, op.parameters@),
{
    let mut headers: Vec<KV> = Vec::new();
    let mut params: Vec<KV> = Vec::new();
    let mut i: usize = 0;
    assert(op.parameters@.take(0) =~= Seq::<ParamRef>::empty());
    assert(kv_views(headers@) =~= Seq::<KVView>::empty());
    assert(kv_views(params@) =~= Seq::<KVView>::empty());
    while i < op.parameters.len()
        invariant
            i <= op.parameters@.len(),
            (kv_views(headers@), kv_views(params@)) == spec_extract_params(
                *spec,
                op.parameters@.take(i as int),
            ),
        decreases op.parameters@.len() - i,
    {
        assert(op.parameters@.take(i + 1).drop_last() =~= op.parameters@.take(i as int));
        assert(op.parameters@.take(i + 1).last() == op.parameters@[i as int]);
        let ghost h0 = kv_views(headers@);
        let ghost p0 = kv_views(params@);
        match resolve_param(spec, &op.parameters[i]) {
            Some(p) => {
                match p.location {
                    ParamLocation::Query => {
                        let kv = make_param_row(p, "query");
                        params.push(kv);
                        assert(kv_views(params@) =~= p0.push(kv_view(kv)));
                    },
                    ParamLocation::Header => {
                        let kv = make_param_row(p, "header");
                        headers.push(kv);
                        assert(kv_views(headers@) =~= h0.push(kv_view(kv)));
                    },
                    _ => {},
                }
            },
            None => {},
        }
        i = i + 1;
    }
    assert(op.parameters@.take(op.parameters@.len() as int) =~= op.parameters@);
    (headers, params)
}

} // verus!

verus! {

/// Whether a schema reference leads to a schema: a schema does; a
/// reference does when the schema component named by its last segment
/// is a schema and not itself a reference.
pub open spec fn spec_schema_resolves(spec: ApiSpec, r: SchemaRef) -> bool {
    match r {
        SchemaRef::Item => true,
        SchemaRef::Reference(s) => match spec.components {
            Some(c) => find_named(c.schemas@, last_segment(s@)) == Some(true),
            None => false,
        },
    }
}

/// Whether a schema reference leads to a schema.
pub fn schema_resolves(spec: &ApiSpec, r: &SchemaRef) -> (b: bool)
    ensures
        b == spec_schema_resolves(*spec, *r),
{
    match r {
        SchemaRef::Item => true,
        SchemaRef::Reference(s) => match &spec.components {
            Some(c) => {
                let name = last_segment_of(s.as_str());
                let mut i: usize = 0;
                assert(c.schemas@.skip(0) == c.schemas@);
                while i < c.schemas.len()
                    invariant
                        i <= c.schemas@.len(),
                        *r == SchemaRef::Reference(*s),
                        spec.components == Some(*c),
                        name@ == last_segment(s@),
                        find_named(c.schemas@, name@) == find_named(c.schemas@.skip(i as int), name@),
                    decreases c.schemas@.len() - i,
                {
                    assert(c.schemas@.skip(i as int).drop_first() == c.schemas@.skip(i + 1));
                    assert(c.schemas@.skip(i as int)[0] == c.schemas@[i as int]);
                    if c.schemas[i].0 == name {
                        assert(find_named(c.schemas@.skip(i as int), name@) == Some(
                            c.schemas@[i as int].1,
                        ));
                        return c.schemas[i].1;
                    }
                    i = i + 1;
                }
                false
            },
            None => false,
        },
    }
}

/// A JSON body, with `data` as given.
pub open spec fn json_body_view(data: Option<Seq<char>>) -> BodyView {
    BodyView { kind: Some("json"@), json: None, text: None, data }
}

/// A body with nothing in it.
pub open spec fn no_body_view() -> BodyView {
    BodyView { kind: None, json: None, text: None, data: None }
}

/// The content of the first media type named `application/json`.
pub open spec fn json_media(ms: Seq<(String, MediaContent)>) -> Option<MediaContent>
    decreases ms.len(),
{
    if ms.len() == 0 {
        None
    } else if ms[0].0@ == "application/json"@ {
        Some(ms[0].1)
    } else {
        json_media(ms.drop_first())
    }
}

/// The first entry of `examples`, if there is one.
pub open spec fn first_example(c: MediaContent) -> Option<ExampleValue> {
    if c.examples@.len() > 0 {
        Some(c.examples@[0])
    } else {
        None
    }
}

/// The body of an imported request: from the `application/json` content
/// of the request body, its `example`, else the value of the first of its
/// `examples`, as JSON data; with only a schema that resolves, an empty
/// JSON body; otherwise no body.
pub open spec fn spec_extract_body(op: OperationSpec, spec: ApiSpec) -> BodyView {
    match op.request_body {
        Some(RequestBodyRef::Item(ms)) => match json_media(ms@) {
            Some(c) => match c.example {
                Some(p) => json_body_view(Some(p@)),
                None => match first_example(c) {
                    Some(ExampleValue::Value(p)) => json_body_view(Some(p@)),
                    _ => match c.schema {
                        Some(sr) => if spec_schema_resolves(spec, sr) {
                            json_body_view(None)
                        } else {
                            no_body_view()
                        },
                        None => no_body_view(),
                    },
                },
            },
            None => no_body_view(),
        },
        _ => no_body_view(),
    }
}

/// A JSON body.
fn json_body(data: Option<String>) -> (b: Body)
    ensures
        body_view(b) == json_body_view(opt_str(data)),
{
    Body { kind: Some(String::from_str("json")), json: None, text: None, data }
}

/// The content of the first media type named `application/json`.
fn find_json_media(ms: &Vec<(String, MediaContent)>) -> (r: Option<&MediaContent>)
    ensures
        match r {
            Some(c) => json_media(ms@) == Some(*c),
            None => json_media(ms@) is None,
        },
{
    let mut i: usize = 0;
    assert(ms@.skip(0) =~= ms@);
    while i < ms.len()
        invariant
            i <= ms@.len(),
            json_media(ms@) == json_media(ms@.skip(i as int)),
        decreases ms@.len() - i,
    {
        assert(ms@.skip(i as int)[0] == ms@[i as int]);
        assert(ms@.skip(i as int).drop_first() =~= ms@.skip(i + 1));
        if crate::text::str_eq(ms[i].0.as_str(), "application/json") {
            return Some(&ms[i].1);
        }
        i = i + 1;
    }
    None
}

/// The body of an imported request.
pub fn extract_body(op: &OperationSpec, spec: &ApiSpec) -> (b: Body)
    ensures
        body_view(b) == spec_extract_body(*op, *spec),
{
    match &op.request_body {
        Some(RequestBodyRef::Item(ms)) => {
            let c = match find_json_media(ms) {
                Some(c) => c,
                None => {
                    return empty_body();
                },
            };
            match &c.example {
                Some(p) => {
                    return json_body(Some(p.clone()));
                },
                None => {},
            }
            if c.examples.len() > 0 {
                match &c.examples[0] {
                    ExampleValue::Value(p) => {
                        return json_body(Some(p.clone()));
                    },
                    _ => {},
                }
            }
            match &c.schema {
                Some(sr) => {
                    if schema_resolves(spec, sr) {
                        return json_body(None);
                    }
                },
                None => {},
            }
            empty_body()
        },
        _ => empty_body(),
    }
}

/// The suggested variable for a security scheme, if any: `bearerToken`
/// for HTTP bearer (any ASCII case), the slug of the key name for an api
/// key; both secret and empty.
pub open spec fn scheme_var(s: Option<SecuritySchemeSpec>) -> Option<Seq<char>> {
    match s {
        Some(SecuritySchemeSpec::Http(scheme)) => if spec_eq_ignore_ascii_case(scheme@, "bearer"@) {
            Some("bearerToken"@)
        } else {
            None
        },
        Some(SecuritySchemeSpec::ApiKey(name)) => Some(spec_slug(name@)),
        _ => None,
    }
}

/// The names of the secret variables the first `ss` schemes suggest, in
/// order, repeats included.
pub open spec fn scheme_var_names(ss: Seq<Option<SecuritySchemeSpec>>) -> Seq<Seq<char>>
    decreases ss.len(),
{
    if ss.len() == 0 {
        Seq::empty()
    } else {
        let prev = scheme_var_names(ss.drop_last());
        match scheme_var(ss.last()) {
            Some(n) => prev.push(n),
            None => prev,
        }
    }
}

/// The mathematical form of a `SuggestedVar`.
pub open spec fn var_view(v: SuggestedVar) -> (Seq<char>, bool, Seq<char>) {
    (v.name@, v.secret, v.value@)
}

/// Keeps the first of each name, in order.
pub open spec fn dedupe_by_name(vs: Seq<(Seq<char>, bool, Seq<char>)>) -> Seq<(Seq<char>, bool, Seq<char>)>
    decreases vs.len(),
{
    if vs.len() == 0 {
        Seq::empty()
    } else {
        let prev = dedupe_by_name(vs.drop_last());
        if exists|i: int| 0 <= i < prev.len() && (#[trigger] prev[i]).0 == vs.last().0 {
            prev
        } else {
            prev.push(vs.last())
        }
    }
}

/// The names of the secret variables the spec's security schemes suggest.
pub open spec fn scheme_names_of(spec: ApiSpec) -> Seq<Seq<char>> {
    match spec.components {
        Some(c) => scheme_var_names(c.security_schemes@),
        None => Seq::empty(),
    }
}

/// The variables an import suggests: `baseUrl` from the first server (or
/// empty), then one secret per bearer or api key scheme, each name once.
pub open spec fn spec_suggested_vars(spec: ApiSpec) -> Seq<(Seq<char>, bool, Seq<char>)> {
    let base = if spec.servers@.len() > 0 {
        spec.servers@[0]@
    } else {
        Seq::empty()
    };
    let schemes = scheme_names_of(spec);
    dedupe_by_name(
        seq![("baseUrl"@, false, base)] + schemes.map_values(
            |n: Seq<char>| (n, true, Seq::<char>::empty()),
        ),
    )
}

} // verus!

verus! {

/// The mathematical forms of a list of suggested variables.
pub open spec fn var_views(vs: Seq<SuggestedVar>) -> Seq<(Seq<char>, bool, Seq<char>)> {
    vs.map_values(|v: SuggestedVar| var_view(v))
}

/// The suggested variable for a security scheme.
fn scheme_var_of(s: &Option<SecuritySchemeSpec>) -> (r: Option<String>)
    ensures
        opt_str(r) == scheme_var(*s),
{
    match s {
        Some(SecuritySchemeSpec::Http(scheme)) => {
            if crate::text::str_eq_ignore_ascii_case(scheme.as_str(), "bearer") {
                Some(String::from_str("bearerToken"))
            } else {
                None
            }
        },
        Some(SecuritySchemeSpec::ApiKey(name)) => Some(slug(name.as_str())),
        _ => None,
    }
}

/// Whether some variable of `vs` is named `name`.
fn has_var_named(vs: &Vec<SuggestedVar>, name: &String) -> (b: bool)
    ensures
        b == exists|i: int| 0 <= i < vs@.len() && (#[trigger] var_views(vs@)[i]).0 == name@,
{
    let mut i: usize = 0;
    while i < vs.len()
        invariant
            i <= vs@.len(),
            forall|k: int| 0 <= k < i ==> (#[trigger] var_views(vs@)[k]).0 != name@,
        decreases vs@.len() - i,
    {
        assert(var_views(vs@)[i as int] == var_view(vs@[i as int]));
        if vs[i].name == *name {
            return true;
        }
        i = i + 1;
    }
    false
}

/// The variables an import suggests.
pub fn suggested_vars(spec: &ApiSpec) -> (r: Vec<SuggestedVar>)
    ensures
        var_views(r@) == spec_suggested_vars(*spec),
{
    let base = if spec.servers.len() > 0 {
        spec.servers[0].clone()
    } else {
        String::new()
    };
    let mut cands: Vec<SuggestedVar> = vec![
        SuggestedVar { name: String::from_str("baseUrl"), secret: false, value: base },
    ];
    let ghost schemes = scheme_names_of(*spec);
    let ghost head = var_views(cands@);
    match &spec.components {
        Some(c) => {
            let mut i: usize = 0;
            assert(c.security_schemes@.take(0) =~= Seq::<Option<SecuritySchemeSpec>>::empty());
            assert(var_views(cands@) =~= head + scheme_var_names(c.security_schemes@.take(0)).map_values(
                |n: Seq<char>| (n, true, Seq::<char>::empty()),
            ));
            while i < c.security_schemes.len()
                invariant
                    i <= c.security_schemes@.len(),
                    head.len() == 1,
                    var_views(cands@) == head + scheme_var_names(c.security_schemes@.take(i as int)).map_values(
                        |n: Seq<char>| (n, true, Seq::<char>::empty()),
                    ),
                decreases c.security_schemes@.len() - i,
            {
                assert(c.security_schemes@.take(i + 1).drop_last() =~= c.security_schemes@.take(i as int));
                assert(c.security_schemes@.take(i + 1).last() == c.security_schemes@[i as int]);
                let ghost before = var_views(cands@);
                match scheme_var_of(&c.security_schemes[i]) {
                    Some(n) => {
                        let v = SuggestedVar { name: n, secret: true, value: String::new() };
                        cands.push(v);
                        assert(var_views(cands@) =~= before.push(var_view(v)));
                    },
                    None => {},
                }
                assert(var_views(cands@) =~= head + scheme_var_names(c.security_schemes@.take(i + 1)).map_values(
                    |n: Seq<char>| (n, true, Seq::<char>::empty()),
                ));
                i = i + 1;
            }
            assert(c.security_schemes@.take(c.security_schemes@.len() as int) =~= c.security_schemes@);
        },
        None => {
            assert(var_views(cands@) =~= head + Seq::<Seq<char>>::empty().map_values(
                |n: Seq<char>| (n, true, Seq::<char>::empty()),
            ));
        },
    }
    let ghost all = var_views(cands@);
    assert(all == seq![("baseUrl"@, false, head[0].2)] + schemes.map_values(
        |n: Seq<char>| (n, true, Seq::<char>::empty()),
    ));
    let mut out: Vec<SuggestedVar> = Vec::new();
    let mut rest = cands;
    let ghost mut k: int = 0;
    assert(all.take(0) =~= Seq::<(Seq<char>, bool, Seq<char>)>::empty());
    assert(var_views(out@) =~= dedupe_by_name(all.take(0)));
    while rest.len() > 0
        invariant
            0 <= k <= all.len(),
            rest@.len() == all.len() - k,
            var_views(rest@) == all.skip(k),
            var_views(out@) == dedupe_by_name(all.take(k)),
        decreases rest@.len(),
    {
        let ghost r0 = rest@;
        let v = rest.remove(0);
        assert(all.skip(k)[0] == var_view(v)) by {
            assert(var_views(r0)[0] == var_view(r0[0]));
        }
        assert(rest@ == r0.drop_first());
        assert forall|j: int| 0 <= j < rest@.len() implies #[trigger] var_views(rest@)[j] == all.skip(k + 1)[j] by {
            assert(var_views(r0)[j + 1] == var_view(r0[j + 1]));
            assert(all.skip(k)[j + 1] == all.skip(k + 1)[j]);
        }
        assert(var_views(rest@) =~= all.skip(k + 1));
        assert(all.take(k + 1).drop_last() =~= all.take(k));
        assert(all.take(k + 1).last() == var_view(v));
        let ghost before = var_views(out@);
        if !has_var_named(&out, &v.name) {
            out.push(v);
            assert(var_views(out@) =~= before.push(var_view(v)));
        }
        proof {
            k = k + 1;
        }
    }
    assert(all.take(k) =~= all);
    out
}

} // verus!

verus! {

/// The methods in the order the importer visits them.
pub open spec fn method_name(m: int) -> Seq<char> {
    if m == 0 {
        "GET"@
    } else if m == 1 {
        "POST"@
    } else if m == 2 {
        "PUT"@
    } else if m == 3 {
        "PATCH"@
    } else if m == 4 {
        "DELETE"@
    } else if m == 5 {
        "HEAD"@
    } else if m == 6 {
        "OPTIONS"@
    } else {
        "TRACE"@
    }
}

/// The name of method number `m`.
pub fn method_name_of(m: usize) -> (r: String)
    requires
        m < 8,
    ensures
        r@ == method_name(m as int),
{
    if m == 0 {
        String::from_str("GET")
    } else if m == 1 {
        String::from_str("POST")
    } else if m == 2 {
        String::from_str("PUT")
    } else if m == 3 {
        String::from_str("PATCH")
    } else if m == 4 {
        String::from_str("DELETE")
    } else if m == 5 {
        String::from_str("HEAD")
    } else if m == 6 {
        String::from_str("OPTIONS")
    } else {
        String::from_str("TRACE")
    }
}

/// The operation of method number `m`.
pub open spec fn spec_op_at(o: PathOps, m: int) -> Option<OperationSpec> {
    if m == 0 {
        o.get
    } else if m == 1 {
        o.post
    } else if m == 2 {
        o.put
    } else if m == 3 {
        o.patch
    } else if m == 4 {
        o.delete
    } else if m == 5 {
        o.head
    } else if m == 6 {
        o.options
    } else {
        o.trace
    }
}

/// The operation of method number `m`.
pub fn op_at(o: &PathOps, m: usize) -> (r: Option<&OperationSpec>)
    requires
        m < 8,
    ensures
        match r {
            Some(x) => spec_op_at(*o, m as int) == Some(*x),
            None => spec_op_at(*o, m as int) is None,
        },
{
    let slot = if m == 0 {
        &o.get
    } else if m == 1 {
        &o.post
    } else if m == 2 {
        &o.put
    } else if m == 3 {
        &o.patch
    } else if m == 4 {
        &o.delete
    } else if m == 5 {
        &o.head
    } else if m == 6 {
        &o.options
    } else {
        &o.trace
    };
    match slot {
        Some(x) => Some(x),
        None => None,
    }
}

/// The operations of path number `i`, for the first `m` methods.
pub open spec fn ops_upto(i: int, o: PathOps, m: int) -> Seq<(int, int)>
    decreases m,
{
    if m <= 0 {
        Seq::empty()
    } else {
        let prev = ops_upto(i, o, m - 1);
        if spec_op_at(o, m - 1) is Some {
            prev.push((i, m - 1))
        } else {
            prev
        }
    }
}

/// The operations of the first `ps` paths, as (path, method) numbers:
/// paths in order, methods in the order of `method_name`; path
/// references are skipped.
pub open spec fn spec_iter_ops(ps: Seq<PathEntry>) -> Seq<(int, int)>
    decreases ps.len(),
{
    if ps.len() == 0 {
        Seq::empty()
    } else {
        let prev = spec_iter_ops(ps.drop_last());
        match ps.last().ops {
            Some(o) => prev + ops_upto(ps.len() - 1, o, 8),
            None => prev,
        }
    }
}

/// Whether (path index, method number) names an operation of `ps`.
pub open spec fn valid_op_ref(ps: Seq<PathEntry>, p: (usize, usize)) -> bool {
    p.0 < ps.len() && p.1 < 8 && match ps[p.0 as int].ops {
        Some(o) => spec_op_at(o, p.1 as int) is Some,
        None => false,
    }
}

/// The operation numbers as plain pairs.
pub open spec fn op_refs(v: Seq<(usize, usize)>) -> Seq<(int, int)> {
    v.map_values(|p: (usize, usize)| (p.0 as int, p.1 as int))
}

/// Every operation of the spec, as (path index, method number).
pub fn iter_ops(spec: &ApiSpec) -> (r: Vec<(usize, usize)>)
    ensures
        op_refs(r@) == spec_iter_ops(spec.paths@),
        forall|k: int|
            0 <= k < r@.len() ==> valid_op_ref(spec.paths@, #[trigger] r@[k]),
{
    let mut out: Vec<(usize, usize)> = Vec::new();
    let mut i: usize = 0;
    assert(spec.paths@.take(0) =~= Seq::<PathEntry>::empty());
    assert(op_refs(out@) =~= Seq::<(int, int)>::empty());
    while i < spec.paths.len()
        invariant
            i <= spec.paths@.len(),
            op_refs(out@) == spec_iter_ops(spec.paths@.take(i as int)),
            forall|k: int|
                0 <= k < out@.len() ==> valid_op_ref(spec.paths@, #[trigger] out@[k]),
        decreases spec.paths@.len() - i,
    {
        assert(spec.paths@.take(i + 1).drop_last() =~= spec.paths@.take(i as int));
        assert(spec.paths@.take(i + 1).last() == spec.paths@[i as int]);
        match &spec.paths[i].ops {
            Some(o) => {
                let ghost base = op_refs(out@);
                let mut m: usize = 0;
                assert(base + ops_upto(i as int, *o, 0) =~= base);
                while m < 8
                    invariant
                        m <= 8,
                        i < spec.paths@.len(),
                        spec.paths@[i as int].ops == Some(*o),
                        op_refs(out@) == base + ops_upto(i as int, *o, m as int),
                        forall|k: int|
                            0 <= k < out@.len() ==> valid_op_ref(spec.paths@, #[trigger] out@[k]),
                    decreases 8 - m,
                {
                    if op_at(o, m).is_some() {
                        let ghost before = op_refs(out@);
                        out.push((i, m));
                        assert(op_refs(out@) =~= before.push((i as int, m as int)));
                    }
                    m = m + 1;
                }
            },
            None => {},
        }
        i = i + 1;
    }
    assert(spec.paths@.take(spec.paths@.len() as int) =~= spec.paths@);
    out
}

} // verus!

verus! {

/// The operation that (path index, method number) names.
pub open spec fn op_of(ps: Seq<PathEntry>, p: (int, int)) -> OperationSpec {
    spec_op_at(ps[p.0].ops.unwrap(), p.1).unwrap()
}

/// The preview row of an operation: method, name, folder and path.
pub open spec fn sample_of(ps: Seq<PathEntry>, p: (int, int)) -> (Seq<char>, Seq<char>, Seq<char>, Seq<char>) {
    let op = op_of(ps, p);
    let path = ps[p.0].path@;
    (method_name(p.1), spec_op_name(op, method_name(p.1), path), spec_folder_of(op), path)
}

/// The mathematical form of a `SampleOp`.
pub open spec fn sample_view(s: SampleOp) -> (Seq<char>, Seq<char>, Seq<char>, Seq<char>) {
    (s.method@, s.name@, s.folder@, s.path@)
}

/// The folders of the operations, in order.
pub open spec fn op_folders(ps: Seq<PathEntry>, refs: Seq<(int, int)>) -> Seq<Seq<char>> {
    refs.map_values(|p: (int, int)| spec_folder_of(op_of(ps, p)))
}

/// What `preview` returns for `spec`: title and version, the number of
/// operations and of distinct folders, the suggested variables, and the
/// first 8 operations.
pub open spec fn preview_matches(spec: ApiSpec, r: ImportPreview) -> bool {
    let refs = spec_iter_ops(spec.paths@);
    &&& r.title == spec.title
    &&& r.version == spec.version
    &&& r.op_count == refs.len()
    &&& r.folder_count == op_folders(spec.paths@, refs).to_set().len()
    &&& var_views(r.suggested_vars@) == spec_suggested_vars(spec)
    &&& r.sample_ops@.map_values(|s: SampleOp| sample_view(s)) == refs.take(
        if refs.len() < 8 {
            refs.len() as int
        } else {
            8
        },
    ).map_values(|p: (int, int)| sample_of(spec.paths@, p))
}

/// A summary of what importing `spec` would bring.
pub fn preview(spec: &ApiSpec) -> (r: ImportPreview)
    ensures
        preview_matches(*spec, r),
{
    let ops = iter_ops(spec);
    let ghost refs = op_refs(ops@);
    let ghost ps = spec.paths@;
    let mut folders: Vec<String> = Vec::new();
    let mut samples: Vec<SampleOp> = Vec::new();
    let mut k: usize = 0;
    assert(views(folders@) =~= op_folders(ps, refs.take(0)));
    assert(samples@.map_values(|s: SampleOp| sample_view(s)) =~= refs.take(0).map_values(
        |p: (int, int)| sample_of(ps, p),
    ));
    while k < ops.len()
        invariant
            k <= ops@.len(),
            refs == op_refs(ops@),
            refs == spec_iter_ops(ps),
            ps == spec.paths@,
            forall|j: int| 0 <= j < ops@.len() ==> valid_op_ref(ps, #[trigger] ops@[j]),
            views(folders@) == op_folders(ps, refs.take(k as int)),
            samples@.len() == if k < 8 {
                k as int
            } else {
                8
            },
            samples@.map_values(|s: SampleOp| sample_view(s)) == refs.take(samples@.len() as int).map_values(
                |p: (int, int)| sample_of(ps, p),
            ),
        decreases ops@.len() - k,
    {
        let (pi, m) = ops[k];
        assert(valid_op_ref(ps, ops@[k as int]));
        assert(refs[k as int] == (pi as int, m as int));
        let entry = &spec.paths[pi];
        match &entry.ops {
            Some(o) => {
                match op_at(o, m) {
                    Some(op) => {
                        assert(*op == op_of(ps, refs[k as int]));
                        let folder = folder_of(op);
                        let ghost fb = views(folders@);
                        folders.push(folder.clone());
                        assert(views(folders@) =~= fb.push(folder@));
                        assert(op_folders(ps, refs.take(k + 1)) =~= op_folders(ps, refs.take(k as int)).push(
                            spec_folder_of(op_of(ps, refs[k as int])),
                        ));
                        if samples.len() < 8 {
                            let method = method_name_of(m);
                            let name = op_name(op, method.as_str(), entry.path.as_str());
                            let s = SampleOp { method, name, folder, path: entry.path.clone() };
                            let ghost sb = samples@.map_values(|s: SampleOp| sample_view(s));
                            samples.push(s);
                            assert(samples@.map_values(|s: SampleOp| sample_view(s)) =~= sb.push(sample_view(s)));
                            assert(refs.take(k + 1).map_values(|p: (int, int)| sample_of(ps, p)) =~= refs.take(
                                k as int,
                            ).map_values(|p: (int, int)| sample_of(ps, p)).push(sample_of(ps, refs[k as int])));
                        }
                    },
                    None => {
                        assert(false);
                    },
                }
            },
            None => {
                assert(false);
            },
        }
        k = k + 1;
    }
    assert(refs.take(ops@.len() as int) =~= refs);
    let distinct = crate::order::sorted_unique(&folders);
    proof {
        let f = op_folders(ps, refs);
        crate::order::lemma_sorted_no_duplicates(views(distinct@));
        views(distinct@).unique_seq_to_set();
        assert(views(distinct@).to_set() =~= f.to_set());
    }
    ImportPreview {
        title: spec.title.clone(),
        version: spec.version.clone(),
        op_count: ops.len(),
        folder_count: distinct.len(),
        suggested_vars: suggested_vars(spec),
        sample_ops: samples,
    }
}

} // verus!

verus! {

/// A request an import would write: the folder directory and file name
/// (both slugs) and the request.
#[derive(Debug, Clone, PartialEq, Eq)]
pub struct ImportItem {
    pub folder_dir: String,
    pub file_name: String,
    pub request: Request,
}

/// Whether `it` is the import item of operation number `k`, which is
/// `p`: named by `op_name`, sequence `k + 1`, URL from `build_url`, rows
/// and body extracted, legacy auth `inherit`.
pub open spec fn import_item_matches(spec: ApiSpec, p: (int, int), k: int, it: ImportItem) -> bool {
    let op = op_of(spec.paths@, p);
    let method = method_name(p.1);
    let path = spec.paths@[p.0].path@;
    let name = spec_op_name(op, method, path);
    let rows = spec_extract_params(spec, op.parameters@);
    let req = it.request;
    &&& it.folder_dir@ == spec_slug(spec_folder_of(op))
    &&& it.file_name@ == spec_slug(name) + ".yml"@
    &&& req.info.name@ == name
    &&& req.info.kind@ == "http"@
    &&& req.info.seq == (k + 1) as i64
    &&& req.http.method@ == method
    &&& req.http.url@ == "{{baseUrl}}"@ + path
    &&& kv_views(req.http.headers@) == rows.0
    &&& kv_views(req.http.params@) == rows.1
    &&& body_view(req.http.body) == spec_extract_body(op, spec)
    &&& opt_str(req.http.auth) == Some("inherit"@)
    &&& req.http.auth_config is None
    &&& req.path@.len() == 0
    &&& req.rel_path@.len() == 0
    &&& req.id@.len() == 0
}

/// The requests an import of `spec` would write, one per operation in
/// the order of `iter_ops`. The caller sets each request's path, skips
/// files that exist, and writes the rest.
pub fn plan_import(spec: &ApiSpec) -> (r: Vec<ImportItem>)
    ensures
        r@.len() == spec_iter_ops(spec.paths@).len(),
        forall|k: int|
            0 <= k < r@.len() ==> import_item_matches(
                *spec,
                spec_iter_ops(spec.paths@)[k],
                k,
                #[trigger] r@[k],
            ),
{
    let ops = iter_ops(spec);
    let ghost refs = op_refs(ops@);
    let ghost ps = spec.paths@;
    let mut out: Vec<ImportItem> = Vec::new();
    let mut k: usize = 0;
    while k < ops.len()
        invariant
            k <= ops@.len(),
            refs == op_refs(ops@),
            refs == spec_iter_ops(ps),
            ps == spec.paths@,
            forall|j: int| 0 <= j < ops@.len() ==> valid_op_ref(ps, #[trigger] ops@[j]),
            out@.len() == k,
            forall|j: int| 0 <= j < k ==> import_item_matches(*spec, refs[j], j, #[trigger] out@[j]),
        decreases ops@.len() - k,
    {
        let (pi, m) = ops[k];
        assert(valid_op_ref(ps, ops@[k as int]));
        assert(refs[k as int] == (pi as int, m as int));
        let entry = &spec.paths[pi];
        match &entry.ops {
            Some(o) => {
                match op_at(o, m) {
                    Some(op) => {
                        assert(*op == op_of(ps, refs[k as int]));
                        let method = method_name_of(m);
                        let name = op_name(op, method.as_str(), entry.path.as_str());
                        let folder = folder_of(op);
                        let folder_dir = slug(folder.as_str());
                        let file_name = crate::loader::yml_file_name(slug(name.as_str()).as_str());
                        let (headers, params) = extract_params(op, spec);
                        let body = extract_body(op, spec);
                        let seq = (k + 1) as i64;
                        let request = Request {
                            info: Info { name, kind: String::from_str("http"), seq },
                            http: HttpSpec {
                                method,
                                url: build_url(entry.path.as_str()),
                                headers,
                                params,
                                body,
                                auth: Some(String::from_str("inherit")),
                                auth_config: None,
                            },
                            path: String::new(),
                            rel_path: String::new(),
                            id: String::new(),
                        };
                        let it = ImportItem { folder_dir, file_name, request };
                        out.push(it);
                        assert(import_item_matches(*spec, refs[k as int], k as int, out@[k as int]));
                    },
                    None => {
                        assert(false);
                    },
                }
            },
            None => {
                assert(false);
            },
        }
        k = k + 1;
    }
    out
}

/// The variables of an imported environment: the suggested variables,
/// secrets without a value.
pub fn import_env_vars(vars: &Vec<SuggestedVar>) -> (r: Vec<EnvVar>)
    ensures
        r@.len() == vars@.len(),
        forall|k: int|
            0 <= k < r@.len() ==> {
                &&& (#[trigger] r@[k]).name@ == vars@[k].name@
                &&& r@[k].secret == vars@[k].secret
                &&& r@[k].value@ == if vars@[k].secret {
                    Seq::<char>::empty()
                } else {
                    vars@[k].value@
                }
            },
{
    let mut out: Vec<EnvVar> = Vec::new();
    let mut k: usize = 0;
    while k < vars.len()
        invariant
            k <= vars@.len(),
            out@.len() == k,
            forall|j: int|
                0 <= j < k ==> {
                    &&& (#[trigger] out@[j]).name@ == vars@[j].name@
                    &&& out@[j].secret == vars@[j].secret
                    &&& out@[j].value@ == if vars@[j].secret {
                        Seq::<char>::empty()
                    } else {
                        vars@[j].value@
                    }
                },
        decreases vars@.len() - k,
    {
        let v = &vars[k];
        let value = if v.secret {
            String::new()
        } else {
            v.value.clone()
        };
        out.push(EnvVar { name: v.name.clone(), value, secret: v.secret });
        k = k + 1;
    }
    out
}

/// Whether an import creates an environment: when asked to and the name
/// is not blank.
pub fn wants_env(create_env: bool, env_name: &str) -> (r: bool)
    ensures
        r == (create_env && crate::text::spec_trim(env_name@).len() > 0),
{
    create_env && !crate::text::trim_str(env_name).as_str().is_empty()
}

} // verus!

verus! {

/// The counts of an import run so far: request files written and files
/// skipped because they exist.
#[derive(Debug, Clone, Copy, PartialEq, Eq)]
pub struct ImportTally {
    pub written: usize,
    pub skipped: usize,
}

impl ImportTally {
    /// Nothing written or skipped yet.
    pub fn new() -> (t: Self)
        ensures
            t.written == 0,
            t.skipped == 0,
    {
        ImportTally { written: 0, skipped: 0 }
    }

    /// Records the next item of an import, given whether its file exists
    /// already, and says whether to write it: an existing file is skipped,
    /// never overwritten.
    pub fn record(&mut self, file_exists: bool) -> (write: bool)
        requires
            old(self).written + old(self).skipped < usize::MAX,
        ensures
            write == !file_exists,
            final(self).written == old(self).written + if write { 1int } else { 0int },
            final(self).skipped == old(self).skipped + if write { 0int } else { 1int },
    {
        if file_exists {
            self.skipped = self.skipped + 1;
            false
        } else {
            self.written = self.written + 1;
            true
        }
    }
}

/// Where an import item goes: its folder directory and file name.
pub open spec fn item_target(it: ImportItem) -> (Seq<char>, Seq<char>) {
    (it.folder_dir@, it.file_name@)
}

/// The files there after an import of items going to `ts`, starting
/// from the files `fs`: every target exists afterwards.
pub open spec fn files_after(ts: Seq<(Seq<char>, Seq<char>)>, fs: Set<(Seq<char>, Seq<char>)>) -> Set<
    (Seq<char>, Seq<char>),
>
    decreases ts.len(),
{
    if ts.len() == 0 {
        fs
    } else {
        files_after(ts.drop_last(), fs).insert(ts.last())
    }
}

/// The (written, skipped) counts of an import of items going to `ts`,
/// starting from the files `fs`, each item recorded with whether its file
/// exists at that point.
pub open spec fn tally_after(ts: Seq<(Seq<char>, Seq<char>)>, fs: Set<(Seq<char>, Seq<char>)>) -> (
    nat,
    nat,
)
    decreases ts.len(),
{
    if ts.len() == 0 {
        (0, 0)
    } else {
        let prev = tally_after(ts.drop_last(), fs);
        if files_after(ts.drop_last(), fs).contains(ts.last()) {
            (prev.0, prev.1 + 1)
        } else {
            (prev.0 + 1, prev.1)
        }
    }
}

/// After an import, the files that were there and every target exist.
proof fn lemma_files_after_holds(ts: Seq<(Seq<char>, Seq<char>)>, fs: Set<(Seq<char>, Seq<char>)>)
    ensures
        forall|t: (Seq<char>, Seq<char>)| fs.contains(t) ==> files_after(ts, fs).contains(t),
        forall|i: int| 0 <= i < ts.len() ==> files_after(ts, fs).contains(#[trigger] ts[i]),
    decreases ts.len(),
{
    if ts.len() > 0 {
        lemma_files_after_holds(ts.drop_last(), fs);
        assert forall|i: int| 0 <= i < ts.len() implies files_after(ts, fs).contains(
            #[trigger] ts[i],
        ) by {
            if i < ts.len() - 1 {
                assert(ts.drop_last()[i] == ts[i]);
            }
        }
    }
}

/// An import whose every target exists writes nothing and skips all.
proof fn lemma_import_over_present(
    ts: Seq<(Seq<char>, Seq<char>)>,
    fs: Set<(Seq<char>, Seq<char>)>,
)
    requires
        forall|i: int| 0 <= i < ts.len() ==> fs.contains(#[trigger] ts[i]),
    ensures
        tally_after(ts, fs) == (0nat, ts.len()),
        files_after(ts, fs) == fs,
    decreases ts.len(),
{
    if ts.len() > 0 {
        let p = ts.drop_last();
        assert forall|i: int| 0 <= i < p.len() implies fs.contains(#[trigger] p[i]) by {
            assert(p[i] == ts[i]);
        }
        lemma_import_over_present(p, fs);
        assert(fs.contains(ts[ts.len() - 1]));
        assert(fs.insert(ts.last()) =~= fs);
    }
}

/// Importing the same spec again is idempotent: once an import of the
/// planned items has run, every target file exists, so a second import of
/// the same items writes nothing, skips every item and leaves the files as
/// they were.
pub proof fn law_reimport_writes_nothing(items: Seq<ImportItem>, fs: Set<(Seq<char>, Seq<char>)>)
    ensures
        ({
            let ts = items.map_values(|it: ImportItem| item_target(it));
            &&& tally_after(ts, files_after(ts, fs)) == (0nat, ts.len())
            &&& files_after(ts, files_after(ts, fs)) == files_after(ts, fs)
        }),
{
    let ts = items.map_values(|it: ImportItem| item_target(it));
    lemma_files_after_holds(ts, fs);
    lemma_import_over_present(ts, files_after(ts, fs));
}

} // verus!
