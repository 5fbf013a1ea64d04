//! The data model: requests, environments and collections in the Bruno
//! collection format.
use vstd::prelude::*;

verus! {

/// A name/value row: a header, a query parameter or a path parameter.
#[derive(Debug, Clone, PartialEq, Eq)]
pub struct KV {
    pub name: String,
    pub value: String,
    /// `type` on disk: "query", "header", "path" …
    pub kind: Option<String>,
    pub description: Option<String>,
    /// `None` counts as enabled; only `Some(false)` disables the row.
    pub enabled: Option<bool>,
}

/// A request body. Bruno stores the text under `data`; newer files use
/// `json` or `text` depending on `kind`.
#[derive(Debug, Clone, PartialEq, Eq)]
pub struct Body {
    /// `type` on disk: "json", "text" …
    pub kind: Option<String>,
    pub json: Option<String>,
    pub text: Option<String>,
    pub data: Option<String>,
}

/// Explicit authentication settings of a request.
#[derive(Debug, Clone, PartialEq, Eq)]
pub struct AuthConfig {
    /// "none" | "inherit" | "bearer" | "api_key" | "basic"
    pub mode: String,
    /// Bearer token, api key value or basic password; may hold `{{vars}}`.
    pub token: String,
    /// Api key header/query name, or basic user name.
    pub key: String,
    /// `in` on disk: "header" | "query", where an api key goes.
    pub location: String,
}

/// The HTTP part of a request.
#[derive(Debug, Clone, PartialEq, Eq)]
pub struct HttpSpec {
    pub method: String,
    pub url: String,
    pub headers: Vec<KV>,
    pub params: Vec<KV>,
    pub body: Body,
    /// Legacy Bruno string field, kept for round trips.
    pub auth: Option<String>,
    pub auth_config: Option<AuthConfig>,
}

/// Request metadata.
#[derive(Debug, Clone, PartialEq, Eq)]
pub struct Info {
    pub name: String,
    /// `type` on disk; "http" for requests.
    pub kind: String,
    pub seq: i64,
}

/// A request of a collection. `path`, `rel_path` and `id` are runtime
/// fields, empty on disk.
#[derive(Debug, Clone, PartialEq, Eq)]
pub struct Request {
    pub info: Info,
    pub http: HttpSpec,
    pub path: String,
    pub rel_path: String,
    pub id: String,
}

/// A variable of an environment. A secret variable keeps its value in the
/// vault, not here.
#[derive(Debug, Clone, PartialEq, Eq)]
pub struct EnvVar {
    pub name: String,
    pub value: String,
    pub secret: bool,
}

/// An environment: named variables. `path` is a runtime field.
#[derive(Debug, Clone, PartialEq, Eq)]
pub struct Env {
    pub name: String,
    pub variables: Vec<EnvVar>,
    pub path: String,
}

/// A loaded collection.
#[derive(Debug, Clone, PartialEq, Eq)]
pub struct Collection {
    pub root: String,
    pub requests: Vec<Request>,
    pub envs: Vec<Env>,
}

/// A body with no kind and no text.
pub open spec fn spec_empty_body(b: Body) -> bool {
    b.kind is None && b.json is None && b.text is None && b.data is None
}

/// A body with no kind and no text.
pub fn empty_body() -> (b: Body)
    ensures
        spec_empty_body(b),
{
    Body { kind: None, json: None, text: None, data: None }
}

} // verus!

verus! {

/// The view of an optional string.
pub open spec fn opt_str(o: Option<String>) -> Option<Seq<char>> {
    match o {
        Some(s) => Some(s@),
        None => None,
    }
}

/// The mathematical form of a `KV`.
pub struct KVView {
    pub name: Seq<char>,
    pub value: Seq<char>,
    pub kind: Option<Seq<char>>,
    pub description: Option<Seq<char>>,
    pub enabled: Option<bool>,
}

/// The mathematical form of a `KV`.
pub open spec fn kv_view(k: KV) -> KVView {
    KVView {
        name: k.name@,
        value: k.value@,
        kind: opt_str(k.kind),
        description: opt_str(k.description),
        enabled: k.enabled,
    }
}

/// The mathematical forms of a list of rows.
pub open spec fn kv_views(ks: Seq<KV>) -> Seq<KVView> {
    ks.map_values(|k: KV| kv_view(k))
}

/// The mathematical form of a `Body`.
pub struct BodyView {
    pub kind: Option<Seq<char>>,
    pub json: Option<Seq<char>>,
    pub text: Option<Seq<char>>,
    pub data: Option<Seq<char>>,
}

/// The mathematical form of a `Body`.
pub open spec fn body_view(b: Body) -> BodyView {
    BodyView { kind: opt_str(b.kind), json: opt_str(b.json), text: opt_str(b.text), data: opt_str(b.data) }
}

/// A copy of an optional string.
pub fn copy_opt(o: &Option<String>) -> (r: Option<String>)
    ensures
        opt_str(r) == opt_str(*o),
{
    match o {
        Some(s) => Some(s.clone()),
        None => None,
    }
}

} // verus!
