//! Reading an OpenAPI 3 document (YAML or JSON text) with `openapiv3` into
//! the library's model of it, and the preview and plan of an import from
//! the text.
use vstd::prelude::*;
use crate::openapi::{
    ApiSpec, ExampleValue, ImportItem, ImportPreview, MediaContent, OperationSpec,
    ParamExample, ParamLocation, ParamRef, ParamSpec, PathEntry, PathOps, RequestBodyRef, SchemaRef,
    SecuritySchemeSpec, import_item_matches, plan_import, preview, preview_matches, spec_iter_ops,
};

verus! {

#[verifier::external_type_specification]
#[verifier::external_body]
pub struct ExOpenApiDocument(openapiv3::OpenAPI);

#[verifier::external_type_specification]
#[verifier::external_body]
#[verifier::reject_recursive_types(T)]
pub struct ExReferenceOr<T>(openapiv3::ReferenceOr<T>);

#[verifier::external_type_specification]
#[verifier::external_body]
pub struct ExPathItem(openapiv3::PathItem);

#[verifier::external_type_specification]
#[verifier::external_body]
pub struct ExOperation(openapiv3::Operation);

#[verifier::external_type_specification]
#[verifier::external_body]
pub struct ExParameter(openapiv3::Parameter);

#[verifier::external_type_specification]
#[verifier::external_body]
pub struct ExRequestBody(openapiv3::RequestBody);

#[verifier::external_type_specification]
#[verifier::external_body]
pub struct ExMediaType(openapiv3::MediaType);

#[verifier::external_type_specification]
#[verifier::external_body]
pub struct ExExample(openapiv3::Example);

#[verifier::external_type_specification]
#[verifier::external_body]
pub struct ExComponents(openapiv3::Components);

#[verifier::external_type_specification]
#[verifier::external_body]
pub struct ExSecurityScheme(openapiv3::SecurityScheme);

/// The model of the OpenAPI document in the JSON `text` as
/// `serde_json` and `openapiv3` read it, or none where it does not parse.
pub uninterp spec fn spec_openapi_json(text: Seq<char>) -> Option<ApiSpec>;

/// The model of the OpenAPI document in the YAML `text` as `serde_yaml`
/// and `openapiv3` read it, or none where it does not parse.
pub uninterp spec fn spec_openapi_yaml(text: Seq<char>) -> Option<ApiSpec>;

/// The model of the OpenAPI document in `text`, read as JSON when
/// `is_json` and as YAML otherwise.
pub open spec fn spec_openapi_doc(text: Seq<char>, is_json: bool) -> Option<ApiSpec> {
    if is_json {
        spec_openapi_json(text)
    } else {
        spec_openapi_yaml(text)
    }
}

/// What a parse error message begins with: `json: ` or `yaml: `.
pub open spec fn parse_error_prefix(is_json: bool) -> Seq<char> {
    if is_json {
        "json: "@
    } else {
        "yaml: "@
    }
}

/// Parses `text` with `serde_json::from_str` into an `openapiv3::OpenAPI`
/// and turns it into the library's model, one field for one. The model is
/// named, not stated: it is what those crates read, which takes their
/// sources to state. The error is the parser's message.
#[verifier::external_body]
fn parse_openapi_json(text: &str) -> (r: Result<ApiSpec, String>)
    ensures
        match r {
            Ok(s) => spec_openapi_json(text@) == Some(s),
            Err(_) => spec_openapi_json(text@) is None,
        },
{
    match serde_json::from_str::<openapiv3::OpenAPI>(text) {
        Ok(d) => Ok(api_spec_of(&d)),
        Err(e) => Err(e.to_string()),
    }
}

/// Parses `text` with `serde_yaml::from_str` into an `openapiv3::OpenAPI`
/// and turns it into the library's model, one field for one. The model is
/// named, not stated. The error is the parser's message.
#[verifier::external_body]
fn parse_openapi_yaml(text: &str) -> (r: Result<ApiSpec, String>)
    ensures
        match r {
            Ok(s) => spec_openapi_yaml(text@) == Some(s),
            Err(_) => spec_openapi_yaml(text@) is None,
        },
{
    match serde_yaml::from_str::<openapiv3::OpenAPI>(text) {
        Ok(d) => Ok(api_spec_of(&d)),
        Err(e) => Err(e.to_string()),
    }
}

/// Reads the spec in `text` as JSON or YAML: its model, or the parser's
/// message after `json: ` or `yaml: `.
fn read_spec_text(text: &str, is_json: bool) -> (r: Result<ApiSpec, String>)
    ensures
        match r {
            Ok(s) => spec_openapi_doc(text@, is_json) == Some(s),
            Err(e) => spec_openapi_doc(text@, is_json) is None && exists|why: Seq<char>|
                e@ == parse_error_prefix(is_json) + why,
        },
{
    let parsed = if is_json {
        parse_openapi_json(text)
    } else {
        parse_openapi_yaml(text)
    };
    match parsed {
        Ok(s) => Ok(s),
        Err(why) => {
            let mut msg = if is_json {
                crate::text::chars_of("json: ")
            } else {
                crate::text::chars_of("yaml: ")
            };
            crate::text::extend_str(&mut msg, why.as_str());
            assert(msg@ =~= parse_error_prefix(is_json) + why@);
            Err(crate::text::string_from(msg.as_slice()))
        },
    }
}

/// The model of a parsed document: title, version, server URLs, paths in
/// the document's order, components.
#[verifier::external_body]
fn api_spec_of(doc: &openapiv3::OpenAPI) -> ApiSpec {
    ApiSpec {
        title: doc.info.title.clone(),
        version: doc.info.version.clone(),
        servers: doc.servers.iter().map(|s| s.url.clone()).collect(),
        paths: doc.paths.paths.iter().map(|(p, item)| path_entry_of(p, item)).collect(),
        components: doc.components.as_ref().map(|c| components_of(c)),
    }
}

/// A path and its operations; none for a reference.
#[verifier::external_body]
fn path_entry_of(path: &String, item: &openapiv3::ReferenceOr<openapiv3::PathItem>) -> PathEntry {
    match item {
        openapiv3::ReferenceOr::Item(i) => PathEntry { path: path.clone(), ops: Some(path_ops_of(i)) },
        openapiv3::ReferenceOr::Reference { .. } => PathEntry { path: path.clone(), ops: None },
    }
}

/// The operations of a path item, one slot per method.
#[verifier::external_body]
fn path_ops_of(i: &openapiv3::PathItem) -> PathOps {
    PathOps {
        get: i.get.as_ref().map(|o| operation_of(o)),
        post: i.post.as_ref().map(|o| operation_of(o)),
        put: i.put.as_ref().map(|o| operation_of(o)),
        patch: i.patch.as_ref().map(|o| operation_of(o)),
        delete: i.delete.as_ref().map(|o| operation_of(o)),
        head: i.head.as_ref().map(|o| operation_of(o)),
        options: i.options.as_ref().map(|o| operation_of(o)),
        trace: i.trace.as_ref().map(|o| operation_of(o)),
    }
}

/// An operation: id, summary, tags, parameters and request body.
#[verifier::external_body]
fn operation_of(op: &openapiv3::Operation) -> OperationSpec {
    OperationSpec {
        operation_id: op.operation_id.clone(),
        summary: op.summary.clone(),
        tags: op.tags.clone(),
        parameters: op.parameters.iter().map(|p| param_ref_of(p)).collect(),
        request_body: op.request_body.as_ref().map(|b| request_body_of(b)),
    }
}

/// A request body with its content for every media type, in order.
#[verifier::external_body]
fn request_body_of(rb: &openapiv3::ReferenceOr<openapiv3::RequestBody>) -> RequestBodyRef {
    match rb {
        openapiv3::ReferenceOr::Item(b) => {
            RequestBodyRef::Item(b.content.iter().map(|(n, m)| media_of(n, m)).collect())
        },
        openapiv3::ReferenceOr::Reference { .. } => RequestBodyRef::Reference,
    }
}

/// The content of one media type: its example pretty-printed with
/// `serde_json::to_string_pretty` (none where that fails), every entry of
/// its examples, its schema or schema reference.
#[verifier::external_body]
fn media_of(name: &String, m: &openapiv3::MediaType) -> (String, MediaContent) {
    let example = m.example.as_ref().and_then(|v| serde_json::to_string_pretty(v).ok());
    let examples = m.examples.values().map(|e| example_of(e)).collect();
    let schema = m.schema.as_ref().map(|s| match s {
        openapiv3::ReferenceOr::Item(_) => SchemaRef::Item,
        openapiv3::ReferenceOr::Reference { reference } => SchemaRef::Reference(reference.clone()),
    });
    (name.clone(), MediaContent { example, examples, schema })
}

/// An entry of `examples`: its value pretty-printed, or unusable for a
/// reference, a missing value or a value that does not print.
#[verifier::external_body]
fn example_of(ex: &openapiv3::ReferenceOr<openapiv3::Example>) -> ExampleValue {
    match ex {
        openapiv3::ReferenceOr::Item(e) => match e.value.as_ref().map(serde_json::to_string_pretty) {
            Some(Ok(pretty)) => ExampleValue::Value(pretty),
            _ => ExampleValue::Unusable,
        },
        openapiv3::ReferenceOr::Reference { .. } => ExampleValue::Unusable,
    }
}

/// A parameter or a reference to one.
#[verifier::external_body]
fn param_ref_of(r: &openapiv3::ReferenceOr<openapiv3::Parameter>) -> ParamRef {
    match r {
        openapiv3::ReferenceOr::Item(p) => ParamRef::Item(param_spec_of(p)),
        openapiv3::ReferenceOr::Reference { reference } => ParamRef::Reference(reference.clone()),
    }
}

/// A parameter: where it goes, name, example and description.
#[verifier::external_body]
fn param_spec_of(p: &openapiv3::Parameter) -> ParamSpec {
    let (location, d) = match p {
        openapiv3::Parameter::Query { parameter_data, .. } => (ParamLocation::Query, parameter_data),
        openapiv3::Parameter::Header { parameter_data, .. } => (ParamLocation::Header, parameter_data),
        openapiv3::Parameter::Path { parameter_data, .. } => (ParamLocation::Path, parameter_data),
        openapiv3::Parameter::Cookie { parameter_data, .. } => (ParamLocation::Cookie, parameter_data),
    };
    let example = d.example.as_ref().map(|v| match v {
        serde_json::Value::String(s) => ParamExample::Text(s.clone()),
        _ => ParamExample::Other,
    });
    ParamSpec { location, name: d.name.clone(), example, description: d.description.clone() }
}

/// The components the importer reads: schema names (whether each is a
/// schema), parameters, security schemes in order.
#[verifier::external_body]
fn components_of(c: &openapiv3::Components) -> crate::openapi::ComponentsSpec {
    crate::openapi::ComponentsSpec {
        schemas: c.schemas.iter().map(|(n, s)| (n.clone(), match s {
            openapiv3::ReferenceOr::Item(_) => true,
            openapiv3::ReferenceOr::Reference { .. } => false,
        })).collect(),
        parameters: c.parameters.iter().map(|(n, p)| (n.clone(), param_ref_of(p))).collect(),
        security_schemes: c.security_schemes.values().map(|s| scheme_of(s)).collect(),
    }
}

/// A security scheme: HTTP with its scheme name, api key with its
/// parameter name, any other; none for a reference.
#[verifier::external_body]
fn scheme_of(s: &openapiv3::ReferenceOr<openapiv3::SecurityScheme>) -> Option<SecuritySchemeSpec> {
    match s {
        openapiv3::ReferenceOr::Item(openapiv3::SecurityScheme::HTTP { scheme, .. }) => {
            Some(SecuritySchemeSpec::Http(scheme.clone()))
        },
        openapiv3::ReferenceOr::Item(openapiv3::SecurityScheme::APIKey { name, .. }) => {
            Some(SecuritySchemeSpec::ApiKey(name.clone()))
        },
        openapiv3::ReferenceOr::Item(_) => Some(SecuritySchemeSpec::Other),
        openapiv3::ReferenceOr::Reference { .. } => None,
    }
}

/// What importing the spec in `text` would bring, or the parser's message
/// after `json: ` or `yaml: `.
pub fn preview_text(text: &str, is_json: bool) -> (r: Result<ImportPreview, String>)
    ensures
        match r {
            Ok(p) => spec_openapi_doc(text@, is_json) matches Some(s) && preview_matches(s, p),
            Err(e) => spec_openapi_doc(text@, is_json) is None && exists|why: Seq<char>|
                e@ == parse_error_prefix(is_json) + why,
        },
{
    match read_spec_text(text, is_json) {
        Ok(s) => Ok(preview(&s)),
        Err(e) => Err(e),
    }
}

/// The requests an import of the spec in `text` would write, with the
/// spec's model, or the parser's message after `json: ` or `yaml: `.
pub fn plan_import_text(text: &str, is_json: bool) -> (r: Result<(ApiSpec, Vec<ImportItem>), String>)
    ensures
        match r {
            Ok((s, items)) => spec_openapi_doc(text@, is_json) == Some(s) && items@.len()
                == spec_iter_ops(s.paths@).len() && forall|k: int|
                0 <= k < items@.len() ==> import_item_matches(
                    s,
                    spec_iter_ops(s.paths@)[k],
                    k,
                    #[trigger] items@[k],
                ),
            Err(e) => spec_openapi_doc(text@, is_json) is None && exists|why: Seq<char>|
                e@ == parse_error_prefix(is_json) + why,
        },
{
    match read_spec_text(text, is_json) {
        Ok(s) => {
            let items = plan_import(&s);
            Ok((s, items))
        },
        Err(e) => Err(e),
    }
}

} // verus!
