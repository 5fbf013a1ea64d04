use hitr::openapi::{
    build_url, extract_body, extract_params, op_name, plan_import, preview, slug, suggested_vars,
    wants_env, ApiSpec, ComponentsSpec, ExampleValue, ImportTally, MediaContent, OperationSpec, ParamExample, ParamLocation,
    ParamRef, ParamSpec, PathEntry, PathOps, RequestBodyRef, SchemaRef, SecuritySchemeSpec,
};

fn op(id: Option<&str>, summary: Option<&str>, tags: &[&str]) -> OperationSpec {
    OperationSpec {
        operation_id: id.map(String::from),
        summary: summary.map(String::from),
        tags: tags.iter().map(|t| t.to_string()).collect(),
        parameters: vec![],
        request_body: None,
    }
}

fn no_ops() -> PathOps {
    PathOps { get: None, post: None, put: None, patch: None, delete: None, head: None, options: None, trace: None }
}

fn param(loc: ParamLocation, name: &str, example: Option<&str>) -> ParamSpec {
    ParamSpec { location: loc, name: name.into(), example: example.map(|e| ParamExample::Text(e.into())), description: None }
}

fn sample_spec() -> ApiSpec {
    let mut get_users = op(Some("listUsers"), None, &["users"]);
    get_users.parameters = vec![
        ParamRef::Item(param(ParamLocation::Query, "page", Some("1"))),
        ParamRef::Reference("#/components/parameters/Trace".into()),
        ParamRef::Item(param(ParamLocation::Path, "id", None)),
    ];
    let mut post_users = op(None, Some("Create user"), &[]);
    post_users.request_body = Some(RequestBodyRef::Item(vec![
        ("text/plain".into(), MediaContent { example: Some("no".into()), examples: vec![], schema: None }),
        ("application/json".into(), MediaContent {
            example: None,
            examples: vec![ExampleValue::Value("{\n  \"n\": 1\n}".into()), ExampleValue::Unusable],
            schema: None,
        }),
    ]));
    let mut users = no_ops();
    users.get = Some(get_users);
    users.post = Some(post_users);
    let mut item = no_ops();
    item.delete = Some(op(None, None, &["users"]));
    ApiSpec {
        title: "Demo".into(),
        version: "1.0".into(),
        servers: vec!["https://api.test".into()],
        paths: vec![
            PathEntry { path: "/users".into(), ops: Some(users) },
            PathEntry { path: "/users/{id}".into(), ops: Some(item) },
            PathEntry { path: "/ref".into(), ops: None },
        ],
        components: Some(ComponentsSpec {
            schemas: vec![("User".into(), true)],
            parameters: vec![("Trace".into(), ParamRef::Item(param(ParamLocation::Header, "X-Trace", None)))],
            security_schemes: vec![
                Some(SecuritySchemeSpec::Http("Bearer".into())),
                Some(SecuritySchemeSpec::ApiKey("X-Api-Key".into())),
                None,
                Some(SecuritySchemeSpec::Http("bearer".into())),
            ],
        }),
    }
}

#[test]
fn slug_and_url() {
    assert_eq!(slug("/users/{id}/x"), "users__id__x");
    assert_eq!(slug("__a b__"), "a_b");
    assert_eq!(slug("Ünïcode"), "n_code");
    assert_eq!(slug(&slug("a--b")), slug("a--b"));
    assert_eq!(build_url("/users/{id}"), "{{baseUrl}}/users/{id}");
}

#[test]
fn operation_names() {
    assert_eq!(op_name(&op(Some("x"), Some("y"), &[]), "GET", "/a"), "x");
    assert_eq!(op_name(&op(None, Some("List all"), &[]), "GET", "/a"), "List all");
    assert_eq!(op_name(&op(None, Some(""), &[]), "DELETE", "/users/{id}"), "delete_users__id");
    let long: String = "s".repeat(100);
    assert_eq!(op_name(&op(None, Some(&long), &[]), "GET", "/a").len(), 80);
}

#[test]
fn params_and_body() {
    let spec = sample_spec();
    let get_users = spec.paths[0].ops.as_ref().unwrap().get.as_ref().unwrap();
    let (headers, params) = extract_params(get_users, &spec);
    assert_eq!(headers.len(), 1);
    assert_eq!(headers[0].name, "X-Trace");
    assert_eq!(headers[0].kind.as_deref(), Some("header"));
    assert_eq!(params.len(), 1);
    assert_eq!(params[0].name, "page");
    assert_eq!(params[0].value, "1");
    assert_eq!(params[0].enabled, Some(true));
    let post_users = spec.paths[0].ops.as_ref().unwrap().post.as_ref().unwrap();
    let b = extract_body(post_users, &spec);
    assert_eq!(b.kind.as_deref(), Some("json"));
    assert_eq!(b.data.as_deref(), Some("{\n  \"n\": 1\n}"));
    let mut schema_only = op(None, None, &[]);
    schema_only.request_body = Some(RequestBodyRef::Item(vec![("application/json".into(), MediaContent {
        example: None,
        examples: vec![ExampleValue::Unusable, ExampleValue::Value("1".into())],
        schema: Some(SchemaRef::Reference("#/components/schemas/User".into())),
    })]));
    let sb = extract_body(&schema_only, &spec);
    assert_eq!(sb.kind.as_deref(), Some("json"));
    assert_eq!(sb.data, None);
    let mut missing = op(None, None, &[]);
    missing.request_body = Some(RequestBodyRef::Item(vec![("application/json".into(), MediaContent {
        example: None,
        examples: vec![],
        schema: Some(SchemaRef::Reference("#/components/schemas/Nope".into())),
    })]));
    assert_eq!(extract_body(&missing, &spec).kind, None);
}

#[test]
fn suggested_variables() {
    let spec = sample_spec();
    let vs = suggested_vars(&spec);
    let names: Vec<&str> = vs.iter().map(|v| v.name.as_str()).collect();
    assert_eq!(names, vec!["baseUrl", "bearerToken", "X_Api_Key"]);
    assert_eq!(vs[0].value, "https://api.test");
    assert!(!vs[0].secret);
    assert!(vs[1].secret && vs[2].secret);
}

#[test]
fn preview_counts() {
    let p = preview(&sample_spec());
    assert_eq!(p.title, "Demo");
    assert_eq!(p.version, "1.0");
    assert_eq!(p.op_count, 3);
    assert_eq!(p.folder_count, 2);
    assert_eq!(p.sample_ops.len(), 3);
    assert_eq!(p.sample_ops[0].method, "GET");
    assert_eq!(p.sample_ops[0].name, "listUsers");
    assert_eq!(p.sample_ops[1].folder, "default");
    assert_eq!(p.sample_ops[2].path, "/users/{id}");
}

#[test]
fn import_plan() {
    let items = plan_import(&sample_spec());
    assert_eq!(items.len(), 3);
    assert_eq!(items[0].folder_dir, "users");
    assert_eq!(items[0].file_name, "listUsers.yml");
    assert_eq!(items[0].request.info.seq, 1);
    assert_eq!(items[0].request.http.url, "{{baseUrl}}/users");
    assert_eq!(items[0].request.http.auth.as_deref(), Some("inherit"));
    assert_eq!(items[1].file_name, "Create_user.yml");
    assert_eq!(items[1].request.http.method, "POST");
    assert_eq!(items[2].file_name, "delete_users__id.yml");
    assert_eq!(items[2].request.info.seq, 3);
    assert!(wants_env(true, " qa "));
    assert!(!wants_env(true, "  "));
    assert!(!wants_env(false, "qa"));
}

#[test]
fn reimport_skips_every_existing_file() {
    let spec = ApiSpec {
        title: "T".to_string(),
        version: "1".to_string(),
        servers: vec![],
        paths: vec![PathEntry {
            path: "/a".to_string(),
            ops: Some(PathOps { get: Some(op(Some("listA"), None, &["x"])), post: Some(op(None, None, &[])), ..no_ops() }),
        }],
        components: None,
    };
    let items = plan_import(&spec);
    let mut files: Vec<(String, String)> = vec![];
    let mut first = ImportTally::new();
    for it in &items {
        let target = (it.folder_dir.clone(), it.file_name.clone());
        if first.record(files.contains(&target)) {
            files.push(target);
        }
    }
    assert_eq!((first.written, first.skipped), (2, 0));
    let mut second = ImportTally::new();
    for it in &items {
        let target = (it.folder_dir.clone(), it.file_name.clone());
        assert!(!second.record(files.contains(&target)));
    }
    assert_eq!((second.written, second.skipped), (0, 2));
}

#[test]
fn spec_text_is_read_and_planned() {
    let text = r#"{"openapi":"3.0.0","info":{"title":"T","version":"1"},
      "servers":[{"url":"https://a.test"}],
      "paths":{"/u":{"post":{"operationId":"makeU",
        "parameters":[{"name":"q","in":"query","example":"x","schema":{"type":"string"}}],
        "requestBody":{"content":{"text/plain":{"example":"t"},"application/json":{"example":{"a":1}}}},"responses":{}}}}}"#;
    let p = hitr::openapi_doc::preview_text(text, true).unwrap();
    assert_eq!((p.title.as_str(), p.op_count), ("T", 1));
    let (spec, items) = hitr::openapi_doc::plan_import_text(text, true).unwrap();
    assert_eq!(spec.servers, vec!["https://a.test".to_string()]);
    assert_eq!(items.len(), 1);
    let r = &items[0].request;
    assert_eq!(r.http.method, "POST");
    assert_eq!(r.http.params[0].name, "q");
    assert_eq!(r.http.params[0].value, "x");
    assert_eq!(r.http.body.data.as_deref(), Some("{\n  \"a\": 1\n}"));
    let e = hitr::openapi_doc::plan_import_text("paths: [", false).unwrap_err();
    assert!(e.starts_with("yaml: "));
}
