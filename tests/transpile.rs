use postman2openapi::content::{ensure_success_response, header_content_type, raw_content};
use postman2openapi::ids::{operation_id, OperationIds};
use postman2openapi::json::Json;
use postman2openapi::model::{
    Body, BodyMode, Collection, Header, Item, MediaExample, QueryParam, Request, Response,
    ResponseExample, Url, UrlEncodedParam, Variable,
};
use postman2openapi::resolve::ReplaceMode;
use postman2openapi::schema::{generate_schema, merge_schemas, SchemaType};
use postman2openapi::vars::VariableTable;
use postman2openapi::Transpiler;

fn table(pairs: &[(&str, &str)]) -> VariableTable {
    let mut t = VariableTable::new();
    for (k, v) in pairs {
        t.insert(k.to_string(), Json::Str(v.to_string()));
    }
    t
}

fn leaf(name: &str, method: &str, url: Url) -> Item {
    Item {
        name: Some(name.to_string()),
        description: None,
        children: None,
        request: Some(Request {
            method: Some(method.to_string()),
            url: Some(url),
            header: None,
            body: None,
            description: None,
        }),
        response: None,
    }
}

fn url(protocol: Option<&str>, host: &[&str], path: &[&str]) -> Url {
    Url {
        protocol: protocol.map(|p| p.to_string()),
        host: Some(host.iter().map(|h| h.to_string()).collect()),
        path: Some(path.iter().map(|p| p.to_string()).collect()),
        query: None,
        variable: None,
    }
}

#[test]
fn known_placeholders_are_all_replaced() {
    let t = table(&[("host", "api.example.com"), ("v", "v2")]);
    let r = t.resolve_variables("https://{{host}}/{{v}}/x/{{host}}", 20);
    assert_eq!(r, "https://api.example.com/v2/x/api.example.com");
    assert!(!r.contains("{{"));
}

#[test]
fn nested_placeholders_resolve_through_values() {
    let t = table(&[("a", "{{b}}-x"), ("b", "y")]);
    assert_eq!(t.resolve_variables("{{a}}", 20), "y-x");
}

#[test]
fn placeholder_cycle_stops_after_the_credits() {
    let t = table(&[("a", "{{b}}"), ("b", "{{a}}")]);
    assert_eq!(t.resolve_variables("{{a}}", 20), "{{a}}");
    assert_eq!(t.resolve_variables("{{a}}", 3), "{{b}}");
    assert_eq!(t.resolve_variables("{{a}}", 0), "{{a}}");
}

#[test]
fn unknown_placeholders_are_passed_over() {
    let t = table(&[("b", "B")]);
    assert_eq!(t.resolve_variables("{{a}}{{b}}", 20), "{{a}}B");
    assert_eq!(t.resolve_variables("{{b}}{{a}}", 20), "B{{a}}");
}

#[test]
fn non_string_values_are_not_substituted() {
    let mut t = VariableTable::new();
    t.insert("n".to_string(), Json::Number("5".to_string()));
    assert_eq!(t.resolve_variables("x{{n}}", 20), "x{{n}}");
}

#[test]
fn path_mode_writes_remaining_placeholders_as_templates() {
    let t = table(&[("known", "users")]);
    assert_eq!(t.resolve_variables_with_replace_fn("{{id}}", 20, ReplaceMode::PathTemplate), "{id}");
    assert_eq!(t.resolve_variables_with_replace_fn("{{known}}", 20, ReplaceMode::PathTemplate), "users");
    assert_eq!(t.resolve_variables_with_replace_fn("a{{x}}b{{y}}", 20, ReplaceMode::Keep), "a{{x}}b{{y}}");
}

#[test]
fn merge_keeps_the_first_declared_type() {
    let a = Json::Object(vec![("a".to_string(), Json::Number("1".to_string()))]);
    let b = Json::Object(vec![("a".to_string(), Json::Str("x".to_string()))]);
    let m = merge_schemas(&generate_schema(&a), &generate_schema(&b));
    assert_eq!(m.schema_type, Some(SchemaType::Object));
    let props = m.properties.unwrap();
    assert_eq!(props.len(), 1);
    assert_eq!(props[0].0, "a");
    assert_eq!(props[0].1.schema_type, Some(SchemaType::Number));
}

#[test]
fn array_items_merge_nullability() {
    let arr = Json::Array(vec![Json::Null, Json::Str("x".to_string())]);
    let s = generate_schema(&arr);
    assert_eq!(s.schema_type, Some(SchemaType::Array));
    let items = s.items.unwrap();
    assert_eq!(items.schema_type, Some(SchemaType::String));
    assert_eq!(items.nullable, Some(true));
    let empty = generate_schema(&Json::Array(vec![]));
    assert!(empty.items.is_none());
}

#[test]
fn null_schema_has_no_type() {
    let s = generate_schema(&Json::Null);
    assert_eq!(s.schema_type, None);
    assert_eq!(s.nullable, Some(true));
    assert!(matches!(s.example, Some(Json::Null)));
}

#[test]
fn missing_success_response_is_synthesized() {
    let mut rs = vec![("404".to_string(), Response { description: Some("nf".to_string()), content: None })];
    ensure_success_response(&mut rs);
    assert_eq!(rs.len(), 2);
    assert_eq!(rs[0].0, "404");
    assert_eq!(rs[0].1.description.as_deref(), Some("nf"));
    assert_eq!(rs[1].0, "200");
    assert_eq!(rs[1].1.description.as_deref(), Some(""));
}

#[test]
fn existing_success_response_is_kept() {
    let mut rs = vec![("226".to_string(), Response { description: None, content: None })];
    ensure_success_response(&mut rs);
    assert_eq!(rs.len(), 1);
    let mut rs = vec![("209".to_string(), Response { description: None, content: None })];
    ensure_success_response(&mut rs);
    assert_eq!(rs.len(), 2);
}

#[test]
fn colliding_names_get_numbered_ids() {
    let mut ids = OperationIds::new();
    assert_eq!(operation_id(&mut ids, "Get User"), "getUser");
    assert_eq!(operation_id(&mut ids, "get-user"), "getUser1");
    assert_eq!(operation_id(&mut ids, "get_user"), "getUser2");
    assert_eq!(operation_id(&mut ids, "List"), "list");
}

#[test]
fn content_type_header_is_cut_at_semicolon() {
    let hs = vec![
        Header { key: "Accept".to_string(), value: "x".to_string() },
        Header { key: "CONTENT-TYPE".to_string(), value: "application/json; charset=utf-8".to_string() },
    ];
    assert_eq!(header_content_type(&hs).as_deref(), Some("application/json"));
    assert_eq!(header_content_type(&vec![]), None);
}

#[test]
fn raw_bodies_are_classified() {
    let (ct, schema, ex) = raw_content("{\"a\": [1, 2]}".to_string());
    assert_eq!(ct.as_deref(), Some("application/json"));
    assert_eq!(schema.unwrap().schema_type, Some(SchemaType::Object));
    assert!(matches!(ex, Json::Object(_)));
    let (ct, schema, ex) = raw_content("hello".to_string());
    assert_eq!(ct.as_deref(), Some("text/plain"));
    assert!(schema.is_none());
    assert!(matches!(ex, Json::Str(s) if s == "hello"));
    let (ct, _, ex) = raw_content("42".to_string());
    assert_eq!(ct.as_deref(), Some("text/plain"));
    assert!(matches!(ex, Json::Str(s) if s == "42"));
}

#[test]
fn query_parameters_none_when_empty() {
    let t = table(&[("v", "1")]);
    assert!(t.generate_query_parameters(&vec![]).is_none());
    let qs = vec![QueryParam { key: Some("page".to_string()), value: Some("{{v}}".to_string()), description: None }];
    let ps = t.generate_query_parameters(&qs).unwrap();
    assert_eq!(ps[0].name, "page");
    assert_eq!(ps[0].location, "query");
    assert!(matches!(&ps[0].schema.example, Some(Json::Str(s)) if s == "1"));
}

#[test]
fn path_parameters_keep_repeated_names() {
    let t = VariableTable::new();
    let segs = vec!["{id}".to_string(), "x".to_string(), "{id}-{v}".to_string()];
    let hints = Some(vec![Variable {
        key: Some("id".to_string()),
        value: Some(Json::Str("7".to_string())),
        description: Some("the id".to_string()),
    }]);
    let ps = t.generate_path_parameters(&segs, &hints).unwrap();
    let names: Vec<&str> = ps.iter().map(|p| p.name.as_str()).collect();
    assert_eq!(names, vec!["id", "id", "v"]);
    assert_eq!(ps[0].description.as_deref(), Some("the id"));
    assert_eq!(ps[0].required, Some(true));
    assert!(ps[2].description.is_none());
    assert!(t.generate_path_parameters(&vec!["a".to_string()], &None).is_none());
}

#[test]
fn end_to_end_single_folder() {
    let folder = Item {
        name: Some("Users".to_string()),
        description: None,
        children: Some(vec![leaf("List", "GET", url(Some("https"), &["{{host}}"], &["users", ":id"]))]),
        request: None,
        response: None,
    };
    let collection = Collection {
        name: "API".to_string(),
        description: None,
        items: vec![folder],
        variables: vec![Variable {
            key: Some("host".to_string()),
            value: Some(Json::Str("api.example.com".to_string())),
            description: None,
        }],
    };
    let doc = Transpiler::transpile(collection);
    assert_eq!(doc.openapi, "3.0.3");
    assert_eq!(doc.servers.len(), 1);
    assert_eq!(doc.servers[0].url, "https://api.example.com");
    assert_eq!(doc.tags.len(), 1);
    assert_eq!(doc.tags[0].name, "Users");
    assert_eq!(doc.paths.len(), 1);
    assert_eq!(doc.paths[0].0, "/users/{id}");
    let item = &doc.paths[0].1;
    let params = item.parameters.as_ref().unwrap();
    assert_eq!(params.len(), 1);
    assert_eq!(params[0].name, "id");
    assert_eq!(params[0].location, "path");
    assert_eq!(params[0].required, Some(true));
    assert_eq!(params[0].schema.schema_type, Some(SchemaType::String));
    let op = item.get.as_ref().unwrap();
    assert_eq!(op.tags.as_ref().unwrap(), &vec!["Users".to_string()]);
    assert_eq!(op.operation_id.as_deref(), Some("list"));
    assert_eq!(op.responses.len(), 1);
    assert_eq!(op.responses[0].0, "200");
    assert_eq!(op.responses[0].1.description.as_deref(), Some(""));
}

#[test]
fn servers_are_unique_and_unknown_methods_dropped() {
    let items = vec![
        leaf("A", "post", url(None, &["example", "com"], &["a"])),
        leaf("B", "FETCH", url(None, &["example", "com"], &["a"])),
        leaf("C", "Delete", url(Some("http"), &["example", "com"], &["c"])),
    ];
    let doc = Transpiler::transpile(Collection { name: "n".to_string(), description: None, items, variables: vec![] });
    let urls: Vec<&str> = doc.servers.iter().map(|s| s.url.as_str()).collect();
    assert_eq!(urls, vec!["example.com", "http://example.com"]);
    assert_eq!(doc.paths.len(), 2);
    assert!(doc.paths[0].1.post.is_some());
    assert!(doc.paths[0].1.get.is_none());
    assert!(doc.paths[1].1.delete.is_some());
    assert!(doc.tags.is_empty());
    assert!(doc.paths[0].1.post.as_ref().unwrap().tags.is_none());
}

#[test]
fn nested_folders_tag_in_visit_order() {
    let inner = Item {
        name: Some("Inner".to_string()),
        description: Some("d".to_string()),
        children: Some(vec![leaf("X", "GET", url(None, &["h"], &["x"]))]),
        request: None,
        response: None,
    };
    let outer = Item { name: None, description: None, children: Some(vec![inner]), request: None, response: None };
    let doc = Transpiler::transpile(Collection { name: "n".to_string(), description: None, items: vec![outer], variables: vec![] });
    let names: Vec<&str> = doc.tags.iter().map(|t| t.name.as_str()).collect();
    assert_eq!(names, vec!["<folder>", "Inner"]);
    let op = doc.paths[0].1.get.as_ref().unwrap();
    assert_eq!(op.tags.as_ref().unwrap(), &vec!["<folder>".to_string(), "Inner".to_string()]);
}

#[test]
fn request_body_and_responses() {
    let mut it = leaf("Create", "POST", url(None, &["h"], &["items"]));
    if let Some(r) = &mut it.request {
        r.body = Some(Body { mode: Some(BodyMode::Raw), raw: Some("{\"n\": {{num}}}".to_string()), urlencoded: None });
    }
    it.response = Some(vec![
        Some(ResponseExample { name: Some("created".to_string()), code: Some(201), body: Some("[1]".to_string()) }),
        None,
        Some(ResponseExample { name: None, code: Some(-5), body: None }),
    ]);
    let vars = vec![Variable { key: Some("num".to_string()), value: Some(Json::Str("3".to_string())), description: None }];
    let doc = Transpiler::transpile(Collection { name: "n".to_string(), description: None, items: vec![it], variables: vars });
    let op = doc.paths[0].1.post.as_ref().unwrap();
    let body = op.request_body.as_ref().unwrap();
    assert_eq!(body.content[0].0, "application/json");
    let codes: Vec<&str> = op.responses.iter().map(|r| r.0.as_str()).collect();
    assert_eq!(codes, vec!["201", "-5"]);
    let created = &op.responses[0].1;
    assert_eq!(created.description.as_deref(), Some("created"));
    let media = created.content.as_ref().unwrap();
    assert_eq!(media[0].0, "application/json");
    assert!(matches!(&media[0].1.examples, Some(MediaExample::Examples(ex)) if ex[0].0 == "created"));
    assert_eq!(op.description.as_deref(), Some("Create"));
}

#[test]
fn variables_with_empty_values_are_dropped() {
    let vars = vec![
        Variable { key: Some("a".to_string()), value: Some(Json::Str("1".to_string())), description: None },
        Variable { key: Some("a".to_string()), value: Some(Json::Str("".to_string())), description: None },
        Variable { key: Some("b".to_string()), value: Some(Json::Str("2".to_string())), description: None },
        Variable { key: Some("b".to_string()), value: Some(Json::Str("3".to_string())), description: None },
    ];
    let t = Transpiler::new(&vars);
    assert_eq!(t.resolve_variables("{{a}}{{b}}", 20), "13");
}

#[test]
fn known_placeholder_after_unknown_one_is_replaced() {
    let t = table(&[("h", "x")]);
    assert_eq!(t.resolve_variables("{{u}}/{{h}}", 20), "{{u}}/x");
}

#[test]
fn non_ascii_names_are_used_as_ids() {
    let mut ids = OperationIds::new();
    assert_eq!(operation_id(&mut ids, "a\u{c9}"), "a\u{c9}");
    assert_eq!(operation_id(&mut ids, "a\u{c9}"), "a\u{c9}1");
}

#[test]
fn urlencoded_body_keeps_later_values() {
    let mut it = leaf("Form", "POST", url(None, &["h"], &["f"]));
    if let Some(r) = &mut it.request {
        r.body = Some(Body {
            mode: Some(BodyMode::Urlencoded),
            raw: None,
            urlencoded: Some(vec![
                UrlEncodedParam { key: "a".to_string(), value: Some("1".to_string()) },
                UrlEncodedParam { key: "b".to_string(), value: None },
                UrlEncodedParam { key: "a".to_string(), value: Some("2".to_string()) },
            ]),
        });
    }
    let doc = Transpiler::transpile(Collection { name: "n".to_string(), description: None, items: vec![it], variables: vec![] });
    let body = doc.paths[0].1.post.as_ref().unwrap().request_body.as_ref().unwrap();
    assert_eq!(body.content[0].0, "application/form-urlencoded");
    match &body.content[0].1.examples {
        Some(MediaExample::Example(Json::Object(d))) => {
            assert_eq!(d.len(), 1);
            assert_eq!(d[0].0, "a");
            assert!(matches!(&d[0].1, Json::Str(s) if s == "2"));
        }
        _ => panic!("expected an object example"),
    }
}

#[test]
fn operation_keeps_404_and_gains_200() {
    let mut it = leaf("Get Thing", "GET", url(None, &["h"], &["thing"]));
    it.response = Some(vec![Some(ResponseExample { name: Some("Not Found".to_string()), code: Some(404), body: None })]);
    let mut only201 = leaf("Make", "PoSt", url(None, &["h"], &["thing"]));
    only201.response = Some(vec![Some(ResponseExample { name: None, code: Some(201), body: None })]);
    let head = leaf("Peek", "HEAD", url(None, &["h"], &["thing"]));
    let doc = Transpiler::transpile(Collection { name: "n".to_string(), description: None, items: vec![it, only201, head], variables: vec![] });
    assert_eq!(doc.paths.len(), 1);
    let pi = &doc.paths[0].1;
    let get = pi.get.as_ref().unwrap();
    let codes: Vec<&str> = get.responses.iter().map(|r| r.0.as_str()).collect();
    assert_eq!(codes, vec!["404", "200"]);
    assert_eq!(get.responses[0].1.description.as_deref(), Some("Not Found"));
    assert_eq!(get.responses[1].1.description.as_deref(), Some(""));
    assert_eq!(get.operation_id.as_deref(), Some("getThing"));
    let post = pi.post.as_ref().unwrap();
    let codes: Vec<&str> = post.responses.iter().map(|r| r.0.as_str()).collect();
    assert_eq!(codes, vec!["201"]);
    assert!(pi.put.is_none() && pi.delete.is_none() && pi.patch.is_none() && pi.options.is_none() && pi.trace.is_none());
}
