use mimicrab::dispatch::{plan_request, Plan};
use mimicrab::json::{json_eq, json_to_text, Json};
use mimicrab::models::{Expectation, MockResponse, RequestCondition, ResponseConfig};
use mimicrab::render::Payload;
use mimicrab::templating::{get_value_by_path, resolve_template, resolve_template_value};

fn b(x: &str) -> Vec<u8> {
    x.as_bytes().to_vec()
}

fn jstr(x: &str) -> Json {
    Json::Str(b(x))
}

fn jobj(pairs: Vec<(&str, Json)>) -> Json {
    Json::Obj(pairs.into_iter().map(|(k, v)| (b(k), v)).collect())
}

fn segs(parts: Vec<&str>) -> Vec<Vec<u8>> {
    parts.into_iter().map(b).collect()
}

fn rendered(template: Json, path_segments: Vec<&str>, req_body: Option<Json>) -> serde_json::Value {
    let out = resolve_template_value(&template, &segs(path_segments), &req_body);
    serde_json::from_slice(&json_to_text(&out)).expect("valid JSON")
}

fn exp(id: u64, method: &str, path: &str, body: Json) -> Expectation {
    Expectation {
        id,
        condition: RequestCondition {
            method: Some(b(method)),
            path: Some(b(path)),
            headers: None,
            body: None,
        },
        response: MockResponse {
            response: ResponseConfig {
                status_code: Some(200),
                headers: None,
                body: Some(body),
                body_type: None,
                latency: None,
            },
            jitter: None,
            proxy: None,
            script: None,
        },
    }
}

fn reply_json(exps: &Vec<Expectation>, method: &str, path: &str, body: Option<Json>) -> serde_json::Value {
    let headers: Vec<(Vec<u8>, Vec<u8>)> = Vec::new();
    let (p, _log) = plan_request(
        exps,
        method.as_bytes(),
        path.as_bytes(),
        path.as_bytes(),
        &headers,
        &body,
        0,
        b"2024-01-01T00:00:00Z",
    );
    match p {
        Plan::Reply { response, .. } => match response.payload {
            Payload::Bytes(bytes) => serde_json::from_slice(&bytes).expect("valid JSON"),
            _ => panic!("expected JSON bytes"),
        },
        _ => panic!("expected a reply"),
    }
}

#[test]
fn test_typed_templates() {
    // Numeric path segment is typed heuristically.
    let exps = vec![exp(
        1,
        "GET",
        "/user/:id",
        jobj(vec![("id", jstr("{{path[1]}}")), ("type", jstr("id"))]),
    )];
    let v = reply_json(&exps, "GET", "/user/123", None);
    assert!(v["id"].is_number());
    assert_eq!(v["id"], 123);

    // Boolean segment, and the string filter.
    let exps = vec![exp(
        2,
        "GET",
        "/convert/:val",
        jobj(vec![
            ("original", jstr("{{path[1]}}")),
            ("as_string", jstr("{{path[1]:string}}")),
        ]),
    )];
    let v = reply_json(&exps, "GET", "/convert/true", None);
    assert!(v["original"].is_boolean());
    assert_eq!(v["original"], true);
    assert!(v["as_string"].is_string());
    assert_eq!(v["as_string"], "true");

    // Typed body fields: numbers, booleans and objects keep their types;
    // the string filter stringifies.
    let exps = vec![exp(
        3,
        "POST",
        "/echo",
        jobj(vec![
            ("number", jstr("{{body.num}}")),
            ("bool", jstr("{{body.flag}}")),
            ("obj", jstr("{{body.data}}")),
            ("num_str", jstr("{{body.num:string}}")),
            ("flag_str", jstr("{{body.flag:string}}")),
        ]),
    )];
    let req = jobj(vec![
        ("num", Json::Int(42)),
        ("flag", Json::Bool(false)),
        ("data", jobj(vec![("nested", jstr("val"))])),
    ]);
    let v = reply_json(&exps, "POST", "/echo", Some(req));
    assert!(v["number"].is_number());
    assert_eq!(v["number"], 42);
    assert!(v["bool"].is_boolean());
    assert_eq!(v["bool"], false);
    assert!(v["obj"].is_object());
    assert_eq!(v["obj"]["nested"], "val");
    assert!(v["num_str"].is_string());
    assert_eq!(v["num_str"], "42");
    assert!(v["flag_str"].is_string());
    assert_eq!(v["flag_str"], "false");
}

#[test]
fn test_templated_body_array() {
    let template = jobj(vec![
        ("first_name", jstr("{{body[0].name}}")),
        ("second_id", jstr("{{body[1].id}}")),
        ("deep", jstr("{{body[1].tags[0]}}")),
        ("path_0", jstr("{{path[0]}}")),
    ]);
    let req = Json::Arr(vec![
        jobj(vec![("id", Json::Int(101)), ("name", jstr("Alice"))]),
        jobj(vec![
            ("id", Json::Int(102)),
            ("name", jstr("Bob")),
            ("tags", Json::Arr(vec![jstr("tag1"), jstr("tag2")])),
        ]),
    ]);
    let v = rendered(template, vec!["array-test"], Some(req));
    assert_eq!(v["first_name"], "Alice");
    assert_eq!(v["second_id"], 102);
    assert_eq!(v["deep"], "tag1");
    assert_eq!(v["path_0"], "array-test");
}

#[test]
fn test_template_without_placeholders_unchanged() {
    let template = jobj(vec![
        ("a", Json::Int(1)),
        ("b", jstr("plain text")),
        ("c", Json::Arr(vec![Json::Bool(true), Json::Null, jstr("x y z")])),
    ]);
    let copy = mimicrab::json::json_clone(&template);
    let out = resolve_template_value(
        &template,
        &segs(vec!["seg0", "seg1"]),
        &Some(jobj(vec![("k", jstr("v"))])),
    );
    assert!(json_eq(&out, &copy));
}

#[test]
fn test_missing_references_yield_null() {
    // Out-of-bounds path index and missing body nodes become null.
    let template = jobj(vec![
        ("oob", jstr("{{path[9]}}")),
        ("missing", jstr("{{body.not.there}}")),
        ("nobody", jstr("{{body.k}}")),
    ]);
    let v = rendered(template, vec!["only"], None);
    assert!(v["oob"].is_null());
    assert!(v["missing"].is_null());
    assert!(v["nobody"].is_null());
}

#[test]
fn test_string_mode_partial_placeholders() {
    // Text around a placeholder forces string-mode substitution.
    let out = resolve_template(
        b"hello {{path[0]}} and {{body.user}}!",
        &segs(vec!["world"]),
        &Some(jobj(vec![("user", jstr("ann"))])),
    );
    assert_eq!(out, b"hello world and ann!".to_vec());

    // A non-string body value loses its double quotes in string mode.
    let out = resolve_template(
        b"data={{body.obj}}",
        &segs(vec![]),
        &Some(jobj(vec![("obj", jobj(vec![("a", jstr("b"))]))])),
    );
    assert_eq!(out, b"data={a:b}".to_vec());
}

#[test]
fn test_int_and_bool_filters() {
    let template = jobj(vec![
        ("n", jstr("{{path[0]:int}}")),
        ("bad_n", jstr("{{path[1]:int}}")),
        ("flag", jstr("{{path[2]:bool}}")),
        ("bad_flag", jstr("{{path[0]:bool}}")),
    ]);
    let v = rendered(template, vec!["-17", "abc", "true"], None);
    assert_eq!(v["n"], -17);
    assert!(v["bad_n"].is_null());
    assert_eq!(v["flag"], true);
    assert!(v["bad_flag"].is_null());
}

#[test]
fn test_get_value_by_path_walk() {
    let body = jobj(vec![(
        "users",
        Json::Arr(vec![
            jobj(vec![("name", jstr("ann"))]),
            jobj(vec![("name", jstr("ben"))]),
        ]),
    )]);
    let v = get_value_by_path(&body, b".users[1].name").expect("found");
    assert!(json_eq(v, &jstr("ben")));
    assert!(get_value_by_path(&body, b".users[2].name").is_none());
    assert!(get_value_by_path(&body, b".nope").is_none());
}
