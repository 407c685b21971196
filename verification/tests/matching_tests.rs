use mimicrab::dispatch::{plan_request, Plan};
use mimicrab::json::{json_to_text, Json};
use mimicrab::matcher::path_matches;
use mimicrab::models::{Expectation, MockResponse, RequestCondition, ResponseConfig};
use mimicrab::render::Payload;

fn b(x: &str) -> Vec<u8> {
    x.as_bytes().to_vec()
}

fn jstr(x: &str) -> Json {
    Json::Str(b(x))
}

fn jobj(pairs: Vec<(&str, Json)>) -> Json {
    Json::Obj(pairs.into_iter().map(|(k, v)| (b(k), v)).collect())
}

fn synth(status: Option<u16>, body: Option<Json>) -> MockResponse {
    MockResponse {
        response: ResponseConfig {
            status_code: status,
            headers: None,
            body,
            body_type: None,
            latency: None,
        },
        jitter: None,
        proxy: None,
        script: None,
    }
}

fn exp(id: u64, method: &str, path: &str, response: MockResponse) -> Expectation {
    Expectation {
        id,
        condition: RequestCondition {
            method: Some(b(method)),
            path: Some(b(path)),
            headers: None,
            body: None,
        },
        response,
    }
}

fn plan(exps: &Vec<Expectation>, method: &str, path: &str) -> Plan {
    let headers: Vec<(Vec<u8>, Vec<u8>)> = Vec::new();
    let (p, _log) = plan_request(
        exps,
        method.as_bytes(),
        path.as_bytes(),
        path.as_bytes(),
        &headers,
        &None,
        0,
        b"2024-01-01T00:00:00Z",
    );
    p
}

fn reply_json(p: &Plan) -> (u16, serde_json::Value) {
    match p {
        Plan::Reply { response, .. } => match &response.payload {
            Payload::Bytes(bytes) => (
                response.status,
                serde_json::from_slice(bytes).expect("body is JSON"),
            ),
            _ => panic!("expected JSON bytes"),
        },
        _ => panic!("expected a reply"),
    }
}

#[test]
fn test_parameterized_path_matching() {
    let body = jobj(vec![("matched", jstr("parameter")), ("id", jstr("{{path[1]:string}}"))]);
    let exps = vec![exp(1, "GET", "/books/:id/author", synth(Some(200), Some(body)))];

    let p = plan(&exps, "GET", "/books/123/author");
    let (status, v) = reply_json(&p);
    assert_eq!(status, 200);
    assert_eq!(v["id"], "123");

    let p = plan(&exps, "GET", "/books/abc/author");
    let (status, v) = reply_json(&p);
    assert_eq!(status, 200);
    assert_eq!(v["id"], "abc");

    let p = plan(&exps, "GET", "/books/123/wrong");
    assert!(matches!(p, Plan::NotFound { .. }));
}

#[test]
fn test_wildcard_path_matching() {
    assert!(path_matches(b"*/books".as_slice(), b"/path/to/books".as_slice()));
    assert!(path_matches(b"/api/*".as_slice(), b"/api/v1/users".as_slice()));
    assert!(path_matches(b"/static/*/main.js".as_slice(), b"/static/v1.2.3/main.js".as_slice()));
    assert!(!path_matches(b"/static/*/main.js".as_slice(), b"/static/v1.2.3/other.js".as_slice()));

    let exps = vec![
        exp(1, "GET", "/api/*", synth(Some(200), Some(jobj(vec![("matched", jstr("suffix"))])))),
        exp(
            2,
            "GET",
            "/static/*/main.js",
            synth(Some(200), Some(jobj(vec![("matched", jstr("middle"))]))),
        ),
    ];

    let (status, v) = reply_json(&plan(&exps, "GET", "/api/v1/users"));
    assert_eq!(status, 200);
    assert_eq!(v["matched"], "suffix");

    let (status, v) = reply_json(&plan(&exps, "GET", "/static/v1.2.3/main.js"));
    assert_eq!(status, 200);
    assert_eq!(v["matched"], "middle");
}

#[test]
fn test_plain_pattern_matches_itself() {
    // A pattern without wildcard or parameter bytes accepts itself.
    for p in ["/a/b/c", "/", "", "/users/42", "a-b_c.d"] {
        assert!(path_matches(p.as_bytes(), p.as_bytes()));
    }
}

#[test]
fn test_method_case_insensitive() {
    let c = RequestCondition {
        method: Some(b"get".to_vec()),
        path: None,
        headers: None,
        body: None,
    };
    let headers: Vec<(Vec<u8>, Vec<u8>)> = Vec::new();
    assert!(mimicrab::matcher::matches(b"GET", b"/x", &headers, &None, &c));
    assert!(!mimicrab::matcher::matches(b"POST", b"/x", &headers, &None, &c));
}

#[test]
fn test_header_and_body_condition() {
    let c = RequestCondition {
        method: None,
        path: None,
        headers: Some(vec![(b("X-Key"), b("val"))]),
        body: Some(jobj(vec![("a", Json::Int(1))])),
    };
    let good_headers = vec![(b("x-key"), b("val"))];
    let bad_headers = vec![(b("x-key"), b("other"))];
    let good_body = Some(jobj(vec![("a", Json::Int(1))]));
    let bad_body = Some(jobj(vec![("a", Json::Int(2))]));
    assert!(mimicrab::matcher::matches(b"GET", b"/x", &good_headers, &good_body, &c));
    assert!(!mimicrab::matcher::matches(b"GET", b"/x", &bad_headers, &good_body, &c));
    assert!(!mimicrab::matcher::matches(b"GET", b"/x", &good_headers, &bad_body, &c));
    assert!(!mimicrab::matcher::matches(b"GET", b"/x", &good_headers, &None, &c));
}

#[test]
fn test_first_match_wins() {
    let exps = vec![
        exp(1, "GET", "/dup", synth(Some(201), Some(jobj(vec![("which", jstr("first"))])))),
        exp(2, "GET", "/dup", synth(Some(202), Some(jobj(vec![("which", jstr("second"))])))),
    ];
    let (status, v) = reply_json(&plan(&exps, "GET", "/dup"));
    assert_eq!(status, 201);
    assert_eq!(v["which"], "first");
}

#[test]
fn test_no_match_yields_diagnostic() {
    let exps = vec![exp(1, "GET", "/known", synth(Some(200), None))];
    let headers: Vec<(Vec<u8>, Vec<u8>)> = Vec::new();
    let req_body = Some(jobj(vec![("k", jstr("v"))]));
    let (p, log) = plan_request(
        &exps,
        b"POST",
        b"/unknown",
        b"/unknown",
        &headers,
        &req_body,
        0,
        b"2024-01-01T00:00:00Z",
    );
    match p {
        Plan::NotFound { status, body } => {
            assert_eq!(status, 404);
            let v: serde_json::Value =
                serde_json::from_slice(&json_to_text(&body)).expect("valid JSON");
            assert_eq!(v["error"], "No matching response found");
            assert_eq!(v["request"]["method"], "POST");
            assert_eq!(v["request"]["path"], "/unknown");
            assert_eq!(v["request"]["body"]["k"], "v");
        },
        _ => panic!("expected not-found"),
    }
    assert!(!log.matched);
    assert_eq!(log.expectation_id, None);
    assert_eq!(log.method, b"POST".to_vec());
}
