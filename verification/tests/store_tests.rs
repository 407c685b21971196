use mimicrab::dispatch::{plan_request, Plan};
use mimicrab::json::Json;
use mimicrab::models::{Expectation, MockRequest, MockResponse, RequestCondition, ResponseConfig};
use mimicrab::render::Payload;
use mimicrab::store::ExpectationStore;

fn b(x: &str) -> Vec<u8> {
    x.as_bytes().to_vec()
}

fn jstr(x: &str) -> Json {
    Json::Str(b(x))
}

fn jobj(pairs: Vec<(&str, Json)>) -> Json {
    Json::Obj(pairs.into_iter().map(|(k, v)| (b(k), v)).collect())
}

fn cond(method: &str, path: &str) -> RequestCondition {
    RequestCondition { method: Some(b(method)), path: Some(b(path)), headers: None, body: None }
}

fn synth(status: Option<u16>, body: Option<Json>) -> MockResponse {
    MockResponse {
        response: ResponseConfig {
            status_code: status,
            headers: None,
            body,
            body_type: None,
            latency: None,
        },
        jitter: None,
        proxy: None,
        script: None,
    }
}

fn dispatch(store: &ExpectationStore, method: &str, path: &str) -> (Plan, Option<u64>) {
    let headers: Vec<(Vec<u8>, Vec<u8>)> = Vec::new();
    let (p, log) = plan_request(
        store.snapshot(),
        method.as_bytes(),
        path.as_bytes(),
        path.as_bytes(),
        &headers,
        &None,
        0,
        b"2024-01-01T00:00:00Z",
    );
    (p, log.expectation_id)
}

fn reply_status_body(p: &Plan) -> (u16, serde_json::Value) {
    match p {
        Plan::Reply { response, .. } => match &response.payload {
            Payload::Bytes(bytes) => (
                response.status,
                serde_json::from_slice(bytes).expect("valid JSON"),
            ),
            _ => panic!("expected JSON bytes"),
        },
        _ => panic!("expected a reply"),
    }
}

#[test]
fn test_full_mock_lifecycle() {
    let mut store = ExpectationStore::new();
    assert_eq!(store.len(), 0);

    // Add a mock under an explicit id.
    let id = store.add(MockRequest {
        id: Some(999123),
        condition: cond("GET", "/test-integration"),
        response: synth(Some(201), Some(jobj(vec![("result", jstr("ok"))]))),
    });
    assert_eq!(id, 999123);

    // It answers.
    let (p, matched_id) = dispatch(&store, "GET", "/test-integration");
    let (status, v) = reply_status_body(&p);
    assert_eq!(status, 201);
    assert_eq!(v["result"], "ok");
    assert_eq!(matched_id, Some(999123));

    // Update it.
    let found = store.update(
        999123,
        Expectation {
            id: 999123,
            condition: cond("GET", "/test-integration"),
            response: synth(Some(200), Some(jobj(vec![("result", jstr("updated"))]))),
        },
    );
    assert!(found);
    let (p, _) = dispatch(&store, "GET", "/test-integration");
    let (status, v) = reply_status_body(&p);
    assert_eq!(status, 200);
    assert_eq!(v["result"], "updated");

    // Export sees it.
    assert!(store.export().iter().any(|m| m.id == 999123));

    // Delete it; the route stops answering.
    assert!(store.delete(999123));
    let (p, _) = dispatch(&store, "GET", "/test-integration");
    assert!(matches!(p, Plan::NotFound { .. }));
}

#[test]
fn test_import_mocks() {
    let mut store = ExpectationStore::new();
    store.replace(vec![
        Expectation {
            id: 8881,
            condition: cond("GET", "/import-1"),
            response: synth(Some(200), Some(jobj(vec![("from", jstr("import"))]))),
        },
        Expectation {
            id: 8882,
            condition: cond("POST", "/import-2"),
            response: synth(Some(201), Some(jobj(vec![("msg", jstr("created"))]))),
        },
    ]);
    assert_eq!(store.len(), 2);

    let (p, _) = dispatch(&store, "GET", "/import-1");
    let (status, v) = reply_status_body(&p);
    assert_eq!(status, 200);
    assert_eq!(v["from"], "import");

    let (p, _) = dispatch(&store, "POST", "/import-2");
    let (status, v) = reply_status_body(&p);
    assert_eq!(status, 201);
    assert_eq!(v["msg"], "created");
}

#[test]
fn test_export_import_roundtrip() {
    let mut store = ExpectationStore::new();
    store.add(MockRequest {
        id: Some(1),
        condition: cond("GET", "/a"),
        response: synth(Some(200), Some(jobj(vec![("x", Json::Int(1))]))),
    });
    store.add(MockRequest {
        id: Some(2),
        condition: cond("POST", "/b"),
        response: synth(None, None),
    });

    // Re-import exactly what export hands out: nothing changes.
    let before: Vec<(u64, Option<Vec<u8>>)> = store
        .export()
        .iter()
        .map(|e| (e.id, e.condition.path.clone()))
        .collect();
    let copy: Vec<Expectation> = store
        .export()
        .iter()
        .map(|e| Expectation {
            id: e.id,
            condition: RequestCondition {
                method: e.condition.method.clone(),
                path: e.condition.path.clone(),
                headers: e.condition.headers.clone(),
                body: e.condition.body.as_ref().map(mimicrab::json::json_clone),
            },
            response: MockResponse {
                response: ResponseConfig {
                    status_code: e.response.response.status_code,
                    headers: e.response.response.headers.clone(),
                    body: e.response.response.body.as_ref().map(mimicrab::json::json_clone),
                    body_type: e.response.response.body_type.clone(),
                    latency: e.response.response.latency,
                },
                jitter: None,
                proxy: None,
                script: e.response.script.clone(),
            },
        })
        .collect();
    store.replace(copy);
    let after: Vec<(u64, Option<Vec<u8>>)> = store
        .export()
        .iter()
        .map(|e| (e.id, e.condition.path.clone()))
        .collect();
    assert_eq!(before, after);
    assert_eq!(store.len(), 2);
}

#[test]
fn test_add_assigns_next_id() {
    let mut store = ExpectationStore::new();
    let id1 = store.add(MockRequest {
        id: None,
        condition: cond("GET", "/one"),
        response: synth(None, None),
    });
    assert_eq!(id1, 1);
    let id2 = store.add(MockRequest {
        id: Some(40),
        condition: cond("GET", "/forty"),
        response: synth(None, None),
    });
    assert_eq!(id2, 40);
    let id3 = store.add(MockRequest {
        id: None,
        condition: cond("GET", "/next"),
        response: synth(None, None),
    });
    assert_eq!(id3, 41);
}

#[test]
fn test_update_delete_unknown_id() {
    let mut store = ExpectationStore::new();
    store.add(MockRequest { id: Some(7), condition: cond("GET", "/x"), response: synth(None, None) });
    assert!(!store.update(
        8,
        Expectation { id: 8, condition: cond("GET", "/y"), response: synth(None, None) },
    ));
    assert!(!store.delete(8));
    assert_eq!(store.len(), 1);
    assert_eq!(store.snapshot()[0].id, 7);
}

#[test]
fn test_insertion_order_is_kept() {
    let mut store = ExpectationStore::new();
    for (id, path) in [(3u64, "/c"), (1, "/a"), (2, "/b")] {
        store.add(MockRequest { id: Some(id), condition: cond("GET", path), response: synth(None, None) });
    }
    let ids: Vec<u64> = store.snapshot().iter().map(|e| e.id).collect();
    assert_eq!(ids, vec![3, 1, 2]);
}
