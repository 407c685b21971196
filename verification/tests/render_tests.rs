use mimicrab::controlplane::{build_configmap_patch, configmap_mocks};
use mimicrab::dispatch::{plan_request, Plan};
use mimicrab::json::{json_to_text, Json};
use mimicrab::models::{
    Expectation, JitterConfig, MockResponse, ProxyConfig, RequestCondition, ResponseConfig,
};
use mimicrab::render::{
    choose_encoding, effective_status, jitter_roll, not_modified, proxy_target, script_response,
    sse_frame, upstream_response, Encoding, Payload, ScriptBody, ScriptOutcome, UpstreamOutcome,
};

fn b(x: &str) -> Vec<u8> {
    x.as_bytes().to_vec()
}

fn jstr(x: &str) -> Json {
    Json::Str(b(x))
}

fn jobj(pairs: Vec<(&str, Json)>) -> Json {
    Json::Obj(pairs.into_iter().map(|(k, v)| (b(k), v)).collect())
}

fn cond(method: &str, path: &str) -> RequestCondition {
    RequestCondition { method: Some(b(method)), path: Some(b(path)), headers: None, body: None }
}

fn config(status: Option<u16>, body: Option<Json>, latency: Option<u64>) -> ResponseConfig {
    ResponseConfig { status_code: status, headers: None, body, body_type: None, latency }
}

fn plan_with(
    exps: &Vec<Expectation>,
    method: &str,
    path: &str,
    headers: &Vec<(Vec<u8>, Vec<u8>)>,
    roll: u32,
) -> Plan {
    let (p, _log) = plan_request(
        exps,
        method.as_bytes(),
        path.as_bytes(),
        path.as_bytes(),
        headers,
        &None,
        roll,
        b"2024-01-01T00:00:00Z",
    );
    p
}

#[test]
fn test_mock_latency() {
    let exps = vec![Expectation {
        id: 777123,
        condition: cond("GET", "/latency-test"),
        response: MockResponse {
            response: config(Some(200), Some(jobj(vec![("delayed", Json::Bool(true))])), Some(500)),
            jitter: None,
            proxy: None,
            script: None,
        },
    }];
    let headers: Vec<(Vec<u8>, Vec<u8>)> = Vec::new();
    match plan_with(&exps, "GET", "/latency-test", &headers, 0) {
        Plan::Reply { pre_delay_ms, jitter_delay_ms, response, .. } => {
            assert_eq!(pre_delay_ms, 500);
            assert_eq!(jitter_delay_ms, 0);
            assert_eq!(response.status, 200);
        },
        _ => panic!("expected a reply"),
    }
}

#[test]
fn test_mock_jitter() {
    let exps = |ppm: u32| {
        vec![Expectation {
            id: 555123,
            condition: cond("GET", "/jitter-test"),
            response: MockResponse {
                response: config(Some(200), Some(jobj(vec![("ok", Json::Bool(true))])), None),
                jitter: Some(JitterConfig {
                    probability_ppm: ppm,
                    response: config(
                        Some(503),
                        Some(jobj(vec![("error", jstr("service unavailable"))])),
                        None,
                    ),
                }),
                proxy: None,
                script: None,
            },
        }]
    };
    let headers: Vec<(Vec<u8>, Vec<u8>)> = Vec::new();

    // Probability 1.0 always fires, whatever the roll.
    for _ in 0..8 {
        let roll = jitter_roll();
        match plan_with(&exps(1_000_000), "GET", "/jitter-test", &headers, roll) {
            Plan::Reply { response, .. } => {
                assert_eq!(response.status, 503);
                match response.payload {
                    Payload::Bytes(bytes) => {
                        let v: serde_json::Value = serde_json::from_slice(&bytes).unwrap();
                        assert_eq!(v["error"], "service unavailable");
                    },
                    _ => panic!("expected JSON bytes"),
                }
            },
            _ => panic!("expected a reply"),
        }
    }

    // Probability 0.0 never fires.
    for _ in 0..8 {
        let roll = jitter_roll();
        match plan_with(&exps(0), "GET", "/jitter-test", &headers, roll) {
            Plan::Reply { response, .. } => {
                assert_eq!(response.status, 200);
            },
            _ => panic!("expected a reply"),
        }
    }
}

#[test]
fn test_mock_proxy() {
    let exps = vec![Expectation {
        id: 1,
        condition: cond("GET", "/proxy-test"),
        response: MockResponse {
            response: config(None, None, None),
            jitter: None,
            proxy: Some(ProxyConfig {
                url: b("http://localhost:3001/"),
                headers: Some(vec![
                    (b("X-Proxy-Overridden"), b("true")),
                    (b("User-Agent"), b("mimicrab-test")),
                ]),
            }),
            script: None,
        },
    }];
    let headers = vec![(b("user-agent"), b("original-agent")), (b("x-other"), b("kept"))];
    match plan_with(&exps, "GET", "/proxy-test", &headers, 0) {
        Plan::Forward { target, headers, .. } => {
            assert_eq!(target, b("http://localhost:3001/proxy-test"));
            // The override replaced the inbound user agent.
            let ua: Vec<&Vec<u8>> = headers
                .iter()
                .filter(|(k, _)| k.eq_ignore_ascii_case(b"user-agent"))
                .map(|(_, v)| v)
                .collect();
            assert_eq!(ua, vec![&b("mimicrab-test")]);
            assert!(headers.iter().any(|(k, v)| k == &b("X-Proxy-Overridden") && v == &b("true")));
            assert!(headers.iter().any(|(k, v)| k == &b("x-other") && v == &b("kept")));
        },
        _ => panic!("expected a forward"),
    }

    // Relaying the upstream outcome.
    let (status, hs, body) = upstream_response(UpstreamOutcome::Succeeded {
        status: 200,
        headers: vec![(b("content-type"), b("application/json"))],
        body: b("{\"from\":\"upstream\"}"),
    });
    assert_eq!(status, 200);
    assert_eq!(hs.len(), 1);
    let v: serde_json::Value = serde_json::from_slice(&body).unwrap();
    assert_eq!(v["from"], "upstream");

    // The upstream status is relayed verbatim, not rewritten — even one
    // outside the range an expectation could configure.
    let (status, _, body) = upstream_response(UpstreamOutcome::Succeeded {
        status: 799,
        headers: Vec::new(),
        body: b("odd"),
    });
    assert_eq!(status, 799);
    assert_eq!(body, b("odd"));

    let (status, _, body) = upstream_response(UpstreamOutcome::SendFailed(b("refused")));
    assert_eq!(status, 502);
    assert_eq!(body, b("Proxy request failed: refused"));

    let (status, _, body) = upstream_response(UpstreamOutcome::BodyReadFailed);
    assert_eq!(status, 502);
    assert_eq!(body, b("Failed to read upstream response body"));
}

#[test]
fn test_proxy_target_trims_slashes() {
    assert_eq!(proxy_target(b"http://u:9//", b"/p?q=1"), b("http://u:9/p?q=1"));
    assert_eq!(proxy_target(b"http://u", b"/p"), b("http://u/p"));
}

#[test]
fn test_mock_with_lua_script() {
    // The plan hands the script out for the collaborator to run.
    let exps = vec![Expectation {
        id: 9,
        condition: cond("POST", "/lua-test"),
        response: MockResponse {
            response: config(None, None, None),
            jitter: None,
            proxy: None,
            script: Some(b("return { status = 201 }")),
        },
    }];
    let headers: Vec<(Vec<u8>, Vec<u8>)> = Vec::new();
    match plan_with(&exps, "POST", "/lua-test", &headers, 0) {
        Plan::RunScript { expectation_id, script } => {
            assert_eq!(expectation_id, 9);
            assert_eq!(script, b("return { status = 201 }"));
        },
        _ => panic!("expected a script plan"),
    }

    // A returned table becomes status, headers and body.
    let (status, hs, body) = script_response(ScriptOutcome::Returned {
        status: Some(201),
        headers: vec![(b("X-Lua-Generated"), b("true"))],
        body: ScriptBody::Table(jobj(vec![
            ("received_method", jstr("POST")),
            ("received_path", jstr("/lua-test")),
            ("received_header", jstr("lua-val")),
            ("received_body", jobj(vec![("input", jstr("data"))])),
        ])),
    });
    assert_eq!(status, 201);
    assert!(hs.iter().any(|(k, v)| k == &b("X-Lua-Generated") && v == &b("true")));
    let v: serde_json::Value = serde_json::from_slice(&body).unwrap();
    assert_eq!(v["received_method"], "POST");
    assert_eq!(v["received_path"], "/lua-test");
    assert_eq!(v["received_header"], "lua-val");
    assert_eq!(v["received_body"]["input"], "data");

    // A missing status defaults to 200; a raw string body passes through.
    let (status, _, body) = script_response(ScriptOutcome::Returned {
        status: None,
        headers: Vec::new(),
        body: ScriptBody::Raw(b("plain")),
    });
    assert_eq!(status, 200);
    assert_eq!(body, b("plain"));

    // A non-table result is a 500 with the fixed message.
    let (status, _, body) = script_response(ScriptOutcome::NotTable);
    assert_eq!(status, 500);
    assert_eq!(body, b("Script must return a table"));

    // A script error is a 500 with the error text.
    let (status, _, body) = script_response(ScriptOutcome::Failed(b("attempt to index nil")));
    assert_eq!(status, 500);
    assert_eq!(body, b("attempt to index nil"));
}

#[test]
fn test_static_asset_caching_and_compression() {
    // ETag match yields a 304 decision.
    let etag = b("\"abc123\"");
    assert!(not_modified(&Some(etag.clone()), &etag));
    assert!(!not_modified(&Some(b("\"other\"")), &etag));
    assert!(!not_modified(&None, &etag));

    // Compression negotiation: brotli preferred, then gzip, else identity.
    assert_eq!(choose_encoding(b"gzip, br", true, true), Encoding::Brotli);
    assert_eq!(choose_encoding(b"gzip, br", false, true), Encoding::Gzip);
    assert_eq!(choose_encoding(b"gzip", true, true), Encoding::Gzip);
    assert_eq!(choose_encoding(b"identity", true, true), Encoding::Identity);
    assert_eq!(choose_encoding(b"br", true, false), Encoding::Brotli);
    assert_eq!(choose_encoding(b"", true, true), Encoding::Identity);
}

#[test]
fn test_status_clamping() {
    assert_eq!(effective_status(None, 200), 200);
    assert_eq!(effective_status(Some(503), 200), 503);
    assert_eq!(effective_status(Some(100), 200), 100);
    assert_eq!(effective_status(Some(599), 200), 599);
    assert_eq!(effective_status(Some(99), 200), 200);
    assert_eq!(effective_status(Some(600), 200), 200);
    assert_eq!(effective_status(Some(0), 500), 500);
}

#[test]
fn test_bson_negotiation() {
    let bson_headers = vec![(b("Accept"), b("application/bson"))];
    let exps = |body: Json| {
        vec![Expectation {
            id: 1,
            condition: cond("GET", "/b"),
            response: MockResponse {
                response: config(Some(200), Some(body), None),
                jitter: None,
                proxy: None,
                script: None,
            },
        }]
    };

    // An object body becomes a BSON document.
    match plan_with(&exps(jobj(vec![("a", Json::Int(1))])), "GET", "/b", &bson_headers, 0) {
        Plan::Reply { response, .. } => {
            assert!(matches!(response.payload, Payload::BsonDoc(Json::Obj(_))));
            assert!(response.headers.iter().any(|(k, v)| {
                k == &b("content-type") && v == &b("application/bson")
            }));
        },
        _ => panic!("expected a reply"),
    }

    // A top-level array is wrapped as {"data": [...]}.
    match plan_with(&exps(Json::Arr(vec![Json::Int(1)])), "GET", "/b", &bson_headers, 0) {
        Plan::Reply { response, .. } => match response.payload {
            Payload::BsonDoc(doc) => {
                let v: serde_json::Value = serde_json::from_slice(&json_to_text(&doc)).unwrap();
                assert_eq!(v["data"][0], 1);
            },
            _ => panic!("expected a BSON document"),
        },
        _ => panic!("expected a reply"),
    }

    // A scalar falls back to JSON.
    match plan_with(&exps(Json::Int(7)), "GET", "/b", &bson_headers, 0) {
        Plan::Reply { response, .. } => {
            assert!(matches!(response.payload, Payload::Bytes(_)));
            assert!(response.headers.iter().any(|(k, v)| {
                k == &b("content-type") && v == &b("application/json")
            }));
        },
        _ => panic!("expected a reply"),
    }
}

#[test]
fn test_text_body_type() {
    let exps = |body: Json| {
        vec![Expectation {
            id: 1,
            condition: cond("GET", "/t"),
            response: MockResponse {
                response: ResponseConfig {
                    status_code: Some(200),
                    headers: None,
                    body: Some(body),
                    body_type: Some(b("text")),
                    latency: None,
                },
                jitter: None,
                proxy: None,
                script: None,
            },
        }]
    };
    let headers: Vec<(Vec<u8>, Vec<u8>)> = Vec::new();

    // A string body is sent raw, with text/plain.
    match plan_with(&exps(jstr("hello there")), "GET", "/t", &headers, 0) {
        Plan::Reply { response, .. } => {
            match response.payload {
                Payload::Bytes(bytes) => assert_eq!(bytes, b("hello there")),
                _ => panic!("expected bytes"),
            }
            assert!(response.headers.iter().any(|(k, v)| {
                k == &b("content-type") && v == &b("text/plain")
            }));
        },
        _ => panic!("expected a reply"),
    }

    // A non-string body is sent as its JSON text.
    match plan_with(&exps(jobj(vec![("a", Json::Int(1))])), "GET", "/t", &headers, 0) {
        Plan::Reply { response, .. } => match response.payload {
            Payload::Bytes(bytes) => assert_eq!(bytes, b("{\"a\":1}")),
            _ => panic!("expected bytes"),
        },
        _ => panic!("expected a reply"),
    }
}

#[test]
fn test_json_serializer_agrees_with_parser() {
    let value = jobj(vec![
        ("s", jstr("quote \" backslash \\ newline \n tab \t")),
        ("n", Json::Int(-9007199254740993)),
        ("b", Json::Bool(true)),
        ("z", Json::Null),
        ("arr", Json::Arr(vec![Json::Int(0), jstr(""), Json::Bool(false)])),
        ("deep", jobj(vec![("k", Json::Arr(vec![jobj(vec![("x", Json::Int(1))])]))])),
    ]);
    let text = json_to_text(&value);
    let parsed: serde_json::Value = serde_json::from_slice(&text).expect("serializer emits JSON");
    assert_eq!(parsed["s"], "quote \" backslash \\ newline \n tab \t");
    assert_eq!(parsed["n"], -9007199254740993i64);
    assert_eq!(parsed["b"], true);
    assert!(parsed["z"].is_null());
    assert_eq!(parsed["arr"][0], 0);
    assert_eq!(parsed["arr"][1], "");
    assert_eq!(parsed["arr"][2], false);
    assert_eq!(parsed["deep"]["k"][0]["x"], 1);

    // Control bytes take the \u00XX form, as serde_json writes them.
    let text = json_to_text(&Json::Str(vec![0x01, 0x1f]));
    assert_eq!(text, b("\"\\u0001\\u001f\""));
    let roundtrip = serde_json::to_vec(&serde_json::from_slice::<serde_json::Value>(&text).unwrap())
        .unwrap();
    assert_eq!(roundtrip, text);
}

#[test]
fn test_sse_frame_format() {
    assert_eq!(sse_frame(b"{\"x\":1}"), b("data: {\"x\":1}\n\n"));
}

#[test]
fn test_configmap_helpers() {
    let data = vec![
        (b("other.txt"), b("nope")),
        (b("mocks.json"), b("[{\"id\":1}]")),
    ];
    assert_eq!(configmap_mocks(&data), Some(&b("[{\"id\":1}]")));
    let empty: Vec<(Vec<u8>, Vec<u8>)> = Vec::new();
    assert_eq!(configmap_mocks(&empty), None);

    let patch = build_configmap_patch(b"[]");
    let v: serde_json::Value = serde_json::from_slice(&json_to_text(&patch)).unwrap();
    assert_eq!(v["data"]["mocks.json"], "[]");
}
