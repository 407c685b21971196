//! Request dispatch: select the first expectation whose condition accepts
//! the request and decide the response plan — a script to run, an
//! upstream call to make, a synthesized reply with its delays, or the
//! not-found diagnostic. The embedding program performs the plan's
//! sleeps, script execution and network calls; every decision is made
//! here.

use vstd::prelude::*;

use crate::json::{json_clone, json_view, Json, JsonV};
use crate::matcher::{condition_matches, header_get, lookup_header};
use crate::models::{
    exps_view, opt_json_view, pairs_view, Expectation, ExpectationV, LogEntry, ResponseConfigV,
};
use crate::render::{
    app_bson_text, copy_pairs, jitter_fires, opt_headers, overlay_headers, proxy_target,
    render_response, spec_overlay, spec_proxy_target, spec_render, SynthResponse, SynthV,
};
use crate::text::{contains_bytes, contains_seq, split_nonempty, split_nonempty_bytes};

verus! {

/// Index of the first expectation whose condition accepts the request,
/// or the sequence's length when none does.
pub open spec fn match_index(
    items: Seq<ExpectationV>,
    method: Seq<u8>,
    path: Seq<u8>,
    headers: Seq<(Seq<u8>, Seq<u8>)>,
    body: Option<JsonV>,
) -> int
    decreases items.len(),
{
    if items.len() == 0 {
        0
    } else if condition_matches(method, path, headers, body, items[0].condition) {
        0
    } else {
        1 + match_index(items.drop_first(), method, path, headers, body)
    }
}

/// First-match selection: the chosen index is in range exactly when some
/// condition accepts; it accepts the request, and no earlier one does.
pub proof fn lemma_match_index(
    items: Seq<ExpectationV>,
    method: Seq<u8>,
    path: Seq<u8>,
    headers: Seq<(Seq<u8>, Seq<u8>)>,
    body: Option<JsonV>,
)
    ensures
        0 <= match_index(items, method, path, headers, body) <= items.len(),
        match_index(items, method, path, headers, body) < items.len() ==> condition_matches(
            method,
            path,
            headers,
            body,
            items[match_index(items, method, path, headers, body)].condition,
        ),
        forall|j: int|
            0 <= j < match_index(items, method, path, headers, body) ==> !condition_matches(
                method,
                path,
                headers,
                body,
                items[j].condition,
            ),
    decreases items.len(),
{
    if items.len() > 0 && !condition_matches(method, path, headers, body, items[0].condition) {
        lemma_match_index(items.drop_first(), method, path, headers, body);
        assert forall|j: int|
            0 <= j < match_index(items, method, path, headers, body) implies !condition_matches(
            method,
            path,
            headers,
            body,
            items[j].condition,
        ) by {
            if j > 0 {
                assert(items.drop_first()[j - 1] == items[j]);
            }
        }
    }
}

pub open spec fn accept_name() -> Seq<u8> {
    seq![65u8, 99u8, 99u8, 101u8, 112u8, 116u8]
}

/// The client asked for BSON: its first `Accept` header mentions
/// `application/bson`.
pub open spec fn accepts_bson(headers: Seq<(Seq<u8>, Seq<u8>)>) -> bool {
    match header_get(headers, accept_name()) {
        Option::Some(v) => contains_seq(v, app_bson_text()),
        Option::None => false,
    }
}

pub open spec fn error_key() -> Seq<u8> {
    seq![101u8, 114u8, 114u8, 111u8, 114u8]
}

pub open spec fn no_match_text() -> Seq<u8> {
    seq![
        78u8, 111u8, 32u8, 109u8, 97u8, 116u8, 99u8, 104u8, 105u8, 110u8, 103u8, 32u8, 114u8,
        101u8, 115u8, 112u8, 111u8, 110u8, 115u8, 101u8, 32u8, 102u8, 111u8, 117u8, 110u8, 100u8,
    ]
}

pub open spec fn request_key() -> Seq<u8> {
    seq![114u8, 101u8, 113u8, 117u8, 101u8, 115u8, 116u8]
}

pub open spec fn method_key() -> Seq<u8> {
    seq![109u8, 101u8, 116u8, 104u8, 111u8, 100u8]
}

pub open spec fn path_key() -> Seq<u8> {
    seq![112u8, 97u8, 116u8, 104u8]
}

pub open spec fn body_key() -> Seq<u8> {
    seq![98u8, 111u8, 100u8, 121u8]
}

/// The diagnostic envelope a request that matches nothing is answered
/// with: the error text and an echo of method, path and parsed body.
pub open spec fn not_found_body(method: Seq<u8>, path: Seq<u8>, body: Option<JsonV>) -> JsonV {
    JsonV::Obj(
        seq![
            (error_key(), JsonV::Str(no_match_text())),
            (
                request_key(),
                JsonV::Obj(
                    seq![
                        (method_key(), JsonV::Str(method)),
                        (path_key(), JsonV::Str(path)),
                        (
                            body_key(),
                            match body {
                                Option::Some(b) => b,
                                Option::None => JsonV::Null,
                            },
                        ),
                    ],
                ),
            ),
        ],
    )
}

/// The latency a response configuration asks for, in milliseconds.
pub open spec fn latency_of(cfg: ResponseConfigV) -> u64 {
    match cfg.latency {
        Option::Some(l) => l,
        Option::None => 0,
    }
}

/// The decided handling of one request.
pub enum Plan {
    /// Nothing matched: reply with the not-found status and the
    /// diagnostic body.
    NotFound { status: u16, body: Json },
    /// Run the matched expectation's script and reply with its outcome.
    RunScript { expectation_id: u64, script: Vec<u8> },
    /// Forward the request to this target with these headers; relay the
    /// upstream outcome.
    Forward { expectation_id: u64, target: Vec<u8>, headers: Vec<(Vec<u8>, Vec<u8>)> },
    /// Sleep the delays in order, then send the rendered response.
    Reply { expectation_id: u64, pre_delay_ms: u64, jitter_delay_ms: u64, response: SynthResponse },
}

pub enum PlanV {
    NotFound { status: u16, body: JsonV },
    RunScript { expectation_id: u64, script: Seq<u8> },
    Forward { expectation_id: u64, target: Seq<u8>, headers: Seq<(Seq<u8>, Seq<u8>)> },
    Reply { expectation_id: u64, pre_delay_ms: u64, jitter_delay_ms: u64, response: SynthV },
}

impl View for Plan {
    type V = PlanV;

    open spec fn view(&self) -> PlanV {
        match self {
            Plan::NotFound { status, body } => PlanV::NotFound {
                status: *status,
                body: json_view(*body),
            },
            Plan::RunScript { expectation_id, script } => PlanV::RunScript {
                expectation_id: *expectation_id,
                script: script@,
            },
            Plan::Forward { expectation_id, target, headers } => PlanV::Forward {
                expectation_id: *expectation_id,
                target: target@,
                headers: pairs_view(headers@),
            },
            Plan::Reply { expectation_id, pre_delay_ms, jitter_delay_ms, response } => PlanV::Reply {
                expectation_id: *expectation_id,
                pre_delay_ms: *pre_delay_ms,
                jitter_delay_ms: *jitter_delay_ms,
                response: response@,
            },
        }
    }
}

/// The plan a request is answered with. Selection is first-match in list
/// order; a matched expectation's script outranks its proxy, which
/// outranks the synthesized response. The synthesized path sleeps the
/// main latency, then — when the jitter roll lies below the configured
/// probability — renders the jitter response (default status 500) after
/// its own latency, else renders the primary response (default 200).
pub open spec fn spec_plan(
    items: Seq<ExpectationV>,
    method: Seq<u8>,
    path: Seq<u8>,
    path_and_query: Seq<u8>,
    headers: Seq<(Seq<u8>, Seq<u8>)>,
    body: Option<JsonV>,
    roll_ppm: u32,
) -> PlanV {
    let idx = match_index(items, method, path, headers, body);
    if idx == items.len() {
        PlanV::NotFound { status: 404, body: not_found_body(method, path, body) }
    } else {
        let e = items[idx];
        match e.response.script {
            Option::Some(src) => PlanV::RunScript { expectation_id: e.id, script: src },
            Option::None => match e.response.proxy {
                Option::Some(pxy) => PlanV::Forward {
                    expectation_id: e.id,
                    target: spec_proxy_target(pxy.url, path_and_query),
                    headers: spec_overlay(headers, opt_headers(pxy.headers)),
                },
                Option::None => {
                    let segs = split_nonempty(path, 47);
                    let ab = accepts_bson(headers);
                    let pre = latency_of(e.response.response);
                    match e.response.jitter {
                        Option::Some(j) => {
                            if jitter_fires(roll_ppm, j.probability_ppm) {
                                PlanV::Reply {
                                    expectation_id: e.id,
                                    pre_delay_ms: pre,
                                    jitter_delay_ms: latency_of(j.response),
                                    response: spec_render(j.response, 500, segs, body, ab),
                                }
                            } else {
                                PlanV::Reply {
                                    expectation_id: e.id,
                                    pre_delay_ms: pre,
                                    jitter_delay_ms: 0,
                                    response: spec_render(e.response.response, 200, segs, body, ab),
                                }
                            }
                        },
                        Option::None => PlanV::Reply {
                            expectation_id: e.id,
                            pre_delay_ms: pre,
                            jitter_delay_ms: 0,
                            response: spec_render(e.response.response, 200, segs, body, ab),
                        },
                    }
                },
            },
        }
    }
}

/// Finds the first expectation that accepts the request.
pub fn find_match(
    expectations: &Vec<Expectation>,
    method: &[u8],
    path: &[u8],
    headers: &Vec<(Vec<u8>, Vec<u8>)>,
    body: &Option<Json>,
) -> (r: Option<usize>)
    ensures
        ({
            let items = exps_view(expectations@);
            let idx = match_index(items, method@, path@, pairs_view(headers@), opt_json_view(*body));
            match r {
                Option::Some(i) => i == idx && idx < items.len(),
                Option::None => idx == items.len(),
            }
        }),
{
    let ghost items = exps_view(expectations@);
    let ghost m = method@;
    let ghost p = path@;
    let ghost hs = pairs_view(headers@);
    let ghost b = opt_json_view(*body);
    proof {
        lemma_match_index(items, m, p, hs, b);
    }
    let mut i: usize = 0;
    while i < expectations.len()
        invariant
            i <= expectations@.len(),
            items == exps_view(expectations@),
            items.len() == expectations@.len(),
            forall|j: int| 0 <= j < items.len() ==> items[j] == #[trigger] expectations@[j]@,
            forall|j: int| 0 <= j < i ==> !condition_matches(m, p, hs, b, items[j].condition),
        decreases expectations@.len() - i,
    {
        if crate::matcher::matches(method, path, headers, body, &expectations[i].condition) {
            assert(items[i as int].condition == expectations@[i as int].condition@);
            return Some(i);
        }
        i = i + 1;
    }
    None
}

/// Builds the 404 diagnostic body.
fn build_not_found(method: &[u8], path: &[u8], body: &Option<Json>) -> (r: Json)
    ensures
        r@ == not_found_body(method@, path@, opt_json_view(*body)),
{
    let ek: [u8; 5] = [101, 114, 114, 111, 114];
    let nm: [u8; 26] = [
        78, 111, 32, 109, 97, 116, 99, 104, 105, 110, 103, 32, 114, 101, 115, 112, 111, 110, 115,
        101, 32, 102, 111, 117, 110, 100,
    ];
    let rk: [u8; 7] = [114, 101, 113, 117, 101, 115, 116];
    let mk: [u8; 6] = [109, 101, 116, 104, 111, 100];
    let pk: [u8; 4] = [112, 97, 116, 104];
    let bk: [u8; 4] = [98, 111, 100, 121];
    proof {
        assert(ek@ =~= error_key());
        assert(nm@ =~= no_match_text());
        assert(rk@ =~= request_key());
        assert(mk@ =~= method_key());
        assert(pk@ =~= path_key());
        assert(bk@ =~= body_key());
    }
    let body_echo: Json = match body {
        Option::Some(b) => json_clone(b),
        Option::None => Json::Null,
    };
    let mut inner: Vec<(Vec<u8>, Json)> = Vec::new();
    inner.push((vstd::slice::slice_to_vec(mk.as_slice()), Json::Str(vstd::slice::slice_to_vec(
        method,
    ))));
    inner.push((vstd::slice::slice_to_vec(pk.as_slice()), Json::Str(vstd::slice::slice_to_vec(
        path,
    ))));
    inner.push((vstd::slice::slice_to_vec(bk.as_slice()), body_echo));
    let ghost innerv = crate::json::obj_view(inner@);
    let ghost mm = method@;
    let ghost pp = path@;
    let ghost bv = opt_json_view(*body);
    proof {
        crate::json::lemma_obj_view(inner@);
        assert(innerv =~~= seq![
            (method_key(), JsonV::Str(mm)),
            (path_key(), JsonV::Str(pp)),
            (
                body_key(),
                match bv {
                    Option::Some(b) => b,
                    Option::None => JsonV::Null,
                },
            ),
        ]);
    }
    let mut outer: Vec<(Vec<u8>, Json)> = Vec::new();
    outer.push((vstd::slice::slice_to_vec(ek.as_slice()), Json::Str(vstd::slice::slice_to_vec(
        nm.as_slice(),
    ))));
    outer.push((vstd::slice::slice_to_vec(rk.as_slice()), Json::Obj(inner)));
    proof {
        crate::json::lemma_obj_view(outer@);
        assert(crate::json::obj_view(outer@) =~~= seq![
            (error_key(), JsonV::Str(no_match_text())),
            (request_key(), JsonV::Obj(innerv)),
        ]);
        assert(JsonV::Obj(crate::json::obj_view(outer@)) =~~= not_found_body(mm, pp, bv));
    }
    Json::Obj(outer)
}

/// Whether the request asks for BSON.
fn accepts_bson_exec(headers: &Vec<(Vec<u8>, Vec<u8>)>) -> (r: bool)
    ensures
        r == accepts_bson(pairs_view(headers@)),
{
    let an: [u8; 6] = [65, 99, 99, 101, 112, 116];
    let ab: [u8; 16] = [
        97, 112, 112, 108, 105, 99, 97, 116, 105, 111, 110, 47, 98, 115, 111, 110,
    ];
    proof {
        assert(an@ =~= accept_name());
        assert(ab@ =~= app_bson_text());
    }
    match lookup_header(headers, an.as_slice()) {
        Option::Some(v) => contains_bytes(v.as_slice(), ab.as_slice()),
        Option::None => false,
    }
}

/// Decides how a request is handled, and the log line recording it. The
/// jitter roll is drawn by the caller (see `jitter_roll`); the timestamp
/// is the caller's clock reading.
pub fn plan_request(
    expectations: &Vec<Expectation>,
    method: &[u8],
    path: &[u8],
    path_and_query: &[u8],
    headers: &Vec<(Vec<u8>, Vec<u8>)>,
    body: &Option<Json>,
    roll_ppm: u32,
    timestamp: &[u8],
) -> (r: (Plan, LogEntry))
    ensures
        r.0@ == spec_plan(
            exps_view(expectations@),
            method@,
            path@,
            path_and_query@,
            pairs_view(headers@),
            opt_json_view(*body),
            roll_ppm,
        ),
        r.1.timestamp@ == timestamp@,
        r.1.method@ == method@,
        r.1.path@ == path@,
        opt_json_view(r.1.body) == opt_json_view(*body),
        ({
            let items = exps_view(expectations@);
            let idx = match_index(items, method@, path@, pairs_view(headers@), opt_json_view(*body));
            &&& r.1.matched == (idx < items.len())
            &&& r.1.expectation_id == (if idx < items.len() {
                Option::Some(items[idx].id)
            } else {
                Option::None::<u64>
            })
        }),
{
    let ghost items = exps_view(expectations@);
    let found = find_match(expectations, method, path, headers, body);
    let log = LogEntry {
        timestamp: vstd::slice::slice_to_vec(timestamp),
        method: vstd::slice::slice_to_vec(method),
        path: vstd::slice::slice_to_vec(path),
        body: match body {
            Option::Some(b) => Some(json_clone(b)),
            Option::None => None,
        },
        matched: found.is_some(),
        expectation_id: match found {
            Option::Some(i) => Some(expectations[i].id),
            Option::None => None,
        },
    };
    let plan = match found {
        Option::None => Plan::NotFound {
            status: 404,
            body: build_not_found(method, path, body),
        },
        Option::Some(i) => {
            let e = &expectations[i];
            assert(items[i as int] == expectations@[i as int]@);
            if let Option::Some(src) = &e.response.script {
                Plan::RunScript {
                    expectation_id: e.id,
                    script: vstd::slice::slice_to_vec(src.as_slice()),
                }
            } else if let Option::Some(pxy) = &e.response.proxy {
                let target = proxy_target(pxy.url.as_slice(), path_and_query);
                let base = copy_pairs(headers);
                let fwd_headers = match &pxy.headers {
                    Option::Some(ov) => overlay_headers(base, ov),
                    Option::None => {
                        let empty_ov: Vec<(Vec<u8>, Vec<u8>)> = Vec::new();
                        let r = overlay_headers(base, &empty_ov);
                        proof {
                            assert(pairs_view(empty_ov@) =~= opt_headers(
                                items[i as int].response.proxy->0.headers,
                            ));
                        }
                        r
                    },
                };
                Plan::Forward { expectation_id: e.id, target, headers: fwd_headers }
            } else {
                let segs = split_nonempty_bytes(path, 47);
                let ab = accepts_bson_exec(headers);
                let pre = match e.response.response.latency {
                    Option::Some(l) => l,
                    Option::None => 0,
                };
                match &e.response.jitter {
                    Option::Some(j) => {
                        if roll_ppm < j.probability_ppm {
                            let jd = match j.response.latency {
                                Option::Some(l) => l,
                                Option::None => 0,
                            };
                            let resp = render_response(&j.response, 500, &segs, body, ab);
                            Plan::Reply {
                                expectation_id: e.id,
                                pre_delay_ms: pre,
                                jitter_delay_ms: jd,
                                response: resp,
                            }
                        } else {
                            let resp = render_response(&e.response.response, 200, &segs, body, ab);
                            Plan::Reply {
                                expectation_id: e.id,
                                pre_delay_ms: pre,
                                jitter_delay_ms: 0,
                                response: resp,
                            }
                        }
                    },
                    Option::None => {
                        let resp = render_response(&e.response.response, 200, &segs, body, ab);
                        Plan::Reply {
                            expectation_id: e.id,
                            pre_delay_ms: pre,
                            jitter_delay_ms: 0,
                            response: resp,
                        }
                    },
                }
            }
        },
    };
    (plan, log)
}

/// The status rule of synthesized responses: when the matched expectation
/// has no script and no proxy, and the jitter branch does not fire, the
/// reply's status is the configured `status_code` when it lies in
/// [100, 599], else 200.
pub proof fn lemma_synthesized_status(
    items: Seq<ExpectationV>,
    method: Seq<u8>,
    path: Seq<u8>,
    path_and_query: Seq<u8>,
    headers: Seq<(Seq<u8>, Seq<u8>)>,
    body: Option<JsonV>,
    roll_ppm: u32,
)
    requires
        match_index(items, method, path, headers, body) < items.len(),
        (items[match_index(items, method, path, headers, body)].response.script is None),
        (items[match_index(items, method, path, headers, body)].response.proxy is None),
        (match items[match_index(items, method, path, headers, body)].response.jitter {
            Option::Some(j) => !jitter_fires(roll_ppm, j.probability_ppm),
            Option::None => true,
        }),
    ensures
        ({
            let e = items[match_index(items, method, path, headers, body)];
            let plan = spec_plan(items, method, path, path_and_query, headers, body, roll_ppm);
            &&& plan is Reply
            &&& plan->Reply_response.status == crate::render::spec_status(
                e.response.response.status_code,
                200,
            )
        }),
{
}

/// When no expectation accepts the request, the plan is a 404 reply
/// whose diagnostic body echoes the request.
pub proof fn lemma_no_match_not_found(
    items: Seq<ExpectationV>,
    method: Seq<u8>,
    path: Seq<u8>,
    path_and_query: Seq<u8>,
    headers: Seq<(Seq<u8>, Seq<u8>)>,
    body: Option<JsonV>,
    roll_ppm: u32,
)
    requires
        forall|j: int|
            0 <= j < items.len() ==> !condition_matches(
                method,
                path,
                headers,
                body,
                #[trigger] items[j].condition,
            ),
    ensures
        (spec_plan(items, method, path, path_and_query, headers, body, roll_ppm)
            == PlanV::NotFound { status: 404, body: not_found_body(method, path, body) }),
{
    lemma_match_index(items, method, path, headers, body);
}

} // verus!
