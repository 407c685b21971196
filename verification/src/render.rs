//! The response renderer: status clamping, jitter, content negotiation
//! (JSON, plain text, BSON), the proxy target and header overlay, and the
//! interpretation of script and upstream outcomes.

use vstd::prelude::*;

use crate::json::{json_text, json_to_text, json_view, Json, JsonV};
use crate::matcher::{header_get, lookup_header};
use crate::models::{opt_json_view, pairs_view, ResponseConfig, ResponseConfigV};
use crate::templating::{resolve_template_value, resolve_value};
use crate::text::{append_bytes, bytes_eq, trim_trailing, trim_trailing_bytes, upper_seq};

verus! {

/// The status a response uses: the configured code when it lies in
/// [100, 599], otherwise the fallback (200 normally, 500 for jitter).
pub open spec fn spec_status(code: Option<u16>, fallback: u16) -> u16 {
    match code {
        Option::Some(c) => if 100 <= c <= 599 {
            c
        } else {
            fallback
        },
        Option::None => fallback,
    }
}

/// Clamps a configured status code to its effective value.
pub fn effective_status(code: Option<u16>, fallback: u16) -> (r: u16)
    ensures
        r == spec_status(code, fallback),
{
    match code {
        Option::Some(c) => {
            if 100 <= c && c <= 599 {
                c
            } else {
                fallback
            }
        },
        Option::None => fallback,
    }
}

/// Relies on rand::random: a uniformly distributed 32-bit value. The
/// result depends on the thread's generator, so nothing is promised of it.
#[verifier::external_body]
fn random_u32() -> u32 {
    rand::random()
}

/// Draws the jitter roll: a value in [0, 1_000_000), to be compared
/// against a probability in parts per million. Whatever the generator
/// returned, the roll is in range.
pub fn jitter_roll() -> (r: u32)
    ensures
        r < 1_000_000,
{
    random_u32() % 1_000_000
}

/// The jitter branch fires exactly when the roll lies below the
/// configured probability: a probability of 1_000_000 (that is, 1.0)
/// always fires, 0 never does.
pub open spec fn jitter_fires(roll_ppm: u32, probability_ppm: u32) -> bool {
    roll_ppm < probability_ppm
}

pub open spec fn content_type_name() -> Seq<u8> {
    seq![99u8, 111u8, 110u8, 116u8, 101u8, 110u8, 116u8, 45u8, 116u8, 121u8, 112u8, 101u8]
}

pub open spec fn app_json_text() -> Seq<u8> {
    seq![
        97u8, 112u8, 112u8, 108u8, 105u8, 99u8, 97u8, 116u8, 105u8, 111u8, 110u8, 47u8, 106u8,
        115u8, 111u8, 110u8,
    ]
}

pub open spec fn app_bson_text() -> Seq<u8> {
    seq![
        97u8, 112u8, 112u8, 108u8, 105u8, 99u8, 97u8, 116u8, 105u8, 111u8, 110u8, 47u8, 98u8,
        115u8, 111u8, 110u8,
    ]
}

pub open spec fn text_plain_text() -> Seq<u8> {
    seq![116u8, 101u8, 120u8, 116u8, 47u8, 112u8, 108u8, 97u8, 105u8, 110u8]
}

pub open spec fn text_kind() -> Seq<u8> {
    seq![116u8, 101u8, 120u8, 116u8]
}

pub open spec fn data_key() -> Seq<u8> {
    seq![100u8, 97u8, 116u8, 97u8]
}

/// The configured headers, or none.
pub open spec fn opt_headers(h: Option<Seq<(Seq<u8>, Seq<u8>)>>) -> Seq<(Seq<u8>, Seq<u8>)> {
    match h {
        Option::Some(x) => x,
        Option::None => Seq::empty(),
    }
}

/// Appends a content-type header unless one is already present (the name
/// is matched case-insensitively).
pub open spec fn ensure_content_type(hs: Seq<(Seq<u8>, Seq<u8>)>, v: Seq<u8>) -> Seq<
    (Seq<u8>, Seq<u8>),
> {
    if header_get(hs, content_type_name()) is Some {
        hs
    } else {
        hs.push((content_type_name(), v))
    }
}

fn content_type_vec() -> (r: Vec<u8>)
    ensures
        r@ == content_type_name(),
{
    let a: [u8; 12] = [99, 111, 110, 116, 101, 110, 116, 45, 116, 121, 112, 101];
    let r = vstd::slice::slice_to_vec(a.as_slice());
    proof {
        assert(r@ =~= content_type_name());
    }
    r
}

/// Adds a content-type header to `hs` when none is present yet.
fn with_content_type(hs: Vec<(Vec<u8>, Vec<u8>)>, v: &[u8]) -> (r: Vec<(Vec<u8>, Vec<u8>)>)
    ensures
        pairs_view(r@) == ensure_content_type(pairs_view(hs@), v@),
{
    let name = content_type_vec();
    match lookup_header(&hs, name.as_slice()) {
        Option::Some(_) => hs,
        Option::None => {
            let mut out = hs;
            let ghost hs0 = pairs_view(out@);
            out.push((name, vstd::slice::slice_to_vec(v)));
            proof {
                assert(pairs_view(out@) =~= hs0.push((content_type_name(), v@)));
            }
            out
        },
    }
}

/// Copies a header list.
pub fn copy_pairs(hs: &Vec<(Vec<u8>, Vec<u8>)>) -> (r: Vec<(Vec<u8>, Vec<u8>)>)
    ensures
        pairs_view(r@) == pairs_view(hs@),
{
    let mut out: Vec<(Vec<u8>, Vec<u8>)> = Vec::new();
    let mut i: usize = 0;
    while i < hs.len()
        invariant
            i <= hs@.len(),
            out@.len() == i,
            forall|j: int|
                0 <= j < i ==> out@[j].0@ == hs@[j].0@ && out@[j].1@ == hs@[j].1@,
        decreases hs@.len() - i,
    {
        let (k, v) = &hs[i];
        out.push((vstd::slice::slice_to_vec(k.as_slice()), vstd::slice::slice_to_vec(v.as_slice())));
        i = i + 1;
    }
    proof {
        assert(pairs_view(out@) =~= pairs_view(hs@));
    }
    out
}

/// The rendered body as final bytes, or a document for BSON encoding.
pub enum Payload {
    /// No body was configured.
    Empty,
    /// Final body bytes: serialized JSON, or raw text in text mode.
    Bytes(Vec<u8>),
    /// A document the embedding program encodes as BSON.
    BsonDoc(Json),
}

pub enum PayloadV {
    Empty,
    Bytes(Seq<u8>),
    BsonDoc(JsonV),
}

impl View for Payload {
    type V = PayloadV;

    open spec fn view(&self) -> PayloadV {
        match self {
            Payload::Empty => PayloadV::Empty,
            Payload::Bytes(b) => PayloadV::Bytes(b@),
            Payload::BsonDoc(j) => PayloadV::BsonDoc(json_view(*j)),
        }
    }
}

/// Text a rendered value yields in text mode: a string's raw bytes, the
/// serialized JSON of anything else.
pub open spec fn text_of(v: JsonV) -> Seq<u8> {
    match v {
        JsonV::Str(x) => x,
        _ => json_text(v),
    }
}

/// A fully decided synthesized response.
pub struct SynthResponse {
    pub status: u16,
    pub headers: Vec<(Vec<u8>, Vec<u8>)>,
    pub payload: Payload,
}

pub struct SynthV {
    pub status: u16,
    pub headers: Seq<(Seq<u8>, Seq<u8>)>,
    pub payload: PayloadV,
}

impl View for SynthResponse {
    type V = SynthV;

    open spec fn view(&self) -> SynthV {
        SynthV { status: self.status, headers: pairs_view(self.headers@), payload: self.payload@ }
    }
}

/// What rendering a response configuration yields: the clamped status,
/// the configured headers (with a content type added when none is set),
/// and the templated body. Text mode unwraps strings to raw text; a BSON
/// request turns an object body into a document and wraps a top-level
/// array as `{"data": [...]}`, while any other value falls back to JSON.
pub open spec fn spec_render(
    cfg: ResponseConfigV,
    fallback: u16,
    segs: Seq<Seq<u8>>,
    body: Option<JsonV>,
    accept_bson: bool,
) -> SynthV {
    let status = spec_status(cfg.status_code, fallback);
    let hs = opt_headers(cfg.headers);
    match cfg.body {
        Option::None => SynthV { status, headers: hs, payload: PayloadV::Empty },
        Option::Some(b) => {
            let v = resolve_value(b, segs, body);
            if cfg.body_type == Option::Some(text_kind()) {
                SynthV {
                    status,
                    headers: ensure_content_type(hs, text_plain_text()),
                    payload: PayloadV::Bytes(text_of(v)),
                }
            } else if accept_bson && v is Obj {
                SynthV {
                    status,
                    headers: ensure_content_type(hs, app_bson_text()),
                    payload: PayloadV::BsonDoc(v),
                }
            } else if accept_bson && v is Arr {
                SynthV {
                    status,
                    headers: ensure_content_type(hs, app_bson_text()),
                    payload: PayloadV::BsonDoc(JsonV::Obj(seq![(data_key(), v)])),
                }
            } else {
                SynthV {
                    status,
                    headers: ensure_content_type(hs, app_json_text()),
                    payload: PayloadV::Bytes(json_text(v)),
                }
            }
        },
    }
}

/// Renders a response configuration against the request.
pub fn render_response(
    cfg: &ResponseConfig,
    fallback: u16,
    path_segments: &Vec<Vec<u8>>,
    req_body: &Option<Json>,
    accept_bson: bool,
) -> (r: SynthResponse)
    ensures
        r@ == spec_render(
            cfg@,
            fallback,
            path_segments.deep_view(),
            opt_json_view(*req_body),
            accept_bson,
        ),
{
    let status = effective_status(cfg.status_code, fallback);
    let headers = match &cfg.headers {
        Option::Some(h) => copy_pairs(h),
        Option::None => Vec::new(),
    };
    proof {
        assert(pairs_view(headers@) =~= opt_headers(cfg@.headers));
    }
    match &cfg.body {
        Option::None => SynthResponse { status, headers, payload: Payload::Empty },
        Option::Some(b) => {
            let v = resolve_template_value(b, path_segments, req_body);
            let is_text = match &cfg.body_type {
                Option::Some(bt) => {
                    let t: [u8; 4] = [116, 101, 120, 116];
                    let r = bytes_eq(bt.as_slice(), t.as_slice());
                    proof {
                        assert(t@ =~= text_kind());
                    }
                    r
                },
                Option::None => false,
            };
            if is_text {
                let tp: [u8; 10] = [116, 101, 120, 116, 47, 112, 108, 97, 105, 110];
                proof {
                    assert(tp@ =~= text_plain_text());
                }
                let body_bytes = match v {
                    Json::Str(x) => x,
                    other => json_to_text(&other),
                };
                SynthResponse {
                    status,
                    headers: with_content_type(headers, tp.as_slice()),
                    payload: Payload::Bytes(body_bytes),
                }
            } else {
                let bson_kind: u8 = match &v {
                    Json::Obj(_) => 1,
                    Json::Arr(_) => 2,
                    _ => 0,
                };
                let ab: [u8; 16] = [
                    97,
                    112,
                    112,
                    108,
                    105,
                    99,
                    97,
                    116,
                    105,
                    111,
                    110,
                    47,
                    98,
                    115,
                    111,
                    110,
                ];
                proof {
                    assert(ab@ =~= app_bson_text());
                }
                if accept_bson && bson_kind == 1 {
                    SynthResponse {
                        status,
                        headers: with_content_type(headers, ab.as_slice()),
                        payload: Payload::BsonDoc(v),
                    }
                } else if accept_bson && bson_kind == 2 {
                    let dk: [u8; 4] = [100, 97, 116, 97];
                    proof {
                        assert(dk@ =~= data_key());
                    }
                    let ghost vv = json_view(v);
                    let mut doc: Vec<(Vec<u8>, Json)> = Vec::new();
                    doc.push((vstd::slice::slice_to_vec(dk.as_slice()), v));
                    proof {
                        assert(doc@.drop_last() =~= Seq::<(Vec<u8>, Json)>::empty());
                        assert(crate::json::obj_view(doc@.drop_last()) =~= Seq::<
                            (Seq<u8>, JsonV),
                        >::empty());
                        assert(doc@.last().0@ == data_key());
                        assert(json_view(doc@.last().1) == vv);
                        assert(crate::json::obj_view(doc@) =~= seq![(data_key(), vv)]);
                    }
                    let wrapped = Json::Obj(doc);
                    SynthResponse {
                        status,
                        headers: with_content_type(headers, ab.as_slice()),
                        payload: Payload::BsonDoc(wrapped),
                    }
                } else {
                    let aj: [u8; 16] = [
                        97,
                        112,
                        112,
                        108,
                        105,
                        99,
                        97,
                        116,
                        105,
                        111,
                        110,
                        47,
                        106,
                        115,
                        111,
                        110,
                    ];
                    proof {
                        assert(aj@ =~= app_json_text());
                    }
                    SynthResponse {
                        status,
                        headers: with_content_type(headers, aj.as_slice()),
                        payload: Payload::Bytes(json_to_text(&v)),
                    }
                }
            }
        },
    }
}

/// The proxy target: the configured URL with trailing slashes removed,
/// then the request's path and query.
pub open spec fn spec_proxy_target(url: Seq<u8>, path_and_query: Seq<u8>) -> Seq<u8> {
    trim_trailing(url, 47) + path_and_query
}

/// Builds the upstream URL for a proxied request.
pub fn proxy_target(url: &[u8], path_and_query: &[u8]) -> (r: Vec<u8>)
    ensures
        r@ == spec_proxy_target(url@, path_and_query@),
{
    let mut out = trim_trailing_bytes(url, 47);
    append_bytes(&mut out, path_and_query);
    out
}

/// `hs` with every header of the given name removed, order otherwise
/// kept. Names compare case-insensitively.
pub open spec fn remove_name(hs: Seq<(Seq<u8>, Seq<u8>)>, name: Seq<u8>) -> Seq<(Seq<u8>, Seq<u8>)>
    decreases hs.len(),
{
    if hs.len() == 0 {
        Seq::empty()
    } else if upper_seq(hs.last().0) == upper_seq(name) {
        remove_name(hs.drop_last(), name)
    } else {
        remove_name(hs.drop_last(), name).push(hs.last())
    }
}

/// The inbound headers with each override applied in order: an override
/// replaces every header of its name and lands at the end.
pub open spec fn spec_overlay(
    base: Seq<(Seq<u8>, Seq<u8>)>,
    overrides: Seq<(Seq<u8>, Seq<u8>)>,
) -> Seq<(Seq<u8>, Seq<u8>)>
    decreases overrides.len(),
{
    if overrides.len() == 0 {
        base
    } else {
        spec_overlay(remove_name(base, overrides[0].0).push(overrides[0]), overrides.drop_first())
    }
}

/// Removes every header with the given name.
fn remove_header(hs: &Vec<(Vec<u8>, Vec<u8>)>, name: &[u8]) -> (r: Vec<(Vec<u8>, Vec<u8>)>)
    ensures
        pairs_view(r@) == remove_name(pairs_view(hs@), name@),
{
    let ghost hv = pairs_view(hs@);
    let mut out: Vec<(Vec<u8>, Vec<u8>)> = Vec::new();
    let mut i: usize = 0;
    proof {
        assert(hv.take(0) =~= Seq::<(Seq<u8>, Seq<u8>)>::empty());
        assert(pairs_view(out@) =~= remove_name(hv.take(0), name@));
    }
    while i < hs.len()
        invariant
            i <= hs@.len(),
            hv == pairs_view(hs@),
            hv.len() == hs@.len(),
            forall|j: int| 0 <= j < hv.len() ==> hv[j] == (hs@[j].0@, hs@[j].1@),
            pairs_view(out@) == remove_name(hv.take(i as int), name@),
        decreases hs@.len() - i,
    {
        proof {
            assert(hv.take(i + 1).drop_last() =~= hv.take(i as int));
            assert(hv.take(i + 1).last() == hv[i as int]);
        }
        let (k, v) = &hs[i];
        let ghost out0 = pairs_view(out@);
        if !crate::text::eq_ignore_case(k.as_slice(), name) {
            out.push((vstd::slice::slice_to_vec(k.as_slice()), vstd::slice::slice_to_vec(
                v.as_slice(),
            )));
            proof {
                assert(pairs_view(out@) =~= out0.push(hv[i as int]));
            }
        }
        i = i + 1;
    }
    proof {
        assert(hv.take(i as int) =~= hv);
    }
    out
}

/// Overlays proxy header overrides onto the inbound headers.
pub fn overlay_headers(base: Vec<(Vec<u8>, Vec<u8>)>, overrides: &Vec<(Vec<u8>, Vec<u8>)>) -> (r:
    Vec<(Vec<u8>, Vec<u8>)>)
    ensures
        pairs_view(r@) == spec_overlay(pairs_view(base@), pairs_view(overrides@)),
{
    let ghost bv = pairs_view(base@);
    let ghost ov = pairs_view(overrides@);
    let mut cur = base;
    let mut i: usize = 0;
    proof {
        assert(ov.skip(0) =~= ov);
    }
    while i < overrides.len()
        invariant
            i <= overrides@.len(),
            ov == pairs_view(overrides@),
            ov.len() == overrides@.len(),
            forall|j: int| 0 <= j < ov.len() ==> ov[j] == (overrides@[j].0@, overrides@[j].1@),
            spec_overlay(bv, ov) == spec_overlay(pairs_view(cur@), ov.skip(i as int)),
        decreases overrides@.len() - i,
    {
        let ghost rest = ov.skip(i as int);
        proof {
            assert(rest[0] == ov[i as int]);
            assert(rest.drop_first() =~= ov.skip(i + 1));
        }
        let (k, v) = &overrides[i];
        let mut next = remove_header(&cur, k.as_slice());
        let ghost removed = pairs_view(next@);
        next.push((vstd::slice::slice_to_vec(k.as_slice()), vstd::slice::slice_to_vec(
            v.as_slice(),
        )));
        proof {
            assert(pairs_view(next@) =~= removed.push(ov[i as int]));
        }
        cur = next;
        i = i + 1;
    }
    proof {
        assert(ov.skip(i as int) =~= Seq::<(Seq<u8>, Seq<u8>)>::empty());
    }
    cur
}

/// What the scripting collaborator handed back, as plain values: a
/// runtime error, a result that was not a table, or the fields of the
/// returned table.
pub enum ScriptOutcome {
    /// The script failed; the error text.
    Failed(Vec<u8>),
    /// The script returned something other than a table.
    NotTable,
    /// The returned table: optional status, headers, and body.
    Returned { status: Option<u16>, headers: Vec<(Vec<u8>, Vec<u8>)>, body: ScriptBody },
}

/// The body field of a script's returned table.
pub enum ScriptBody {
    Missing,
    /// A string: inserted verbatim as bytes.
    Raw(Vec<u8>),
    /// A table: serialized as JSON.
    Table(Json),
}

/// Body bytes a script body yields.
pub open spec fn script_body_text(b: ScriptBody) -> Seq<u8> {
    match b {
        ScriptBody::Missing => Seq::empty(),
        ScriptBody::Raw(x) => x@,
        ScriptBody::Table(j) => json_text(json_view(j)),
    }
}

pub open spec fn script_not_table_text() -> Seq<u8> {
    seq![
        83u8, 99u8, 114u8, 105u8, 112u8, 116u8, 32u8, 109u8, 117u8, 115u8, 116u8, 32u8, 114u8,
        101u8, 116u8, 117u8, 114u8, 110u8, 32u8, 97u8, 32u8, 116u8, 97u8, 98u8, 108u8, 101u8,
    ]
}

/// Turns a script outcome into a response: a failure or a non-table
/// result is a 500 with the error text, a table yields its own status
/// (default 200, clamped), headers and body.
pub fn script_response(o: ScriptOutcome) -> (r: (u16, Vec<(Vec<u8>, Vec<u8>)>, Vec<u8>))
    ensures
        match o {
            ScriptOutcome::Failed(e) => r.0 == 500 && r.1@.len() == 0 && r.2@ == e@,
            ScriptOutcome::NotTable => r.0 == 500 && r.1@.len() == 0 && r.2@
                == script_not_table_text(),
            ScriptOutcome::Returned { status, headers, body } => r.0 == spec_status(status, 200)
                && pairs_view(r.1@) == pairs_view(headers@) && r.2@ == script_body_text(body),
        },
{
    match o {
        ScriptOutcome::Failed(e) => (500, Vec::new(), e),
        ScriptOutcome::NotTable => {
            let a: [u8; 26] = [
                83, 99, 114, 105, 112, 116, 32, 109, 117, 115, 116, 32, 114, 101, 116, 117, 114,
                110, 32, 97, 32, 116, 97, 98, 108, 101,
            ];
            let msg = vstd::slice::slice_to_vec(a.as_slice());
            proof {
                assert(msg@ =~= script_not_table_text());
            }
            (500, Vec::new(), msg)
        },
        ScriptOutcome::Returned { status, headers, body } => {
            let code = effective_status(status, 200);
            let bytes = match body {
                ScriptBody::Missing => Vec::new(),
                ScriptBody::Raw(x) => x,
                ScriptBody::Table(j) => json_to_text(&j),
            };
            (code, headers, bytes)
        },
    }
}

/// What the upstream call came back with, as plain values.
pub enum UpstreamOutcome {
    /// The request could not be sent; the error text.
    SendFailed(Vec<u8>),
    /// The response arrived but its body could not be read.
    BodyReadFailed,
    /// Status, headers and body of the upstream response.
    Succeeded { status: u16, headers: Vec<(Vec<u8>, Vec<u8>)>, body: Vec<u8> },
}

pub open spec fn send_failed_prefix() -> Seq<u8> {
    seq![
        80u8, 114u8, 111u8, 120u8, 121u8, 32u8, 114u8, 101u8, 113u8, 117u8, 101u8, 115u8, 116u8,
        32u8, 102u8, 97u8, 105u8, 108u8, 101u8, 100u8, 58u8, 32u8,
    ]
}

pub open spec fn body_read_failed_text() -> Seq<u8> {
    seq![
        70u8, 97u8, 105u8, 108u8, 101u8, 100u8, 32u8, 116u8, 111u8, 32u8, 114u8, 101u8, 97u8,
        100u8, 32u8, 117u8, 112u8, 115u8, 116u8, 114u8, 101u8, 97u8, 109u8, 32u8, 114u8, 101u8,
        115u8, 112u8, 111u8, 110u8, 115u8, 101u8, 32u8, 98u8, 111u8, 100u8, 121u8,
    ]
}

/// Turns an upstream outcome into the response relayed to the client:
/// failures become a 502 with the error text; success copies the upstream
/// status, headers and body verbatim.
pub fn upstream_response(o: UpstreamOutcome) -> (r: (u16, Vec<(Vec<u8>, Vec<u8>)>, Vec<u8>))
    ensures
        match o {
            UpstreamOutcome::SendFailed(e) => r.0 == 502 && r.1@.len() == 0 && r.2@
                == send_failed_prefix() + e@,
            UpstreamOutcome::BodyReadFailed => r.0 == 502 && r.1@.len() == 0 && r.2@
                == body_read_failed_text(),
            UpstreamOutcome::Succeeded { status, headers, body } => r.0 == status && pairs_view(
                r.1@,
            ) == pairs_view(headers@) && r.2@ == body@,
        },
{
    match o {
        UpstreamOutcome::SendFailed(e) => {
            let a: [u8; 22] = [
                80, 114, 111, 120, 121, 32, 114, 101, 113, 117, 101, 115, 116, 32, 102, 97, 105,
                108, 101, 100, 58, 32,
            ];
            let mut msg = vstd::slice::slice_to_vec(a.as_slice());
            proof {
                assert(msg@ =~= send_failed_prefix());
            }
            append_bytes(&mut msg, e.as_slice());
            (502, Vec::new(), msg)
        },
        UpstreamOutcome::BodyReadFailed => {
            let a: [u8; 37] = [
                70, 97, 105, 108, 101, 100, 32, 116, 111, 32, 114, 101, 97, 100, 32, 117, 112, 115,
                116, 114, 101, 97, 109, 32, 114, 101, 115, 112, 111, 110, 115, 101, 32, 98, 111,
                100, 121,
            ];
            let msg = vstd::slice::slice_to_vec(a.as_slice());
            proof {
                assert(msg@ =~= body_read_failed_text());
            }
            (502, Vec::new(), msg)
        },
        UpstreamOutcome::Succeeded { status, headers, body } => {
            (status, headers, body)
        },
    }
}

/// The transfer encoding chosen for a static asset.
#[derive(Clone, Copy, PartialEq, Eq, Structural, Debug)]
pub enum Encoding {
    Brotli,
    Gzip,
    Identity,
}

pub open spec fn br_text() -> Seq<u8> {
    seq![98u8, 114u8]
}

pub open spec fn gzip_text() -> Seq<u8> {
    seq![103u8, 122u8, 105u8, 112u8]
}

/// The encoding negotiated for a static asset: brotli when the client
/// accepts `br` and a brotli body exists, else gzip likewise, else the
/// identity body.
pub open spec fn spec_choose_encoding(accept: Seq<u8>, has_br: bool, has_gzip: bool) -> Encoding {
    if crate::text::contains_seq(accept, br_text()) && has_br {
        Encoding::Brotli
    } else if crate::text::contains_seq(accept, gzip_text()) && has_gzip {
        Encoding::Gzip
    } else {
        Encoding::Identity
    }
}

/// Negotiates the asset encoding from the `Accept-Encoding` text.
pub fn choose_encoding(accept: &[u8], has_br: bool, has_gzip: bool) -> (r: Encoding)
    ensures
        r == spec_choose_encoding(accept@, has_br, has_gzip),
{
    let br: [u8; 2] = [98, 114];
    let gz: [u8; 4] = [103, 122, 105, 112];
    proof {
        assert(br@ =~= br_text());
        assert(gz@ =~= gzip_text());
    }
    if crate::text::contains_bytes(accept, br.as_slice()) && has_br {
        Encoding::Brotli
    } else if crate::text::contains_bytes(accept, gz.as_slice()) && has_gzip {
        Encoding::Gzip
    } else {
        Encoding::Identity
    }
}

/// A cached copy is current exactly when the request carried an
/// `If-None-Match` value equal to the asset's entity tag.
pub fn not_modified(if_none_match: &Option<Vec<u8>>, etag: &[u8]) -> (r: bool)
    ensures
        r == match *if_none_match {
            Option::Some(v) => v@ == etag@,
            Option::None => false,
        },
{
    match if_none_match {
        Option::Some(v) => bytes_eq(v.as_slice(), etag),
        Option::None => false,
    }
}

pub open spec fn sse_prefix() -> Seq<u8> {
    seq![100u8, 97u8, 116u8, 97u8, 58u8, 32u8]
}

/// Frames one server-sent event: `data: `, the JSON text, a blank line.
pub fn sse_frame(json: &[u8]) -> (r: Vec<u8>)
    ensures
        r@ == sse_prefix() + json@ + seq![10u8, 10u8],
{
    let p: [u8; 6] = [100, 97, 116, 97, 58, 32];
    let mut out = vstd::slice::slice_to_vec(p.as_slice());
    proof {
        assert(out@ =~= sse_prefix());
    }
    append_bytes(&mut out, json);
    out.push(10);
    out.push(10);
    proof {
        assert(out@ =~= sse_prefix() + json@ + seq![10u8, 10u8]);
    }
    out
}

} // verus!
