//! Data model: expectations pair a request condition with a mock response.
//! Header maps are ordered lists of name/value byte strings. Each type has
//! a ghost view over `Seq` and `JsonV`, which the contracts speak of.

use vstd::prelude::*;

use crate::json::{Json, JsonV};

verus! {

/// View of a name/value pair list.
pub open spec fn pairs_view(v: Seq<(Vec<u8>, Vec<u8>)>) -> Seq<(Seq<u8>, Seq<u8>)> {
    v.map_values(|p: (Vec<u8>, Vec<u8>)| (p.0@, p.1@))
}

pub open spec fn opt_bytes_view(v: Option<Vec<u8>>) -> Option<Seq<u8>> {
    match v {
        Option::Some(b) => Option::Some(b@),
        Option::None => Option::None,
    }
}

pub open spec fn opt_pairs_view(v: Option<Vec<(Vec<u8>, Vec<u8>)>>) -> Option<
    Seq<(Seq<u8>, Seq<u8>)>,
> {
    match v {
        Option::Some(h) => Option::Some(pairs_view(h@)),
        Option::None => Option::None,
    }
}

pub open spec fn opt_json_view(v: Option<Json>) -> Option<JsonV> {
    match v {
        Option::Some(j) => Option::Some(j@),
        Option::None => Option::None,
    }
}

/// Constraints an expectation places on an incoming request. An absent
/// field does not constrain.
pub struct RequestCondition {
    /// Method name, compared ASCII-case-insensitively.
    pub method: Option<Vec<u8>>,
    /// Path pattern: literal, `:param` and `*` segments.
    pub path: Option<Vec<u8>>,
    /// Required headers: names matched case-insensitively, values exactly.
    pub headers: Option<Vec<(Vec<u8>, Vec<u8>)>>,
    /// Required request body, compared by deep JSON equality.
    pub body: Option<Json>,
}

pub struct ConditionV {
    pub method: Option<Seq<u8>>,
    pub path: Option<Seq<u8>>,
    pub headers: Option<Seq<(Seq<u8>, Seq<u8>)>>,
    pub body: Option<JsonV>,
}

impl View for RequestCondition {
    type V = ConditionV;

    open spec fn view(&self) -> ConditionV {
        ConditionV {
            method: opt_bytes_view(self.method),
            path: opt_bytes_view(self.path),
            headers: opt_pairs_view(self.headers),
            body: opt_json_view(self.body),
        }
    }
}

/// A synthesized response: status, headers, templated body, body kind
/// and latency.
pub struct ResponseConfig {
    /// HTTP status; absent or out of [100, 599] falls back to a default.
    pub status_code: Option<u16>,
    /// Extra response headers, written verbatim.
    pub headers: Option<Vec<(Vec<u8>, Vec<u8>)>>,
    /// Response body template.
    pub body: Option<Json>,
    /// `text` renders the body as plain text; anything else is JSON.
    pub body_type: Option<Vec<u8>>,
    /// Milliseconds to sleep before responding.
    pub latency: Option<u64>,
}

pub struct ResponseConfigV {
    pub status_code: Option<u16>,
    pub headers: Option<Seq<(Seq<u8>, Seq<u8>)>>,
    pub body: Option<JsonV>,
    pub body_type: Option<Seq<u8>>,
    pub latency: Option<u64>,
}

impl View for ResponseConfig {
    type V = ResponseConfigV;

    open spec fn view(&self) -> ResponseConfigV {
        ResponseConfigV {
            status_code: self.status_code,
            headers: opt_pairs_view(self.headers),
            body: opt_json_view(self.body),
            body_type: opt_bytes_view(self.body_type),
            latency: self.latency,
        }
    }
}

/// Probabilistic fault injection: with the given probability the jitter
/// response replaces the configured one. The probability is held in parts
/// per million, so that 1_000_000 always fires and 0 never does.
pub struct JitterConfig {
    pub probability_ppm: u32,
    pub response: ResponseConfig,
}

pub struct JitterV {
    pub probability_ppm: u32,
    pub response: ResponseConfigV,
}

impl View for JitterConfig {
    type V = JitterV;

    open spec fn view(&self) -> JitterV {
        JitterV { probability_ppm: self.probability_ppm, response: self.response@ }
    }
}

/// Forward the request to an upstream URL, with header overrides.
pub struct ProxyConfig {
    pub url: Vec<u8>,
    pub headers: Option<Vec<(Vec<u8>, Vec<u8>)>>,
}

pub struct ProxyV {
    pub url: Seq<u8>,
    pub headers: Option<Seq<(Seq<u8>, Seq<u8>)>>,
}

impl View for ProxyConfig {
    type V = ProxyV;

    open spec fn view(&self) -> ProxyV {
        ProxyV { url: self.url@, headers: opt_pairs_view(self.headers) }
    }
}

/// The behavior of a matched expectation. Priority, highest first:
/// `script`, then `proxy`, then the synthesized response with jitter.
pub struct MockResponse {
    pub response: ResponseConfig,
    pub jitter: Option<JitterConfig>,
    pub proxy: Option<ProxyConfig>,
    /// Source text for the scripting collaborator.
    pub script: Option<Vec<u8>>,
}

pub struct MockResponseV {
    pub response: ResponseConfigV,
    pub jitter: Option<JitterV>,
    pub proxy: Option<ProxyV>,
    pub script: Option<Seq<u8>>,
}

impl View for MockResponse {
    type V = MockResponseV;

    open spec fn view(&self) -> MockResponseV {
        MockResponseV {
            response: self.response@,
            jitter: match self.jitter {
                Option::Some(j) => Option::Some(j@),
                Option::None => Option::None,
            },
            proxy: match self.proxy {
                Option::Some(p) => Option::Some(p@),
                Option::None => Option::None,
            },
            script: opt_bytes_view(self.script),
        }
    }
}

/// One mocking rule: a condition and the response it produces.
pub struct Expectation {
    pub id: u64,
    pub condition: RequestCondition,
    pub response: MockResponse,
}

pub struct ExpectationV {
    pub id: u64,
    pub condition: ConditionV,
    pub response: MockResponseV,
}

impl View for Expectation {
    type V = ExpectationV;

    open spec fn view(&self) -> ExpectationV {
        ExpectationV { id: self.id, condition: self.condition@, response: self.response@ }
    }
}

/// Payload of an add request: an expectation whose id may be left to the
/// store to assign.
pub struct MockRequest {
    pub id: Option<u64>,
    pub condition: RequestCondition,
    pub response: MockResponse,
}

/// One line of the request log, broadcast to stream subscribers.
pub struct LogEntry {
    /// RFC 3339 timestamp, supplied by the caller.
    pub timestamp: Vec<u8>,
    pub method: Vec<u8>,
    pub path: Vec<u8>,
    pub body: Option<Json>,
    pub matched: bool,
    pub expectation_id: Option<u64>,
}

/// View of an expectation list.
pub open spec fn exps_view(items: Seq<Expectation>) -> Seq<ExpectationV> {
    items.map_values(|e: Expectation| e@)
}

} // verus!
