//! Mimicrab: the core of a programmable HTTP mock server.
//!
//! Expectations pair a request condition with a mock response; the library
//! matches incoming requests against them, renders templated response
//! bodies, and manages the expectation store.
#![verifier::loop_isolation(false)]

pub mod controlplane;
pub mod dispatch;
pub mod json;
pub mod matcher;
pub mod models;
pub mod render;
pub mod store;
pub mod templating;
pub mod text;
