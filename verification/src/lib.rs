//! An HTTP filter for Envoy that asks an `ext_authz` service whether a request may pass.
//!
//! The library holds the filter's rules: how a request is turned into a check, what an answer
//! means, which decisions are cached, for how long and under which key, how they are purged, and
//! what makes a configuration valid. It does no input or output: [`filter`] takes in what the
//! proxy reports and says what the proxy is to do next.
//!
//! Each type has a model, the type of its `View`, and the contracts are stated over models. What
//! holds of several functions together stands in proof functions whose names start with `law_`.
pub mod cache;
pub mod config;
pub mod decision;
pub mod filter;
pub mod invalidation;
pub mod laws;
pub mod model;
pub mod outside;
pub mod pb;
pub mod request;
pub mod text;
pub mod text_map;
pub mod wire;
