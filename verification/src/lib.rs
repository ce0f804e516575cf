//! A GraphQL query gateway.
//!
//! Independently authored query roots are merged into one schema at startup
//! ([`schema`]), inbound HTTP requests are dispatched by method on a single
//! endpoint ([`router`]), and field resolution is scheduled against a
//! bounded connection pool ([`pool`]) with per-field error isolation
//! ([`exec`]). Startup configuration is validated in [`config`], and the
//! structured result of a request is serialized in [`render`].

pub mod config;
pub mod exec;
pub mod pool;
pub mod render;
pub mod router;
pub mod schema;
