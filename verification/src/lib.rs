//! TokenJ: request rewriting and accounting logic for an LLM API caching proxy.

pub mod cert;
pub mod dashboard;
pub mod digest;
pub mod pricing;
pub mod json;
pub mod keyed;
pub mod text;
pub mod x509;
pub mod provider;
pub mod proxy;
