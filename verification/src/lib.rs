//! Proxy pool of ZenProxy: the pool itself, the queries that select from it, and the decisions
//! of the fetch and relay endpoints.

pub mod clients;
pub mod error;
pub mod fairness;
pub mod fetch;
pub mod headers;
pub mod json;
pub mod laws;
pub mod listing;
pub mod order;
pub mod paging;
pub mod pool;
pub mod proxy;
pub mod query;
pub mod relay;
pub mod request;
pub mod risk;
pub mod sample;
pub mod store;
pub mod text;
