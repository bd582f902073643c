//! Request-handling core of a service skeleton: a role-based access-control
//! comparator driven by signed-token claims, a token service, an ordered
//! middleware pipeline around route handlers, and a background job dispatcher
//! that routes work to three execution substrates.

pub mod chain;
pub mod codec;
pub mod container;
pub mod handlers;
pub mod http;
pub mod jobs;
pub mod models;
pub mod token;
pub mod roles;
pub mod routes;
