//! Inbound policy core: the canonical route model, the route adapter, the
//! status reconciler and the per-endpoint policy index.
pub mod text;
pub mod gateway;
pub mod policy;
pub mod model;
pub mod checks;
pub mod http;
pub mod routes;
pub mod keyed;
pub mod order;
pub mod index;
pub mod laws;
pub mod cluster;
