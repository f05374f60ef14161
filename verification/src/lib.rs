//! Verified core of stubby.
pub mod text;
pub mod json;
pub mod strmap;
pub mod annotation;
pub mod pod;
pub mod config;
pub mod sidecar;
pub mod patch;
pub mod codec;
pub mod admission;
pub mod imageref;
pub mod jsonparse;
pub mod rescue;
pub mod decision;
pub mod reconcile;
pub mod auth;
pub mod controller_config;
pub mod frontend;
pub mod backend;
pub mod server;
pub mod observability;
pub mod registry;
pub mod patch_laws;
