//! Shared state of the webhook's HTTP layer.
use vstd::prelude::*;
use std::sync::Arc;
use crate::config::ImageRefs;

verus! {

/// Upper bound for an admission request body: pods with many sidecars or large
/// env blocks exceed the usual 2 MiB default.
pub const MAX_BODY_BYTES: usize = 8 * 1024 * 1024;

/// Request state: the dummy image references.
#[derive(Clone)]
pub struct AppState {
    pub image_refs: Arc<ImageRefs>,
}

} // verus!
