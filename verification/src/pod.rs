//! The parts of a Kubernetes Pod that stubby reads, as plain values.
use vstd::prelude::*;
use crate::strmap::StrMap;

verus! {

/// One container of the pod spec.
///
/// The `has_*` flags record whether the optional field is set in the manifest;
/// `volume_mounts` holds the names of the mounted volumes.
#[derive(Debug)]
pub struct Container {
    pub name: String,
    pub image: Option<String>,
    pub has_command: bool,
    pub has_args: bool,
    pub has_env: bool,
    pub has_env_from: bool,
    pub volume_mounts: Option<Vec<String>>,
    pub has_resources: bool,
}

/// A pod-level volume: its name, which of the sources that fail on a missing
/// object it declares, and its compact JSON form.
#[derive(Debug)]
pub struct Volume {
    pub name: String,
    pub has_secret: bool,
    pub has_config_map: bool,
    pub has_projected: bool,
    pub json: String,
}

/// `spec` of a pod.
#[derive(Debug)]
pub struct PodSpec {
    pub containers: Vec<Container>,
    pub init_containers: Option<Vec<Container>>,
    pub volumes: Option<Vec<Volume>>,
    pub image_pull_secrets: Option<Vec<String>>,
}

/// `status.containerStatuses[*]`: the name, the image, and the reason of a
/// `waiting` state if the container is waiting.
#[derive(Debug)]
pub struct ContainerStatus {
    pub name: String,
    pub image: String,
    pub waiting_reason: Option<String>,
}

/// A pod: metadata, spec and container statuses.
#[derive(Debug)]
pub struct Pod {
    pub name: Option<String>,
    pub namespace: Option<String>,
    pub annotations: Option<StrMap<String>>,
    pub spec: Option<PodSpec>,
    pub container_statuses: Option<Vec<ContainerStatus>>,
}

/// The annotation map of a pod, empty when the pod has none.
pub open spec fn annotations_of(p: Pod) -> Map<Seq<char>, Seq<char>> {
    match p.annotations {
        Some(a) => a@,
        None => Map::empty(),
    }
}

} // verus!
