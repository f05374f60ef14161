//! Which containers of a pod the auto-rescue controller stubs.
//!
//! Revert needs a registry round-trip and is decided in `reconcile`; here we
//! only read the recorded originals.
use vstd::prelude::*;
use crate::pod::{Pod, Container, ContainerStatus, annotations_of};
use crate::rescue::{decode_original_images, decoded_originals};
use crate::sidecar::{is_sidecar, is_sidecar_name};
use crate::strmap::StrMap;
use crate::text::str_eq;

verus! {

/// The dummy images the controller swaps in.
#[derive(Debug, Clone)]
pub struct RescueConfig {
    pub backend_image: String,
    pub frontend_image: String,
}

/// One container to swap to a dummy.
#[derive(Debug, Clone, PartialEq, Eq)]
pub struct StubAction {
    pub name: String,
    pub original_image: String,
    pub dummy_image: String,
}

pub open spec fn action_view(a: StubAction) -> (Seq<char>, Seq<char>, Seq<char>) {
    (a.name@, a.original_image@, a.dummy_image@)
}

pub open spec fn actions_view(v: Seq<StubAction>) -> Seq<(Seq<char>, Seq<char>, Seq<char>)> {
    v.map_values(|a: StubAction| action_view(a))
}

/// A waiting reason that means the image cannot be pulled.
pub open spec fn pull_failure(reason: Option<String>) -> bool {
    match reason {
        Some(r) => r@ == "ImagePullBackOff"@ || r@ == "ErrImagePull"@,
        None => false,
    }
}

/// The images the pod spec names, by container name; a later container wins.
pub open spec fn spec_images(cs: Seq<Container>) -> Map<Seq<char>, Seq<char>>
    decreases cs.len(),
{
    if cs.len() == 0 {
        Map::empty()
    } else {
        match cs.last().image {
            Some(img) => spec_images(cs.drop_last()).insert(cs.last().name@, img@),
            None => spec_images(cs.drop_last()),
        }
    }
}

pub open spec fn pod_spec_images(p: Pod) -> Map<Seq<char>, Seq<char>> {
    match p.spec {
        Some(s) => spec_images(s.containers@),
        None => Map::empty(),
    }
}

/// The dummy for a pod: the frontend image when `stubby.io/type` is `frontend`,
/// else the backend image.
pub open spec fn dummy_for(ann: Map<Seq<char>, Seq<char>>, cfg: RescueConfig) -> Seq<char> {
    if ann.contains_key("stubby.io/type"@) && ann["stubby.io/type"@] == "frontend"@ {
        cfg.frontend_image@
    } else {
        cfg.backend_image@
    }
}

pub open spec fn originals_of(p: Pod) -> Map<Seq<char>, Seq<char>> {
    let ann = annotations_of(p);
    decoded_originals(
        if ann.contains_key("stubby.io/original-image"@) {
            Some(ann["stubby.io/original-image"@])
        } else {
            None
        },
    )
}

/// Stub actions for the statuses `ss`, in order: each status that is not a
/// sidecar, not already rescued, and waiting on a pull failure. The original
/// image is the spec's image for that container, else the status image.
pub open spec fn stub_actions(
    ss: Seq<ContainerStatus>,
    already: Map<Seq<char>, Seq<char>>,
    images: Map<Seq<char>, Seq<char>>,
    dummy: Seq<char>,
) -> Seq<(Seq<char>, Seq<char>, Seq<char>)>
    decreases ss.len(),
{
    if ss.len() == 0 {
        Seq::empty()
    } else {
        let prev = stub_actions(ss.drop_last(), already, images, dummy);
        let cs = ss.last();
        if !is_sidecar_name(cs.name@) && !already.contains_key(cs.name@) && pull_failure(
            cs.waiting_reason,
        ) {
            prev.push(
                (
                    cs.name@,
                    if images.contains_key(cs.name@) {
                        images[cs.name@]
                    } else {
                        cs.image@
                    },
                    dummy,
                ),
            )
        } else {
            prev
        }
    }
}

pub open spec fn pod_statuses(p: Pod) -> Seq<ContainerStatus> {
    match p.container_statuses {
        Some(s) => s@,
        None => Seq::empty(),
    }
}

fn is_pull_failure(reason: &Option<String>) -> (b: bool)
    ensures
        b == pull_failure(*reason),
{
    match reason {
        Some(r) => str_eq(r.as_str(), "ImagePullBackOff") || str_eq(r.as_str(), "ErrImagePull"),
        None => false,
    }
}

/// The container-to-original-image map recorded on a rescued pod.
pub fn rescued_originals(pod: &Pod) -> (m: StrMap<String>)
    ensures
        m@ == originals_of(*pod),
{
    match &pod.annotations {
        Some(a) => decode_original_images(a.get("stubby.io/original-image")),
        None => decode_original_images(None),
    }
}

/// Containers in an image-pull failure that are neither sidecars nor already
/// rescued (present in the `original-image` annotation).
pub fn containers_to_stub(pod: &Pod, cfg: &RescueConfig) -> (r: Vec<StubAction>)
    ensures
        actions_view(r@) == stub_actions(
            pod_statuses(*pod),
            originals_of(*pod),
            pod_spec_images(*pod),
            dummy_for(annotations_of(*pod), *cfg),
        ),
{
    let already = rescued_originals(pod);
    let frontend = match &pod.annotations {
        Some(a) => match a.get("stubby.io/type") {
            Some(t) => str_eq(t.as_str(), "frontend"),
            None => false,
        },
        None => false,
    };
    let dummy = if frontend {
        cfg.frontend_image.clone()
    } else {
        cfg.backend_image.clone()
    };
    let mut images: StrMap<String> = StrMap::new();
    if let Some(spec) = &pod.spec {
        let mut i: usize = 0;
        while i < spec.containers.len()
            invariant
                pod.spec == Some(*spec),
                i <= spec.containers@.len(),
                images@ == spec_images(spec.containers@.take(i as int)),
            decreases spec.containers@.len() - i,
        {
            let c = &spec.containers[i];
            proof {
                assert(spec.containers@.take(i + 1).drop_last() =~= spec.containers@.take(i as int));
                assert(spec.containers@.take(i + 1).last() == *c);
            }
            if let Some(img) = &c.image {
                images.insert(c.name.clone(), img.clone());
            }
            i += 1;
        }
        assert(spec.containers@.take(i as int) =~= spec.containers@);
    }
    let mut out: Vec<StubAction> = Vec::new();
    if let Some(statuses) = &pod.container_statuses {
        let ghost ss = statuses@;
        let mut i: usize = 0;
        while i < statuses.len()
            invariant
                pod.container_statuses == Some(*statuses),
                ss == statuses@,
                i <= ss.len(),
                images@ == pod_spec_images(*pod),
                already@ == originals_of(*pod),
                dummy@ == dummy_for(annotations_of(*pod), *cfg),
                actions_view(out@) == stub_actions(ss.take(i as int), already@, images@, dummy@),
            decreases ss.len() - i,
        {
            let cs = &statuses[i];
            proof {
                assert(ss.take(i + 1).drop_last() =~= ss.take(i as int));
                assert(ss.take(i + 1).last() == *cs);
            }
            if !is_sidecar(cs.name.as_str()) && !already.contains_key(cs.name.as_str())
                && is_pull_failure(&cs.waiting_reason) {
                let original_image = match images.get(cs.name.as_str()) {
                    Some(img) => img.clone(),
                    None => cs.image.clone(),
                };
                let ghost before = out@;
                out.push(
                    StubAction {
                        name: cs.name.clone(),
                        original_image,
                        dummy_image: dummy.clone(),
                    },
                );
                assert(actions_view(out@) =~= actions_view(before).push(action_view(out@.last())));
            }
            i += 1;
        }
        assert(ss.take(i as int) =~= ss);
    } else {
        assert(actions_view(out@) =~= Seq::<(Seq<char>, Seq<char>, Seq<char>)>::empty());
    }
    out
}


/// A status the controller rescues: not a sidecar, not recorded as rescued
/// already, and waiting on `ImagePullBackOff` or `ErrImagePull`.
pub open spec fn needs_rescue(cs: ContainerStatus, already: Map<Seq<char>, Seq<char>>) -> bool {
    &&& !is_sidecar_name(cs.name@)
    &&& !already.contains_key(cs.name@)
    &&& cs.waiting_reason matches Some(r) && (r@ == "ImagePullBackOff"@ || r@ == "ErrImagePull"@)
}

/// One stub action per status that needs rescue, in status order and no
/// other: each names its container, takes the image the spec gives that
/// container (else the one the status reports), and swaps in `dummy`.
pub proof fn law_one_action_per_failing_status(
    ss: Seq<ContainerStatus>,
    already: Map<Seq<char>, Seq<char>>,
    images: Map<Seq<char>, Seq<char>>,
    dummy: Seq<char>,
)
    ensures
        stub_actions(ss, already, images, dummy) == ss.filter(|cs: ContainerStatus| needs_rescue(cs, already)).map_values(
            |cs: ContainerStatus|
                (cs.name@, if images.contains_key(cs.name@) { images[cs.name@] } else { cs.image@ }, dummy),
        ),
        stub_actions(ss, already, images, dummy).len() == ss.filter(|cs: ContainerStatus| needs_rescue(cs, already)).len(),
        forall|i: int|
            0 <= i < ss.len() && needs_rescue(#[trigger] ss[i], already) ==> exists|k: int|
                0 <= k < stub_actions(ss, already, images, dummy).len() && stub_actions(ss, already, images, dummy)[k].0
                    == ss[i].name@,
    decreases ss.len(),
{
    let f = |cs: ContainerStatus| needs_rescue(cs, already);
    let g = |cs: ContainerStatus|
        (cs.name@, if images.contains_key(cs.name@) { images[cs.name@] } else { cs.image@ }, dummy);
    reveal(Seq::filter);
    if ss.len() > 0 {
        let prev = ss.drop_last();
        law_one_action_per_failing_status(prev, already, images, dummy);
        let fp = prev.filter(f);
        assert(ss.filter(f) == if f(ss.last()) { fp.push(ss.last()) } else { fp });
        if f(ss.last()) {
            assert(fp.push(ss.last()).map_values(g) =~= fp.map_values(g).push(g(ss.last())));
        }
        let acts = stub_actions(ss, already, images, dummy);
        assert forall|i: int| 0 <= i < ss.len() && needs_rescue(#[trigger] ss[i], already) implies exists|k: int|
            0 <= k < acts.len() && acts[k].0 == ss[i].name@ by {
            if i < ss.len() - 1 {
                assert(prev[i] == ss[i]);
                let k = choose|k: int|
                    0 <= k < stub_actions(prev, already, images, dummy).len() && stub_actions(prev, already, images, dummy)[k].0
                        == prev[i].name@;
                assert(acts[k] == stub_actions(prev, already, images, dummy)[k]);
            } else {
                assert(acts[acts.len() - 1].0 == ss[i].name@);
            }
        }
    } else {
        assert(ss.filter(f) =~= Seq::<ContainerStatus>::empty());
    }
}


/// Stubbed containers get the frontend dummy exactly when the pod's
/// `stubby.io/type` is `frontend`, and the backend dummy otherwise.
pub proof fn law_dummy_follows_type(ann: Map<Seq<char>, Seq<char>>, cfg: RescueConfig)
    ensures
        dummy_for(ann, cfg) == (if ann.contains_key("stubby.io/type"@) && ann["stubby.io/type"@] == "frontend"@ {
            cfg.frontend_image@
        } else {
            cfg.backend_image@
        }),
{
}

} // verus!
