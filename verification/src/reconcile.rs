//! Decisions of the auto-rescue controller's reconcile step, and the patches it
//! applies.
//!
//! [`plan_action`] chooses stub, revert or nothing from inputs gathered from
//! the cluster: the stub candidates, the recorded originals, and whether each
//! original image is available in its registry.
use vstd::prelude::*;
use crate::json::{Json, JsonView, items_view, obj1, obj2};
use crate::jsonparse::json_string_map_text;
use crate::pod::{Pod, annotations_of};
use crate::rescue::{encode_original_images, decoded_originals};
use crate::decision::{RescueConfig, containers_to_stub, stub_actions, pod_statuses, originals_of, pod_spec_images, dummy_for, rescued_originals};
use crate::strmap::{StrMap, keys_sorted, pairs_map, pairs_of};
use crate::text::str_eq;

verus! {

/// What a reconcile does to a pod.
#[derive(Debug)]
pub enum Plan {
    /// (container_name, original_image, dummy_image) triples to stub.
    Stub(Vec<(String, String, String)>),
    /// (container_name, original_image) pairs to restore.
    Revert(Vec<(String, String)>),
    Nothing,
}

pub enum PlanView {
    Stub(Seq<(Seq<char>, Seq<char>, Seq<char>)>),
    Revert(Seq<(Seq<char>, Seq<char>)>),
    Nothing,
}

pub open spec fn triples_view(v: Seq<(String, String, String)>) -> Seq<(Seq<char>, Seq<char>, Seq<char>)> {
    v.map_values(|t: (String, String, String)| (t.0@, t.1@, t.2@))
}

pub open spec fn couples_view(v: Seq<(String, String)>) -> Seq<(Seq<char>, Seq<char>)> {
    v.map_values(|t: (String, String)| (t.0@, t.1@))
}

impl View for Plan {
    type V = PlanView;

    open spec fn view(&self) -> PlanView {
        match self {
            Plan::Stub(v) => PlanView::Stub(triples_view(v@)),
            Plan::Revert(v) => PlanView::Revert(couples_view(v@)),
            Plan::Nothing => PlanView::Nothing,
        }
    }
}

/// Every recorded original image is known to be available.
pub open spec fn all_available(rescued: Seq<(Seq<char>, Seq<char>)>, availability: Map<Seq<char>, bool>) -> bool {
    forall|i: int|
        0 <= i < rescued.len() ==> #[trigger] availability.contains_key(rescued[i].1)
            && availability[rescued[i].1]
}

/// The plan for the given inputs. Stubbing wins over reverting, so a newly
/// failing container is rescued even while others wait to be restored; a
/// revert restores all recorded originals at once, and only when every one of
/// them is available.
pub open spec fn spec_plan(
    candidates: Seq<(Seq<char>, Seq<char>, Seq<char>)>,
    rescued: Seq<(Seq<char>, Seq<char>)>,
    availability: Map<Seq<char>, bool>,
) -> PlanView {
    if candidates.len() > 0 {
        PlanView::Stub(candidates)
    } else if rescued.len() == 0 {
        PlanView::Nothing
    } else if all_available(rescued, availability) {
        PlanView::Revert(rescued)
    } else {
        PlanView::Nothing
    }
}

/// Chooses stub, revert or nothing. `rescued` is walked in ascending key order.
#[verifier::spinoff_prover]
pub fn plan_action(
    stub_candidates: &Vec<(String, String, String)>,
    rescued: &StrMap<String>,
    availability: &StrMap<bool>,
) -> (p: Plan)
    ensures
        p@ == spec_plan(triples_view(stub_candidates@), rescued.pairs(), availability@),
{
    if stub_candidates.len() > 0 {
        let mut v: Vec<(String, String, String)> = Vec::new();
        let mut i: usize = 0;
        while i < stub_candidates.len()
            invariant
                i <= stub_candidates@.len(),
                triples_view(v@) == triples_view(stub_candidates@).take(i as int),
            decreases stub_candidates@.len() - i,
        {
            let t = &stub_candidates[i];
            let a = t.0.clone();
            let b = t.1.clone();
            let c = t.2.clone();
            let ghost before = v@;
            v.push((a, b, c));
            proof {
                assert(v@ == before.push((a, b, c)));
                assert(triples_view(v@) =~= triples_view(before).push((a@, b@, c@)));
                assert(triples_view(stub_candidates@)[i as int] == (t.0@, t.1@, t.2@));
                assert(triples_view(v@) =~= triples_view(stub_candidates@).take(i + 1));
            }
            i += 1;
        }
        assert(triples_view(stub_candidates@).take(i as int) =~= triples_view(stub_candidates@));
        return Plan::Stub(v);
    }
    let entries = rescued.entries();
    if entries.len() == 0 {
        return Plan::Nothing;
    }
    let mut out: Vec<(String, String)> = Vec::new();
    let mut i: usize = 0;
    while i < entries.len()
        invariant
            i <= entries@.len(),
            pairs_of(entries@) == rescued.pairs(),
            stub_candidates@.len() == 0,
            rescued.pairs().len() > 0,
            couples_view(out@) == rescued.pairs().take(i as int),
            all_available(rescued.pairs().take(i as int), availability@),
        decreases entries@.len() - i,
    {
        let (name, img) = &entries[i];
        proof {
            assert(rescued.pairs()[i as int] == (name@, img@));
        }
        let ok = match availability.get(img.as_str()) {
            Some(b) => *b,
            None => false,
        };
        if !ok {
            assert(!all_available(rescued.pairs(), availability@)) by {
                assert(rescued.pairs()[i as int].1 == img@);
            }
            return Plan::Nothing;
        }
        let a = name.clone();
        let b = img.clone();
        let ghost before = out@;
        out.push((a, b));
        proof {
            assert(out@ == before.push((a, b)));
            assert(couples_view(out@) =~= couples_view(before).push((a@, b@)));
            assert(couples_view(out@) =~= rescued.pairs().take(i + 1));
            assert forall|k: int| 0 <= k < i + 1 implies #[trigger] availability@.contains_key(
                rescued.pairs().take(i + 1)[k].1,
            ) && availability@[rescued.pairs().take(i + 1)[k].1] by {
                if k < i {
                    assert(rescued.pairs().take(i + 1)[k] == rescued.pairs().take(i as int)[k]);
                }
            }
        }
        i += 1;
    }
    assert(rescued.pairs().take(i as int) =~= rescued.pairs());
    Plan::Revert(out)
}

/// The stub candidates of a pod as (container name, original image, dummy
/// image) triples, in container-status order.
pub fn stub_candidates(pod: &Pod, cfg: &RescueConfig) -> (v: Vec<(String, String, String)>)
    ensures
        triples_view(v@) == stub_actions(
            pod_statuses(*pod),
            originals_of(*pod),
            pod_spec_images(*pod),
            dummy_for(annotations_of(*pod), *cfg),
        ),
{
    let actions = containers_to_stub(pod, cfg);
    let ghost target = stub_actions(
        pod_statuses(*pod),
        originals_of(*pod),
        pod_spec_images(*pod),
        dummy_for(annotations_of(*pod), *cfg),
    );
    let mut v: Vec<(String, String, String)> = Vec::new();
    let mut i: usize = 0;
    while i < actions.len()
        invariant
            i <= actions@.len(),
            crate::decision::actions_view(actions@) == target,
            triples_view(v@) == target.take(i as int),
        decreases actions@.len() - i,
    {
        let a = &actions[i];
        let t = (a.name.clone(), a.original_image.clone(), a.dummy_image.clone());
        let ghost before = v@;
        v.push(t);
        proof {
            assert(v@ == before.push(t));
            assert(triples_view(v@) =~= triples_view(before).push((t.0@, t.1@, t.2@)));
            assert(target[i as int] == crate::decision::action_view(*a));
            assert(triples_view(v@) =~= target.take(i + 1));
        }
        i += 1;
    }
    assert(target.take(i as int) =~= target);
    v
}

/// Whether the pod opted into auto-rescue (`stubby.io/auto-rescue: "true"`).
pub fn rescue_opted_in(pod: &Pod) -> (b: bool)
    ensures
        b == (annotations_of(*pod).contains_key("stubby.io/auto-rescue"@)
            && annotations_of(*pod)["stubby.io/auto-rescue"@] == "true"@),
{
    match &pod.annotations {
        Some(a) => match a.get("stubby.io/auto-rescue") {
            Some(v) => str_eq(v.as_str(), "true"),
            None => false,
        },
        None => false,
    }
}

/// The images whose availability the registry must be asked about: the
/// recorded originals (in key order) when nothing is to be stubbed, else none.
pub fn images_to_check(candidates: &Vec<(String, String, String)>, rescued: &StrMap<String>) -> (v: Vec<String>)
    ensures
        v@.map_values(|s: String| s@) == (if candidates@.len() == 0 {
            rescued.pairs().map_values(|e: (Seq<char>, Seq<char>)| e.1)
        } else {
            Seq::empty()
        }),
{
    let mut v: Vec<String> = Vec::new();
    if candidates.len() > 0 {
        assert(v@.map_values(|s: String| s@) =~= Seq::<Seq<char>>::empty());
        return v;
    }
    let entries = rescued.entries();
    let mut i: usize = 0;
    while i < entries.len()
        invariant
            i <= entries@.len(),
            pairs_of(entries@) == rescued.pairs(),
            v@.map_values(|s: String| s@) == rescued.pairs().take(i as int).map_values(
                |e: (Seq<char>, Seq<char>)| e.1,
            ),
        decreases entries@.len() - i,
    {
        proof {
            assert(rescued.pairs()[i as int] == (entries@[i as int].0@, entries@[i as int].1@));
        }
        let x = entries[i].1.clone();
        let ghost before = v@;
        v.push(x);
        proof {
            assert(v@ == before.push(x));
            assert(v@.map_values(|s: String| s@) =~= before.map_values(|s: String| s@).push(x@));
            assert(v@.map_values(|s: String| s@) =~= rescued.pairs().take(i + 1).map_values(
                |e: (Seq<char>, Seq<char>)| e.1,
            ));
        }
        i += 1;
    }
    assert(rescued.pairs().take(i as int) =~= rescued.pairs());
    v
}


/// The originals map after recording `items`: each (name, original, dummy)
/// stores `original` under `name`, in order.
pub open spec fn merged_originals(m: Map<Seq<char>, Seq<char>>, items: Seq<(Seq<char>, Seq<char>, Seq<char>)>) -> Map<
    Seq<char>,
    Seq<char>,
>
    decreases items.len(),
{
    if items.len() == 0 {
        m
    } else {
        merged_originals(m, items.drop_last()).insert(items.last().0, items.last().1)
    }
}

/// `{"image": image, "name": name}`.
pub open spec fn container_image_json(name: Seq<char>, image: Seq<char>) -> JsonView {
    JsonView::Obj(seq![("image"@, JsonView::Str(image)), ("name"@, JsonView::Str(name))])
}

/// `{"metadata": {"annotations": annotations}, "spec": {"containers": containers}}`.
pub open spec fn merge_patch_json(annotations: JsonView, containers: Seq<JsonView>) -> JsonView {
    JsonView::Obj(
        seq![
            ("metadata"@, JsonView::Obj(seq![("annotations"@, annotations)])),
            ("spec"@, JsonView::Obj(seq![("containers"@, JsonView::Arr(containers))])),
        ],
    )
}

/// The strategic-merge patch that stubs `items`: each container's image set to
/// its dummy, the merged originals recorded (`q` is their pairs in key order),
/// and the stub time `rescued_at`.
pub open spec fn stub_patch_json(
    q: Seq<(Seq<char>, Seq<char>)>,
    items: Seq<(Seq<char>, Seq<char>, Seq<char>)>,
    rescued_at: Seq<char>,
) -> JsonView {
    merge_patch_json(
        JsonView::Obj(
            seq![
                ("stubby.io/original-image"@, JsonView::Str(json_string_map_text(q))),
                ("stubby.io/rescued-at"@, JsonView::Str(rescued_at)),
            ],
        ),
        items.map_values(|t: (Seq<char>, Seq<char>, Seq<char>)| container_image_json(t.0, t.2)),
    )
}

/// The strategic-merge patch that restores `items` and deletes the controller's
/// annotations (`null` removes a key in a merge patch).
pub open spec fn revert_patch_json(items: Seq<(Seq<char>, Seq<char>)>) -> JsonView {
    merge_patch_json(
        JsonView::Obj(
            seq![
                ("stubby.io/original-image"@, JsonView::Null),
                ("stubby.io/rescued-at"@, JsonView::Null),
            ],
        ),
        restored_containers(items),
    )
}

/// The containers of a revert patch: each named container back on its image.
pub open spec fn restored_containers(items: Seq<(Seq<char>, Seq<char>)>) -> Seq<JsonView> {
    items.map_values(|t: (Seq<char>, Seq<char>)| container_image_json(t.0, t.1))
}

fn container_image(name: &String, image: &String) -> (j: Json)
    ensures
        j@ == container_image_json(name@, image@),
{
    obj2("image", Json::Str(image.clone()), "name", Json::Str(name.clone()))
}

/// The current time in RFC 3339 (`chrono::Utc::now().to_rfc3339()`):
/// fractional seconds in groups of three digits as needed, and the UTC offset
/// written `+00:00`, as chrono writes a fixed offset without `Z`. The time is
/// the clock's, so of the text only the offset suffix is stated.
#[verifier::external_body]
fn now_rfc3339() -> (t: String)
    ensures
        t@.len() >= 6 && t@.skip(t@.len() - 6) == "+00:00"@,
{
    chrono::Utc::now().to_rfc3339()
}

/// The stub patch, stamped with the time `rescued_at`.
pub fn build_stub_patch_at(
    originals: &StrMap<String>,
    items: &Vec<(String, String, String)>,
    rescued_at: String,
) -> (j: Json)
    ensures
        exists|q: Seq<(Seq<char>, Seq<char>)>|
            keys_sorted(q) && pairs_map(q) == merged_originals(originals@, triples_view(items@))
                && decoded_originals(Some(json_string_map_text(q))) == merged_originals(
                originals@,
                triples_view(items@),
            ) && j@ == stub_patch_json(q, triples_view(items@), rescued_at@),
{
    let mut merged: StrMap<String> = StrMap::new();
    let entries = originals.entries();
    let mut i: usize = 0;
    while i < entries.len()
        invariant
            i <= entries@.len(),
            pairs_of(entries@) == originals.pairs(),
            merged@ == pairs_map(originals.pairs().take(i as int)),
        decreases entries@.len() - i,
    {
        proof {
            assert(originals.pairs().take(i + 1).drop_last() =~= originals.pairs().take(i as int));
            assert(originals.pairs()[i as int] == (entries@[i as int].0@, entries@[i as int].1@));
        }
        merged.insert(entries[i].0.clone(), entries[i].1.clone());
        i += 1;
    }
    assert(originals.pairs().take(i as int) =~= originals.pairs());
    let ghost tv = triples_view(items@);
    let mut containers: Vec<Json> = Vec::new();
    let mut k: usize = 0;
    while k < items.len()
        invariant
            k <= items@.len(),
            tv == triples_view(items@),
            originals@ == pairs_map(originals.pairs()),
            merged@ == merged_originals(originals@, tv.take(k as int)),
            items_view(containers@) == tv.take(k as int).map_values(
                |t: (Seq<char>, Seq<char>, Seq<char>)| container_image_json(t.0, t.2),
            ),
        decreases items@.len() - k,
    {
        let (cname, orig, dummy) = &items[k];
        proof {
            assert(tv.take(k + 1).drop_last() =~= tv.take(k as int));
            assert(tv[k as int] == (cname@, orig@, dummy@));
        }
        merged.insert(cname.clone(), orig.clone());
        let ghost before = containers@;
        let c = container_image(cname, dummy);
        containers.push(c);
        proof {
            assert(containers@.drop_last() =~= before);
            assert(items_view(containers@) =~= tv.take(k + 1).map_values(
                |t: (Seq<char>, Seq<char>, Seq<char>)| container_image_json(t.0, t.2),
            ));
        }
        k += 1;
    }
    assert(tv.take(k as int) =~= tv);
    let encoded = encode_original_images(&merged);
    let ghost q = merged.pairs();
    let annotations = obj2(
        "stubby.io/original-image",
        Json::Str(encoded),
        "stubby.io/rescued-at",
        Json::Str(rescued_at),
    );
    let spec = obj1("containers", Json::Arr(containers));
    let j = obj2("metadata", obj1("annotations", annotations), "spec", spec);
    assert(j@ == stub_patch_json(q, tv, rescued_at@));
    j
}

/// The strategic-merge patch that stubs `items` (container name, original
/// image, dummy image) and records the merged originals map, stamped with the
/// current time in RFC 3339 with offset `+00:00`.
pub fn build_stub_patch(originals: &StrMap<String>, items: &Vec<(String, String, String)>) -> (j: Json)
    ensures
        exists|q: Seq<(Seq<char>, Seq<char>)>, t: Seq<char>|
            t.len() >= 6 && t.skip(t.len() - 6) == "+00:00"@ && keys_sorted(q) && pairs_map(q)
                == merged_originals(originals@, triples_view(items@))
                && decoded_originals(Some(json_string_map_text(q))) == merged_originals(
                originals@,
                triples_view(items@),
            ) && j@ == stub_patch_json(q, triples_view(items@), t),
{
    let now = now_rfc3339();
    build_stub_patch_at(originals, items, now)
}

/// The strategic-merge patch that restores `items` (container name, original
/// image) and deletes the controller's annotations.
pub fn build_revert_patch(items: &Vec<(String, String)>) -> (j: Json)
    ensures
        j@ == revert_patch_json(couples_view(items@)),
{
    let ghost cv = couples_view(items@);
    let mut containers: Vec<Json> = Vec::new();
    let mut k: usize = 0;
    while k < items.len()
        invariant
            k <= items@.len(),
            cv == couples_view(items@),
            items_view(containers@) == cv.take(k as int).map_values(
                |t: (Seq<char>, Seq<char>)| container_image_json(t.0, t.1),
            ),
        decreases items@.len() - k,
    {
        let (cname, orig) = &items[k];
        proof {
            assert(cv[k as int] == (cname@, orig@));
        }
        let ghost before = containers@;
        let c = container_image(cname, orig);
        containers.push(c);
        proof {
            assert(containers@.drop_last() =~= before);
            assert(items_view(containers@) =~= cv.take(k + 1).map_values(
                |t: (Seq<char>, Seq<char>)| container_image_json(t.0, t.1),
            ));
        }
        k += 1;
    }
    assert(cv.take(k as int) =~= cv);
    let annotations = obj2("stubby.io/original-image", Json::Null, "stubby.io/rescued-at", Json::Null);
    let spec = obj1("containers", Json::Arr(containers));
    obj2("metadata", obj1("annotations", annotations), "spec", spec)
}


/// Whether a pod opted into auto-rescue.
pub open spec fn opted_in(p: Pod) -> bool {
    annotations_of(p).contains_key("stubby.io/auto-rescue"@) && annotations_of(p)["stubby.io/auto-rescue"@]
        == "true"@
}

/// The stub candidates of a pod, as (name, original, dummy) triples.
pub open spec fn spec_candidates(p: Pod, cfg: RescueConfig) -> Seq<(Seq<char>, Seq<char>, Seq<char>)> {
    stub_actions(pod_statuses(p), originals_of(p), pod_spec_images(p), dummy_for(annotations_of(p), cfg))
}

/// The images the registry is asked about before a reconcile decides: none
/// for a pod that did not opt in; otherwise the recorded originals, in key
/// order, when nothing is to be stubbed.
pub fn images_needed(pod: &Pod, cfg: &RescueConfig) -> (v: Vec<String>)
    ensures
        !opted_in(*pod) ==> v@.len() == 0,
        opted_in(*pod) ==> exists|q: Seq<(Seq<char>, Seq<char>)>|
            keys_sorted(q) && pairs_map(q) == originals_of(*pod) && v@.map_values(|s: String| s@) == (if spec_candidates(
                *pod,
                *cfg,
            ).len() == 0 {
                q.map_values(|e: (Seq<char>, Seq<char>)| e.1)
            } else {
                Seq::empty()
            }),
{
    if !rescue_opted_in(pod) {
        return Vec::new();
    }
    let candidates = stub_candidates(pod, cfg);
    let rescued = rescued_originals(pod);
    // the entries call states that the map is its key-ordered pairs
    let _ = rescued.entries();
    let v = images_to_check(&candidates, &rescued);
    proof {
        assert(triples_view(candidates@).len() == candidates@.len());
    }
    v
}

/// What one reconcile does with a pod, once the registry has answered.
#[derive(Debug)]
pub enum ReconcileStep {
    /// The pod did not opt in: nothing is written, nothing is counted, and
    /// the pod is looked at again on its next change.
    Ignore,
    /// Send this stub patch, count one stub, look again after the interval.
    Stub(Json),
    /// Send this revert patch, count one revert, look again after the interval.
    Revert(Json),
    /// Nothing to do; look again after the interval.
    Wait,
}

/// `r` carries out `plan` for a pod whose recorded originals are `originals`:
/// a stub plan gives the stub patch for its items, recording the originals
/// merged with them (`q2`, in key order) and stamped with a time `t` whose
/// offset is `+00:00`; a revert plan gives the revert patch for its items;
/// no plan gives `Wait`.
pub open spec fn step_follows(plan: PlanView, originals: Map<Seq<char>, Seq<char>>, r: ReconcileStep) -> bool {
    match plan {
        PlanView::Stub(items) => r matches ReconcileStep::Stub(j) && exists|
            q2: Seq<(Seq<char>, Seq<char>)>,
            t: Seq<char>,
        |
            t.len() >= 6 && t.skip(t.len() - 6) == "+00:00"@ && keys_sorted(q2) && pairs_map(q2)
                == merged_originals(originals, items) && decoded_originals(Some(json_string_map_text(q2)))
                == merged_originals(originals, items) && j@ == stub_patch_json(q2, items, t),
        PlanView::Revert(items) => r matches ReconcileStep::Revert(j) && j@ == revert_patch_json(items),
        PlanView::Nothing => r is Wait,
    }
}

/// The decision of one reconcile of `pod`, given the registry's answers
/// `availability` for the images [`images_needed`] lists: ignore a pod that
/// did not opt in; otherwise follow [`spec_plan`] over the stub candidates,
/// the recorded originals (`q`, in key order) and the answers, with the stub
/// patch recording the merged originals and the revert patch restoring them.
pub fn reconcile_step(pod: &Pod, cfg: &RescueConfig, availability: &StrMap<bool>) -> (r: ReconcileStep)
    ensures
        !opted_in(*pod) ==> r is Ignore,
        opted_in(*pod) ==> exists|q: Seq<(Seq<char>, Seq<char>)>|
            keys_sorted(q) && pairs_map(q) == originals_of(*pod) && step_follows(
                spec_plan(spec_candidates(*pod, *cfg), q, availability@),
                originals_of(*pod),
                r,
            ),
{
    if !rescue_opted_in(pod) {
        return ReconcileStep::Ignore;
    }
    let candidates = stub_candidates(pod, cfg);
    let rescued = rescued_originals(pod);
    // the entries call states that the map is its key-ordered pairs
    let _ = rescued.entries();
    let plan = plan_action(&candidates, &rescued, availability);
    match plan {
        Plan::Stub(items) => {
            let j = build_stub_patch(&rescued, &items);
            let r = ReconcileStep::Stub(j);
            proof {
                assert(step_follows(
                    spec_plan(spec_candidates(*pod, *cfg), rescued.pairs(), availability@),
                    originals_of(*pod),
                    r,
                ));
            }
            r
        },
        Plan::Revert(items) => {
            let j = build_revert_patch(&items);
            ReconcileStep::Revert(j)
        },
        Plan::Nothing => ReconcileStep::Wait,
    }
}

/// The `.dockerconfigjson` payloads of the pull secrets that were read, in
/// order: a secret that could not be read (`None`), or whose data has no such
/// key, contributes nothing.
pub open spec fn spec_dockerconfigs(secrets: Seq<Option<Map<Seq<char>, Seq<u8>>>>) -> Seq<Seq<u8>>
    decreases secrets.len(),
{
    if secrets.len() == 0 {
        Seq::empty()
    } else {
        let prev = spec_dockerconfigs(secrets.drop_last());
        match secrets.last() {
            Some(m) => if m.contains_key(".dockerconfigjson"@) {
                prev.push(m[".dockerconfigjson"@])
            } else {
                prev
            },
            None => prev,
        }
    }
}

pub open spec fn secrets_view(v: Seq<Option<StrMap<Vec<u8>>>>) -> Seq<Option<Map<Seq<char>, Seq<u8>>>> {
    v.map_values(|o: Option<StrMap<Vec<u8>>>| match o {
        Some(m) => Some(m@),
        None => None,
    })
}

/// Picks the `.dockerconfigjson` payload of each pull secret that was read
/// (`None` where reading the secret failed); missing secrets and secrets
/// without the key are skipped.
pub fn dockerconfig_payloads(secrets: &Vec<Option<StrMap<Vec<u8>>>>) -> (r: Vec<Vec<u8>>)
    ensures
        r@.map_values(|b: Vec<u8>| b@) == spec_dockerconfigs(secrets_view(secrets@)),
{
    let ghost sv = secrets_view(secrets@);
    let mut out: Vec<Vec<u8>> = Vec::new();
    let mut i: usize = 0;
    while i < secrets.len()
        invariant
            i <= secrets@.len(),
            sv == secrets_view(secrets@),
            out@.map_values(|b: Vec<u8>| b@) == spec_dockerconfigs(sv.take(i as int)),
        decreases secrets@.len() - i,
    {
        proof {
            assert(sv.take(i + 1).drop_last() =~= sv.take(i as int));
            assert(sv.take(i + 1).last() == sv[i as int]);
        }
        match &secrets[i] {
            Some(m) => {
                match m.get(".dockerconfigjson") {
                    Some(bytes) => {
                        let b = bytes.clone();
                        let ghost before = out@;
                        assert(b@ =~= bytes@);
                        out.push(b);
                        assert(out@.map_values(|x: Vec<u8>| x@) =~= before.map_values(|x: Vec<u8>| x@).push(b@));
                    },
                    None => {},
                }
            },
            None => {},
        }
        i += 1;
    }
    assert(sv.take(i as int) =~= sv);
    out
}

/// The pull-secret names a pod references.
pub open spec fn secret_refs(p: Pod) -> Seq<Seq<char>> {
    match p.spec {
        Some(s) => match s.image_pull_secrets {
            Some(v) => v@.map_values(|n: String| n@),
            None => Seq::empty(),
        },
        None => Seq::empty(),
    }
}

/// The pod's pull-secret names, sorted and without repeats: each is read once.
pub fn pull_secret_names(pod: &Pod) -> (v: Vec<String>)
    ensures
        forall|i: int, j: int|
            0 <= i < j < v@.len() ==> crate::strmap::str_lt(#[trigger] v@[i]@, #[trigger] v@[j]@),
        forall|x: Seq<char>|
            (exists|i: int| 0 <= i < v@.len() && #[trigger] v@[i]@ == x) <==> secret_refs(*pod).contains(x),
{
    let mut set: StrMap<bool> = StrMap::new();
    let ghost refs = secret_refs(*pod);
    if let Some(spec) = &pod.spec {
        if let Some(names) = &spec.image_pull_secrets {
            let mut i: usize = 0;
            while i < names.len()
                invariant
                    i <= names@.len(),
                    refs == names@.map_values(|n: String| n@),
                    forall|x: Seq<char>| #[trigger] set@.contains_key(x) <==> refs.take(i as int).contains(x),
                decreases names@.len() - i,
            {
                set.insert(names[i].clone(), true);
                proof {
                    assert(refs[i as int] == names@[i as int]@);
                    assert forall|x: Seq<char>| #[trigger] set@.contains_key(x) <==> refs.take(i + 1).contains(x) by {
                        if refs.take(i + 1).contains(x) {
                            let k = choose|k: int| 0 <= k < i + 1 && #[trigger] refs.take(i + 1)[k] == x;
                            if k < i {
                                assert(refs.take(i as int)[k] == x);
                            }
                        }
                        if refs.take(i as int).contains(x) {
                            let k = choose|k: int| 0 <= k < i && #[trigger] refs.take(i as int)[k] == x;
                            assert(refs.take(i + 1)[k] == x);
                        }
                        if x == names@[i as int]@ {
                            assert(refs.take(i + 1)[i as int] == x);
                        }
                    }
                }
                i += 1;
            }
            assert(refs.take(i as int) =~= refs);
        }
    }
    assert(forall|x: Seq<char>| #[trigger] set@.contains_key(x) <==> refs.contains(x));
    let entries = set.entries();
    proof {
        crate::strmap::lemma_pairs_map(set.pairs());
    }
    let mut v: Vec<String> = Vec::new();
    let mut k: usize = 0;
    while k < entries.len()
        invariant
            k <= entries@.len(),
            pairs_of(entries@) == set.pairs(),
            keys_sorted(set.pairs()),
            v@.len() == k,
            forall|j: int| 0 <= j < k ==> #[trigger] v@[j]@ == set.pairs()[j].0,
        decreases entries@.len() - k,
    {
        proof {
            assert(set.pairs()[k as int].0 == entries@[k as int].0@);
        }
        v.push(entries[k].0.clone());
        k += 1;
    }
    proof {
        assert forall|x: Seq<char>|
            (exists|i: int| 0 <= i < v@.len() && #[trigger] v@[i]@ == x) <==> secret_refs(*pod).contains(x) by {
            if exists|i: int| 0 <= i < v@.len() && #[trigger] v@[i]@ == x {
                let i = choose|i: int| 0 <= i < v@.len() && #[trigger] v@[i]@ == x;
                assert(set@.contains_key(set.pairs()[i].0));
            }
            if secret_refs(*pod).contains(x) {
                assert(set@.contains_key(x));
                let i = choose|i: int| 0 <= i < set.pairs().len() && #[trigger] set.pairs()[i].0 == x;
                assert(v@[i]@ == x);
            }
        }
    }
    v
}

/// Stubbing wins over reverting: when any container is failing to pull, the
/// plan stubs exactly the candidates, whatever is recorded or available.
pub proof fn law_stub_wins(
    candidates: Seq<(Seq<char>, Seq<char>, Seq<char>)>,
    rescued: Seq<(Seq<char>, Seq<char>)>,
    availability: Map<Seq<char>, bool>,
)
    requires
        candidates.len() > 0,
    ensures
        spec_plan(candidates, rescued, availability) == PlanView::Stub(candidates),
{
}

/// A revert happens only when nothing is to be stubbed and every recorded
/// original is known to be available, and it restores all of them at once.
pub proof fn law_revert_only_when_all_available(
    candidates: Seq<(Seq<char>, Seq<char>, Seq<char>)>,
    rescued: Seq<(Seq<char>, Seq<char>)>,
    availability: Map<Seq<char>, bool>,
)
    ensures
        spec_plan(candidates, rescued, availability) is Revert <==> (candidates.len() == 0 && rescued.len() > 0
            && all_available(rescued, availability)),
        spec_plan(candidates, rescued, availability) matches PlanView::Revert(items) ==> items == rescued,
        (candidates.len() == 0 && rescued.len() > 0 && (exists|i: int|
            0 <= i < rescued.len() && !(#[trigger] availability.contains_key(rescued[i].1) && availability[rescued[i].1])))
            ==> spec_plan(candidates, rescued, availability) == PlanView::Nothing,
{
}

/// A pod with nothing failing and nothing recorded is left alone.
pub proof fn law_idle_pod_left_alone(availability: Map<Seq<char>, bool>)
    ensures
        spec_plan(Seq::empty(), Seq::empty(), availability) == PlanView::Nothing,
{
}

/// Stubbing more containers never loses what an earlier stub recorded: the
/// merged originals keep every earlier entry that is not stubbed again, add
/// one for each stubbed container, and hold nothing else.
pub proof fn law_stub_keeps_recorded_originals(
    m: Map<Seq<char>, Seq<char>>,
    items: Seq<(Seq<char>, Seq<char>, Seq<char>)>,
)
    ensures
        forall|i: int| 0 <= i < items.len() ==> #[trigger] merged_originals(m, items).contains_key(items[i].0),
        forall|k: Seq<char>|
            #[trigger] m.contains_key(k) && (forall|i: int| 0 <= i < items.len() ==> items[i].0 != k)
                ==> merged_originals(m, items).contains_key(k) && merged_originals(m, items)[k] == m[k],
        forall|k: Seq<char>|
            #[trigger] merged_originals(m, items).contains_key(k) ==> m.contains_key(k) || exists|i: int|
                0 <= i < items.len() && items[i].0 == k,
    decreases items.len(),
{
    if items.len() > 0 {
        let prev = items.drop_last();
        law_stub_keeps_recorded_originals(m, prev);
        assert forall|i: int| 0 <= i < items.len() implies #[trigger] merged_originals(m, items).contains_key(
            items[i].0,
        ) by {
            if i < items.len() - 1 {
                assert(prev[i] == items[i]);
                assert(merged_originals(m, prev).contains_key(prev[i].0));
            }
        }
        assert forall|k: Seq<char>|
            #[trigger] m.contains_key(k) && (forall|i: int| 0 <= i < items.len() ==> items[i].0 != k) implies merged_originals(
            m,
            items,
        ).contains_key(k) && merged_originals(m, items)[k] == m[k] by {
            assert forall|i: int| 0 <= i < prev.len() implies prev[i].0 != k by {
                assert(prev[i] == items[i]);
            }
            assert(items[items.len() - 1].0 != k);
        }
        assert forall|k: Seq<char>| #[trigger] merged_originals(m, items).contains_key(k) implies m.contains_key(k)
            || exists|i: int| 0 <= i < items.len() && items[i].0 == k by {
            if k != items.last().0 && !m.contains_key(k) {
                assert(merged_originals(m, prev).contains_key(k));
                let i = choose|i: int| 0 <= i < prev.len() && prev[i].0 == k;
                assert(items[i] == prev[i]);
            } else if k == items.last().0 {
                assert(items[items.len() - 1].0 == k);
            }
        }
    }
}

/// The last stub of a container is what the merged originals hold for it.
proof fn lemma_merged_last(
    m: Map<Seq<char>, Seq<char>>,
    items: Seq<(Seq<char>, Seq<char>, Seq<char>)>,
    i: int,
)
    requires
        0 <= i < items.len(),
        forall|j: int| i < j < items.len() ==> #[trigger] items[j].0 != items[i].0,
    ensures
        merged_originals(m, items).contains_key(items[i].0),
        merged_originals(m, items)[items[i].0] == items[i].1,
    decreases items.len(),
{
    if i < items.len() - 1 {
        let prev = items.drop_last();
        assert(items[items.len() - 1].0 != items[i].0);
        assert forall|j: int| i < j < prev.len() implies #[trigger] prev[j].0 != prev[i].0 by {
            assert(prev[j] == items[j]);
            assert(prev[i] == items[i]);
        }
        lemma_merged_last(m, prev, i);
        assert(prev[i] == items[i]);
    }
}

/// Reverting after a stub restores each stubbed container's original image:
/// once every recorded original is available, the plan reverts exactly the
/// recorded pairs, and the revert patch puts every stubbed container back on
/// the original image its last stub recorded.
pub proof fn law_revert_restores_stubbed(
    m: Map<Seq<char>, Seq<char>>,
    items: Seq<(Seq<char>, Seq<char>, Seq<char>)>,
    q: Seq<(Seq<char>, Seq<char>)>,
    availability: Map<Seq<char>, bool>,
)
    requires
        keys_sorted(q),
        pairs_map(q) == merged_originals(m, items),
        all_available(q, availability),
    ensures
        items.len() > 0 ==> spec_plan(Seq::empty(), q, availability) == PlanView::Revert(q),
        forall|i: int|
            #![trigger items[i]]
            0 <= i < items.len() && (forall|j: int| i < j < items.len() ==> #[trigger] items[j].0 != items[i].0)
                ==> exists|k: int|
                0 <= k < q.len() && q[k] == (items[i].0, items[i].1) && #[trigger] restored_containers(q)[k]
                    == container_image_json(items[i].0, items[i].1),
{
    crate::strmap::lemma_pairs_map(q);
    if items.len() > 0 {
        law_stub_keeps_recorded_originals(m, items);
        assert(merged_originals(m, items).contains_key(items[0].0));
        assert(q.len() > 0);
    }
    assert forall|i: int|
        #![trigger items[i]]
        0 <= i < items.len() && (forall|j: int| i < j < items.len() ==> #[trigger] items[j].0 != items[i].0)
            implies exists|k: int|
            0 <= k < q.len() && q[k] == (items[i].0, items[i].1) && #[trigger] restored_containers(q)[k]
                == container_image_json(items[i].0, items[i].1) by {
        lemma_merged_last(m, items, i);
        assert(pairs_map(q).contains_key(items[i].0));
        let k = choose|k: int| 0 <= k < q.len() && q[k].0 == items[i].0;
        assert(pairs_map(q)[q[k].0] == q[k].1);
        assert(q[k] == (items[i].0, items[i].1));
        assert(restored_containers(q)[k] == container_image_json(q[k].0, q[k].1));
    }
}

/// Stub, then revert, end to end: what the controller reads back from the
/// stub patch's `original-image` record is the stub's own sorted pair list;
/// once each recorded original is available the plan reverts exactly those
/// pairs; and the revert patch is the merge patch that nulls both controller
/// annotations and lists each container on its recorded image, so every
/// stubbed container gets back the original its last stub recorded.
pub proof fn law_revert_after_stub(
    m: Map<Seq<char>, Seq<char>>,
    items: Seq<(Seq<char>, Seq<char>, Seq<char>)>,
    q_stub: Seq<(Seq<char>, Seq<char>)>,
    q_read: Seq<(Seq<char>, Seq<char>)>,
    availability: Map<Seq<char>, bool>,
)
    requires
        keys_sorted(q_stub),
        pairs_map(q_stub) == merged_originals(m, items),
        decoded_originals(Some(json_string_map_text(q_stub))) == merged_originals(m, items),
        keys_sorted(q_read),
        pairs_map(q_read) == decoded_originals(Some(json_string_map_text(q_stub))),
        all_available(q_read, availability),
    ensures
        q_read == q_stub,
        items.len() > 0 ==> spec_plan(Seq::empty(), q_read, availability) == PlanView::Revert(q_read),
        revert_patch_json(q_read) == JsonView::Obj(
            seq![
                (
                    "metadata"@,
                    JsonView::Obj(
                        seq![
                            (
                                "annotations"@,
                                JsonView::Obj(
                                    seq![
                                        ("stubby.io/original-image"@, JsonView::Null),
                                        ("stubby.io/rescued-at"@, JsonView::Null),
                                    ],
                                ),
                            ),
                        ],
                    ),
                ),
                ("spec"@, JsonView::Obj(seq![("containers"@, JsonView::Arr(restored_containers(q_read)))])),
            ],
        ),
        forall|i: int|
            #![trigger items[i]]
            0 <= i < items.len() && (forall|j: int| i < j < items.len() ==> #[trigger] items[j].0 != items[i].0)
                ==> exists|k: int|
                0 <= k < q_read.len() && #[trigger] restored_containers(q_read)[k] == container_image_json(
                    items[i].0,
                    items[i].1,
                ),
{
    crate::strmap::lemma_sorted_pairs_unique(q_read, q_stub);
    law_revert_restores_stubbed(m, items, q_read, availability);
}


/// The two patches the controller sends, written out: the stub patch records
/// the originals (`q`) and the stub time under the controller's annotations
/// and sets each stubbed container, by name and in order, to its dummy image;
/// the revert patch nulls both annotations and sets each container back to
/// its original image.
pub proof fn law_patches_written_out(
    q: Seq<(Seq<char>, Seq<char>)>,
    items: Seq<(Seq<char>, Seq<char>, Seq<char>)>,
    rescued_at: Seq<char>,
    back: Seq<(Seq<char>, Seq<char>)>,
)
    ensures
        stub_patch_json(q, items, rescued_at) == JsonView::Obj(
            seq![
                (
                    "metadata"@,
                    JsonView::Obj(
                        seq![
                            (
                                "annotations"@,
                                JsonView::Obj(
                                    seq![
                                        ("stubby.io/original-image"@, JsonView::Str(json_string_map_text(q))),
                                        ("stubby.io/rescued-at"@, JsonView::Str(rescued_at)),
                                    ],
                                ),
                            ),
                        ],
                    ),
                ),
                (
                    "spec"@,
                    JsonView::Obj(
                        seq![
                            (
                                "containers"@,
                                JsonView::Arr(
                                    Seq::new(
                                        items.len(),
                                        |k: int|
                                            JsonView::Obj(
                                                seq![
                                                    ("image"@, JsonView::Str(items[k].2)),
                                                    ("name"@, JsonView::Str(items[k].0)),
                                                ],
                                            ),
                                    ),
                                ),
                            ),
                        ],
                    ),
                ),
            ],
        ),
        revert_patch_json(back) == JsonView::Obj(
            seq![
                (
                    "metadata"@,
                    JsonView::Obj(
                        seq![
                            (
                                "annotations"@,
                                JsonView::Obj(
                                    seq![
                                        ("stubby.io/original-image"@, JsonView::Null),
                                        ("stubby.io/rescued-at"@, JsonView::Null),
                                    ],
                                ),
                            ),
                        ],
                    ),
                ),
                (
                    "spec"@,
                    JsonView::Obj(
                        seq![
                            (
                                "containers"@,
                                JsonView::Arr(
                                    Seq::new(
                                        back.len(),
                                        |k: int|
                                            JsonView::Obj(
                                                seq![
                                                    ("image"@, JsonView::Str(back[k].1)),
                                                    ("name"@, JsonView::Str(back[k].0)),
                                                ],
                                            ),
                                    ),
                                ),
                            ),
                        ],
                    ),
                ),
            ],
        ),
{
    assert(items.map_values(|t: (Seq<char>, Seq<char>, Seq<char>)| container_image_json(t.0, t.2)) =~= Seq::new(
        items.len(),
        |k: int| JsonView::Obj(seq![("image"@, JsonView::Str(items[k].2)), ("name"@, JsonView::Str(items[k].0))]),
    ));
    assert(restored_containers(back) =~= Seq::new(
        back.len(),
        |k: int| JsonView::Obj(seq![("image"@, JsonView::Str(back[k].1)), ("name"@, JsonView::Str(back[k].0))]),
    ));
}

} // verus!
