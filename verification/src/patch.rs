//! The RFC 6902 JSON Patch that turns a pod into a stubby-mutated pod.
//!
//! [`build_patch`] walks the pod's containers, skipping sidecars and the
//! names in `stubby.io/skip-containers`, and overlays the dummy's image, ports,
//! probes and env on each. Optional fields use `add`, which creates a missing
//! field (RFC 6902 §4.1), where `replace` would fail on it.
use vstd::prelude::*;
use crate::annotation::{DummyType, StubbyConfig, StubbyConfigView, strings_view};
use crate::config::ImageRefs;
use crate::json::{Json, JsonView, json_view, items_view, nat_text, write_nat, obj2, obj3, arr1, arr2, jstr};
use crate::pod::{Container, Pod, PodSpec, Volume};
use crate::sidecar::{is_sidecar, is_sidecar_name};
use crate::text::{owned, push_str};

verus! {

/// One JSON Patch operation.
#[derive(Debug, PartialEq, Eq)]
pub enum PatchOp {
    Add { path: String, value: Json },
    Remove { path: String },
    Replace { path: String, value: Json },
}

pub enum PatchOpView {
    Add(Seq<char>, JsonView),
    Remove(Seq<char>),
    Replace(Seq<char>, JsonView),
}

impl View for PatchOp {
    type V = PatchOpView;

    open spec fn view(&self) -> PatchOpView {
        match self {
            PatchOp::Add { path, value } => PatchOpView::Add(path@, value@),
            PatchOp::Remove { path } => PatchOpView::Remove(path@),
            PatchOp::Replace { path, value } => PatchOpView::Replace(path@, value@),
        }
    }
}

pub open spec fn ops_view(ops: Seq<PatchOp>) -> Seq<PatchOpView> {
    ops.map_values(|o: PatchOp| o@)
}

/// An operation as the JSON object that RFC 6902 writes: `op`, `path`, then `value`.
pub open spec fn op_json(op: PatchOpView) -> JsonView {
    match op {
        PatchOpView::Add(p, v) => JsonView::Obj(
            seq![("op"@, JsonView::Str("add"@)), ("path"@, JsonView::Str(p)), ("value"@, v)],
        ),
        PatchOpView::Remove(p) => JsonView::Obj(
            seq![("op"@, JsonView::Str("remove"@)), ("path"@, JsonView::Str(p))],
        ),
        PatchOpView::Replace(p, v) => JsonView::Obj(
            seq![("op"@, JsonView::Str("replace"@)), ("path"@, JsonView::Str(p)), ("value"@, v)],
        ),
    }
}

/// A patch document: the array of its operations.
pub open spec fn patch_json(ops: Seq<PatchOpView>) -> JsonView {
    JsonView::Arr(ops.map_values(|o: PatchOpView| op_json(o)))
}

// ---- the values written into a container -------------------------------------------

pub open spec fn ports_json(port: u16) -> JsonView {
    JsonView::Arr(
        seq![
            JsonView::Obj(
                seq![
                    ("containerPort"@, JsonView::Num(port as int)),
                    ("name"@, JsonView::Str("http"@)),
                    ("protocol"@, JsonView::Str("TCP"@)),
                ],
            ),
        ],
    )
}

pub open spec fn probe_json(path: Seq<char>, port: u16, period: int) -> JsonView {
    JsonView::Obj(
        seq![
            (
                "httpGet"@,
                JsonView::Obj(
                    seq![("path"@, JsonView::Str(path)), ("port"@, JsonView::Num(port as int))],
                ),
            ),
            ("initialDelaySeconds"@, JsonView::Num(1)),
            ("periodSeconds"@, JsonView::Num(period)),
        ],
    )
}

pub open spec fn env_var_json(name: Seq<char>, value: Seq<char>) -> JsonView {
    JsonView::Obj(seq![("name"@, JsonView::Str(name)), ("value"@, JsonView::Str(value))])
}

pub open spec fn app_name_env(cfg: StubbyConfigView) -> JsonView {
    env_var_json("STUBBY_APP_NAME"@, cfg.app_name)
}

pub open spec fn port_env(cfg: StubbyConfigView) -> JsonView {
    env_var_json("STUBBY_PORT"@, nat_text(cfg.port as nat))
}

pub open spec fn resources_json() -> JsonView {
    JsonView::Obj(
        seq![
            (
                "limits"@,
                JsonView::Obj(
                    seq![("cpu"@, JsonView::Str("100m"@)), ("memory"@, JsonView::Str("64Mi"@))],
                ),
            ),
            (
                "requests"@,
                JsonView::Obj(
                    seq![("cpu"@, JsonView::Str("10m"@)), ("memory"@, JsonView::Str("32Mi"@))],
                ),
            ),
        ],
    )
}

// ---- which containers, which image ----------------------------------------------

/// Containers left untouched: sidecars and the names the pod lists.
pub open spec fn skipped(name: Seq<char>, cfg: StubbyConfigView) -> bool {
    is_sidecar_name(name) || cfg.skip_containers.contains(name)
}

/// The image written into mutated containers.
pub open spec fn spec_chosen_image(cfg: StubbyConfigView, imgs: ImageRefs) -> Seq<char> {
    match cfg.image_override {
        Some(o) => o,
        None => match cfg.dummy_type {
            DummyType::Backend => imgs.backend@,
            DummyType::Frontend => imgs.frontend@,
        },
    }
}

/// `/spec/containers/<i><suffix>`.
pub open spec fn container_path(i: nat, suffix: Seq<char>) -> Seq<char> {
    "/spec/containers/"@ + nat_text(i) + suffix
}

/// Image, ports and both probes: written for every mutated container.
pub open spec fn base_ops(i: nat, cfg: StubbyConfigView, image: Seq<char>) -> Seq<PatchOpView> {
    seq![
        PatchOpView::Replace(container_path(i, "/image"@), JsonView::Str(image)),
        PatchOpView::Add(container_path(i, "/ports"@), ports_json(cfg.port)),
        PatchOpView::Add(container_path(i, "/livenessProbe"@), probe_json("/health"@, cfg.port, 10)),
        PatchOpView::Add(container_path(i, "/readinessProbe"@), probe_json("/ready"@, cfg.port, 5)),
    ]
}

/// `command` and `args` are removed when present.
pub open spec fn entrypoint_ops(i: nat, c: Container) -> Seq<PatchOpView> {
    (if c.has_command {
        seq![PatchOpView::Remove(container_path(i, "/command"@))]
    } else {
        Seq::empty()
    }) + (if c.has_args {
        seq![PatchOpView::Remove(container_path(i, "/args"@))]
    } else {
        Seq::empty()
    })
}

/// `STUBBY_APP_NAME` and `STUBBY_PORT`: appended to an existing `env`, else a new `env`.
pub open spec fn env_ops(i: nat, c: Container, cfg: StubbyConfigView) -> Seq<PatchOpView> {
    if c.has_env {
        seq![
            PatchOpView::Add(container_path(i, "/env/-"@), app_name_env(cfg)),
            PatchOpView::Add(container_path(i, "/env/-"@), port_env(cfg)),
        ]
    } else {
        seq![
            PatchOpView::Add(
                container_path(i, "/env"@),
                JsonView::Arr(seq![app_name_env(cfg), port_env(cfg)]),
            ),
        ]
    }
}

/// `envFrom` and `volumeMounts` are stripped unless the pod opts out.
pub open spec fn strip_ops(i: nat, c: Container, cfg: StubbyConfigView) -> Seq<PatchOpView> {
    (if !cfg.keep_env_from && c.has_env_from {
        seq![PatchOpView::Remove(container_path(i, "/envFrom"@))]
    } else {
        Seq::empty()
    }) + (if !cfg.keep_volumes && c.volume_mounts is Some {
        seq![PatchOpView::Remove(container_path(i, "/volumeMounts"@))]
    } else {
        Seq::empty()
    })
}

/// Default resources, only where the manifest declares none.
pub open spec fn resources_ops(i: nat, c: Container) -> Seq<PatchOpView> {
    if !c.has_resources {
        seq![PatchOpView::Add(container_path(i, "/resources"@), resources_json())]
    } else {
        Seq::empty()
    }
}

/// The operations for the container at index `i`, in the order they are emitted.
pub open spec fn container_ops(i: nat, c: Container, cfg: StubbyConfigView, image: Seq<char>) -> Seq<
    PatchOpView,
> {
    base_ops(i, cfg, image) + entrypoint_ops(i, c) + env_ops(i, c, cfg) + strip_ops(i, c, cfg)
        + resources_ops(i, c)
}

/// The operations for all containers of `cs`, skipped ones contributing none.
pub open spec fn containers_ops(cs: Seq<Container>, cfg: StubbyConfigView, image: Seq<char>) -> Seq<
    PatchOpView,
>
    decreases cs.len(),
{
    if cs.len() == 0 {
        Seq::empty()
    } else {
        containers_ops(cs.drop_last(), cfg, image) + if skipped(cs.last().name@, cfg) {
            Seq::empty()
        } else {
            container_ops((cs.len() - 1) as nat, cs.last(), cfg, image)
        }
    }
}

// ---- volumes ----------------------------------------------------------------------

/// A `secret`, `configMap` or `projected` volume: it keeps the pod from
/// starting when its object is missing.
pub open spec fn blocks_on_missing(v: Volume) -> bool {
    v.has_secret || v.has_config_map || v.has_projected
}

pub open spec fn mounts_of(c: Container) -> Seq<Seq<char>> {
    match c.volume_mounts {
        Some(m) => strings_view(m@),
        None => Seq::empty(),
    }
}

/// Whether a container that stays as it is (a skipped one, or an init
/// container) still mounts volume `name` after mutation.
pub open spec fn still_mounted(spec: PodSpec, cfg: StubbyConfigView, name: Seq<char>) -> bool {
    ||| exists|i: int|
        0 <= i < spec.containers@.len() && skipped(spec.containers@[i].name@, cfg) && #[trigger] mounts_of(
            spec.containers@[i],
        ).contains(name)
    ||| exists|i: int|
        #![trigger spec.init_containers->0@[i]]
        spec.init_containers is Some && 0 <= i < spec.init_containers->0@.len() && mounts_of(
            spec.init_containers->0@[i],
        ).contains(name)
}

pub open spec fn keep_volume(spec: PodSpec, cfg: StubbyConfigView, v: Volume) -> bool {
    !blocks_on_missing(v) || still_mounted(spec, cfg, v.name@)
}

/// The volumes of `vs` that survive pruning, in order.
pub open spec fn kept_volumes(spec: PodSpec, cfg: StubbyConfigView, vs: Seq<Volume>) -> Seq<Volume>
    decreases vs.len(),
{
    if vs.len() == 0 {
        Seq::empty()
    } else if keep_volume(spec, cfg, vs.last()) {
        kept_volumes(spec, cfg, vs.drop_last()).push(vs.last())
    } else {
        kept_volumes(spec, cfg, vs.drop_last())
    }
}

pub open spec fn volumes_json(vs: Seq<Volume>) -> JsonView {
    JsonView::Arr(vs.map_values(|v: Volume| JsonView::Raw(v.json@)))
}

/// The pod-level operation that drops orphaned volumes, if any is orphaned.
pub open spec fn spec_prune(p: Pod, cfg: StubbyConfigView) -> Option<PatchOpView> {
    if cfg.keep_volumes {
        None
    } else {
        match p.spec {
            None => None,
            Some(spec) => match spec.volumes {
                None => None,
                Some(vols) => {
                    let kept = kept_volumes(spec, cfg, vols@);
                    if vols@.len() == 0 || kept.len() == vols@.len() {
                        None
                    } else if kept.len() == 0 {
                        Some(PatchOpView::Remove("/spec/volumes"@))
                    } else {
                        Some(PatchOpView::Replace("/spec/volumes"@, volumes_json(kept)))
                    }
                },
            },
        }
    }
}

pub open spec fn pod_containers(p: Pod) -> Seq<Container> {
    match p.spec {
        Some(s) => s.containers@,
        None => Seq::empty(),
    }
}

/// The whole patch for pod `p`: the containers' operations, then the volume
/// pruning. When every container is skipped there is nothing to patch, and
/// no volume is pruned either.
pub open spec fn spec_build_patch(p: Pod, cfg: StubbyConfigView, imgs: ImageRefs) -> Seq<PatchOpView> {
    let cops = containers_ops(pod_containers(p), cfg, spec_chosen_image(cfg, imgs));
    if cops.len() == 0 {
        Seq::empty()
    } else {
        cops + match spec_prune(p, cfg) {
            Some(op) => seq![op],
            None => Seq::empty(),
        }
    }
}


// ---- building values ----------------------------------------------------------------

fn push_op(v: &mut Vec<PatchOp>, op: PatchOp)
    ensures
        ops_view(final(v)@) == ops_view(old(v)@).push(op@),
{
    v.push(op);
    assert(ops_view(v@) =~= ops_view(old(v)@).push(op@));
}

fn ports_value(port: u16) -> (r: Json)
    ensures
        r@ == ports_json(port),
{
    arr1(obj3("containerPort", Json::Num(port as i64), "name", jstr("http"), "protocol", jstr("TCP")))
}

fn probe_value(path: &str, port: u16, period: i64) -> (r: Json)
    ensures
        r@ == probe_json(path@, port, period as int),
{
    let get = obj2("path", jstr(path), "port", Json::Num(port as i64));
    obj3("httpGet", get, "initialDelaySeconds", Json::Num(1), "periodSeconds", Json::Num(period))
}

fn env_value(name: &str, value: String) -> (r: Json)
    ensures
        r@ == env_var_json(name@, value@),
{
    obj2("name", jstr(name), "value", Json::Str(value))
}

fn port_text(port: u16) -> (s: String)
    ensures
        s@ == nat_text(port as nat),
{
    let mut s = String::new();
    write_nat(port as u64, &mut s);
    assert(s@ =~= nat_text(port as nat));
    s
}

fn resources_value() -> (r: Json)
    ensures
        r@ == resources_json(),
{
    let limits = obj2("cpu", jstr("100m"), "memory", jstr("64Mi"));
    let requests = obj2("cpu", jstr("10m"), "memory", jstr("32Mi"));
    obj2("limits", limits, "requests", requests)
}

fn cpath(i: usize, suffix: &str) -> (r: String)
    ensures
        r@ == container_path(i as nat, suffix@),
{
    let mut s = owned("/spec/containers/");
    write_nat(i as u64, &mut s);
    push_str(&mut s, suffix);
    assert(s@ =~= container_path(i as nat, suffix@));
    s
}

// ---- decisions ----------------------------------------------------------------------

/// Whether container `name` is left untouched.
pub fn should_skip(name: &str, cfg: &StubbyConfig) -> (b: bool)
    ensures
        b == skipped(name@, cfg@),
{
    if is_sidecar(name) {
        return true;
    }
    let mut i: usize = 0;
    while i < cfg.skip_containers.len()
        invariant
            i <= cfg.skip_containers@.len(),
            forall|k: int| 0 <= k < i ==> cfg.skip_containers@[k]@ != name@,
        decreases cfg.skip_containers@.len() - i,
    {
        if str_eq_strings(cfg.skip_containers[i].as_str(), name) {
            assert(strings_view(cfg.skip_containers@)[i as int] == name@);
            return true;
        }
        i += 1;
    }
    proof {
        if cfg@.skip_containers.contains(name@) {
            let k = choose|k: int| 0 <= k < cfg@.skip_containers.len() && cfg@.skip_containers[k] == name@;
            assert(strings_view(cfg.skip_containers@)[k] == cfg.skip_containers@[k]@);
        }
    }
    false
}

fn str_eq_strings(a: &str, b: &str) -> (r: bool)
    ensures
        r == (a@ == b@),
{
    crate::text::str_eq(a, b)
}

/// The image for mutated containers: the override if set, else the dummy for the type.
pub fn chosen_image(cfg: &StubbyConfig, imgs: &ImageRefs) -> (r: String)
    ensures
        r@ == spec_chosen_image(cfg@, *imgs),
{
    if let Some(o) = &cfg.image_override {
        return o.clone();
    }
    match cfg.dummy_type {
        DummyType::Backend => imgs.backend.clone(),
        DummyType::Frontend => imgs.frontend.clone(),
    }
}

fn push_base_ops(ops: &mut Vec<PatchOp>, i: usize, cfg: &StubbyConfig, image: &String)
    ensures
        ops_view(final(ops)@) == ops_view(old(ops)@) + base_ops(i as nat, cfg@, image@),
{
    let ghost start = ops_view(ops@);
    push_op(ops, PatchOp::Replace { path: cpath(i, "/image"), value: Json::Str(image.clone()) });
    push_op(ops, PatchOp::Add { path: cpath(i, "/ports"), value: ports_value(cfg.port) });
    push_op(
        ops,
        PatchOp::Add {
            path: cpath(i, "/livenessProbe"),
            value: probe_value("/health", cfg.port, 10),
        },
    );
    push_op(
        ops,
        PatchOp::Add {
            path: cpath(i, "/readinessProbe"),
            value: probe_value("/ready", cfg.port, 5),
        },
    );
    assert(ops_view(ops@) =~= start + base_ops(i as nat, cfg@, image@));
}

fn push_entrypoint_ops(ops: &mut Vec<PatchOp>, i: usize, c: &Container)
    ensures
        ops_view(final(ops)@) == ops_view(old(ops)@) + entrypoint_ops(i as nat, *c),
{
    let ghost start = ops_view(ops@);
    if c.has_command {
        push_op(ops, PatchOp::Remove { path: cpath(i, "/command") });
    }
    if c.has_args {
        push_op(ops, PatchOp::Remove { path: cpath(i, "/args") });
    }
    assert(ops_view(ops@) =~= start + entrypoint_ops(i as nat, *c));
}

fn push_env_ops(ops: &mut Vec<PatchOp>, i: usize, c: &Container, cfg: &StubbyConfig)
    ensures
        ops_view(final(ops)@) == ops_view(old(ops)@) + env_ops(i as nat, *c, cfg@),
{
    let ghost start = ops_view(ops@);
    if c.has_env {
        push_op(
            ops,
            PatchOp::Add {
                path: cpath(i, "/env/-"),
                value: env_value("STUBBY_APP_NAME", cfg.app_name.clone()),
            },
        );
        push_op(
            ops,
            PatchOp::Add {
                path: cpath(i, "/env/-"),
                value: env_value("STUBBY_PORT", port_text(cfg.port)),
            },
        );
    } else {
        let both = arr2(
            env_value("STUBBY_APP_NAME", cfg.app_name.clone()),
            env_value("STUBBY_PORT", port_text(cfg.port)),
        );
        push_op(ops, PatchOp::Add { path: cpath(i, "/env"), value: both });
    }
    assert(ops_view(ops@) =~= start + env_ops(i as nat, *c, cfg@));
}

fn push_strip_ops(ops: &mut Vec<PatchOp>, i: usize, c: &Container, cfg: &StubbyConfig)
    ensures
        ops_view(final(ops)@) == ops_view(old(ops)@) + strip_ops(i as nat, *c, cfg@),
{
    let ghost start = ops_view(ops@);
    if !cfg.keep_env_from && c.has_env_from {
        push_op(ops, PatchOp::Remove { path: cpath(i, "/envFrom") });
    }
    if !cfg.keep_volumes && c.volume_mounts.is_some() {
        push_op(ops, PatchOp::Remove { path: cpath(i, "/volumeMounts") });
    }
    assert(ops_view(ops@) =~= start + strip_ops(i as nat, *c, cfg@));
}

fn push_resources_ops(ops: &mut Vec<PatchOp>, i: usize, c: &Container)
    ensures
        ops_view(final(ops)@) == ops_view(old(ops)@) + resources_ops(i as nat, *c),
{
    let ghost start = ops_view(ops@);
    if !c.has_resources {
        push_op(ops, PatchOp::Add { path: cpath(i, "/resources"), value: resources_value() });
    }
    assert(ops_view(ops@) =~= start + resources_ops(i as nat, *c));
}

/// Appends the operations for container `c` at index `i`.
fn push_container_ops(ops: &mut Vec<PatchOp>, i: usize, c: &Container, cfg: &StubbyConfig, image: &String)
    ensures
        ops_view(final(ops)@) == ops_view(old(ops)@) + container_ops(i as nat, *c, cfg@, image@),
{
    let ghost start = ops_view(ops@);
    push_base_ops(ops, i, cfg, image);
    push_entrypoint_ops(ops, i, c);
    push_env_ops(ops, i, c, cfg);
    push_strip_ops(ops, i, c, cfg);
    push_resources_ops(ops, i, c);
    assert(ops_view(ops@) =~= start + container_ops(i as nat, *c, cfg@, image@));
}


/// Whether `c` mounts the volume `name`.
fn mounts_contain(c: &Container, name: &str) -> (b: bool)
    ensures
        b == mounts_of(*c).contains(name@),
{
    match &c.volume_mounts {
        None => false,
        Some(m) => {
            let mut k: usize = 0;
            while k < m.len()
                invariant
                    c.volume_mounts == Some(*m),
                    k <= m@.len(),
                    forall|j: int| 0 <= j < k ==> m@[j]@ != name@,
                decreases m@.len() - k,
            {
                if crate::text::str_eq(m[k].as_str(), name) {
                    assert(strings_view(m@)[k as int] == name@);
                    return true;
                }
                k += 1;
            }
            proof {
                if mounts_of(*c).contains(name@) {
                    let j = choose|j: int| 0 <= j < strings_view(m@).len() && strings_view(m@)[j] == name@;
                    assert(strings_view(m@)[j] == m@[j]@);
                }
            }
            false
        },
    }
}

/// Whether a container that stays as it is still mounts volume `name`.
fn is_still_mounted(spec: &PodSpec, cfg: &StubbyConfig, name: &str) -> (b: bool)
    ensures
        b == still_mounted(*spec, cfg@, name@),
{
    let mut i: usize = 0;
    while i < spec.containers.len()
        invariant
            i <= spec.containers@.len(),
            forall|j: int|
                0 <= j < i ==> !(skipped(spec.containers@[j].name@, cfg@) && #[trigger] mounts_of(
                    spec.containers@[j],
                ).contains(name@)),
        decreases spec.containers@.len() - i,
    {
        let c = &spec.containers[i];
        if should_skip(c.name.as_str(), cfg) && mounts_contain(c, name) {
            return true;
        }
        i += 1;
    }
    if let Some(inits) = &spec.init_containers {
        let mut k: usize = 0;
        while k < inits.len()
            invariant
                spec.init_containers == Some(*inits),
                k <= inits@.len(),
                forall|j: int| 0 <= j < k ==> !#[trigger] mounts_of(inits@[j]).contains(name@),
            decreases inits@.len() - k,
        {
            if mounts_contain(&inits[k], name) {
                assert(spec.init_containers->0@[k as int] == inits@[k as int]);
                return true;
            }
            k += 1;
        }
    }
    false
}

/// The patch operation that drops orphaned volumes, or `None` when nothing is
/// orphaned.
///
/// A `secret`, `configMap` or `projected` volume whose object is missing keeps
/// the pod in `ContainerCreating`. Mutated containers lose their
/// `volumeMounts`, so such a volume is orphaned unless a container that stays
/// as it is (a skipped one or an init container) still mounts it. Other volume
/// kinds are never pruned. Nothing is pruned when `stubby.io/keep-volumes` is set.
fn prune_orphan_volumes(pod: &Pod, cfg: &StubbyConfig) -> (r: Option<PatchOp>)
    ensures
        match r {
            Some(op) => spec_prune(*pod, cfg@) == Some(op@),
            None => spec_prune(*pod, cfg@) is None,
        },
{
    if cfg.keep_volumes {
        return None;
    }
    let spec = match &pod.spec {
        Some(s) => s,
        None => return None,
    };
    let volumes = match &spec.volumes {
        Some(v) => v,
        None => return None,
    };
    if volumes.len() == 0 {
        return None;
    }
    let mut kept: Vec<Json> = Vec::new();
    let mut i: usize = 0;
    while i < volumes.len()
        invariant
            spec.volumes == Some(*volumes),
            i <= volumes@.len(),
            items_view(kept@) == kept_volumes(*spec, cfg@, volumes@.take(i as int)).map_values(
                |v: Volume| JsonView::Raw(v.json@),
            ),
        decreases volumes@.len() - i,
    {
        let v = &volumes[i];
        let ghost before = kept@;
        proof {
            assert(volumes@.take(i + 1).drop_last() =~= volumes@.take(i as int));
            assert(volumes@.take(i + 1).last() == *v);
        }
        let blocks = v.has_secret || v.has_config_map || v.has_projected;
        if !blocks || is_still_mounted(spec, cfg, v.name.as_str()) {
            let j = v.json.clone();
            kept.push(Json::Raw(j));
            proof {
                assert(kept@.last() == Json::Raw(j));
                assert(json_view(kept@.last()) == JsonView::Raw(v.json@));
                assert(keep_volume(*spec, cfg@, *v));
                assert(kept_volumes(*spec, cfg@, volumes@.take(i + 1)) == kept_volumes(
                    *spec,
                    cfg@,
                    volumes@.take(i as int),
                ).push(*v));
                assert(kept@.drop_last() =~= before);
                assert(items_view(kept@) == items_view(before).push(JsonView::Raw(v.json@)));
                assert(items_view(kept@) =~= kept_volumes(*spec, cfg@, volumes@.take(i + 1)).map_values(
                    |v: Volume| JsonView::Raw(v.json@),
                ));
            }
        }
        i += 1;
    }
    assert(volumes@.take(volumes@.len() as int) =~= volumes@);
    let ghost kv = kept_volumes(*spec, cfg@, volumes@);
    proof {
        lemma_items_view_len(kept@);
    }
    if kept.len() == volumes.len() {
        return None;
    }
    if kept.len() == 0 {
        Some(PatchOp::Remove { path: owned("/spec/volumes") })
    } else {
        Some(PatchOp::Replace { path: owned("/spec/volumes"), value: Json::Arr(kept) })
    }
}

proof fn lemma_items_view_len(s: Seq<Json>)
    ensures
        items_view(s).len() == s.len(),
    decreases s.len(),
{
    if s.len() > 0 {
        lemma_items_view_len(s.drop_last());
    }
}

/// Builds the RFC 6902 operations that turn `pod` into a stubby-mutated pod.
///
/// The result is empty when every container is skipped; callers answer
/// without a patch then.
pub fn build_patch(pod: &Pod, cfg: &StubbyConfig, imgs: &ImageRefs) -> (ops: Vec<PatchOp>)
    ensures
        ops_view(ops@) == spec_build_patch(*pod, cfg@, *imgs),
{
    let mut ops: Vec<PatchOp> = Vec::new();
    let image = chosen_image(cfg, imgs);
    if let Some(spec) = &pod.spec {
        let mut i: usize = 0;
        while i < spec.containers.len()
            invariant
                pod.spec == Some(*spec),
                i <= spec.containers@.len(),
                image@ == spec_chosen_image(cfg@, *imgs),
                ops_view(ops@) == containers_ops(spec.containers@.take(i as int), cfg@, image@),
            decreases spec.containers@.len() - i,
        {
            let c = &spec.containers[i];
            proof {
                assert(spec.containers@.take(i + 1).drop_last() =~= spec.containers@.take(i as int));
                assert(spec.containers@.take(i + 1).last() == *c);
            }
            if !should_skip(c.name.as_str(), cfg) {
                push_container_ops(&mut ops, i, c, cfg, &image);
            } else {
                assert(ops_view(ops@) =~= containers_ops(spec.containers@.take(i + 1), cfg@, image@));
            }
            i += 1;
        }
        assert(spec.containers@.take(spec.containers@.len() as int) =~= spec.containers@);
    } else {
        assert(ops_view(ops@) =~= containers_ops(pod_containers(*pod), cfg@, image@));
    }
    if ops.len() == 0 {
        assert(ops_view(ops@) =~= spec_build_patch(*pod, cfg@, *imgs));
        return ops;
    }
    match prune_orphan_volumes(pod, cfg) {
        Some(op) => {
            push_op(&mut ops, op);
        },
        None => {},
    }
    assert(ops_view(ops@) =~= spec_build_patch(*pod, cfg@, *imgs));
    ops
}

} // verus!
