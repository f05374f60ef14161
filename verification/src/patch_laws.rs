//! What every patch of [`crate::patch::build_patch`] keeps, whatever the pod.
//!
//! The operations of a patch address containers by index, through paths
//! `/spec/containers/<i>/<field>`; the index is read back from such a path
//! unambiguously, so a statement about the paths is a statement about the
//! containers.
use vstd::prelude::*;
use crate::annotation::StubbyConfigView;
use crate::config::ImageRefs;
use crate::json::{nat_text, dec_digit};
use crate::json::JsonView;
use crate::patch::{
    PatchOpView, container_path, container_ops, containers_ops, base_ops, entrypoint_ops,
    env_ops, strip_ops, resources_ops, skipped, spec_build_patch, spec_prune, pod_containers,
    spec_chosen_image, keep_volume, kept_volumes, ports_json, probe_json, app_name_env, port_env,
    resources_json, mounts_of,
};
use crate::pod::{Container, Pod, PodSpec, Volume};

verus! {

/// The path an operation addresses.
pub open spec fn op_path(op: PatchOpView) -> Seq<char> {
    match op {
        PatchOpView::Add(p, _) => p,
        PatchOpView::Remove(p) => p,
        PatchOpView::Replace(p, _) => p,
    }
}

proof fn lemma_dec_digit(d: int)
    requires
        0 <= d < 10,
    ensures
        dec_digit(d) != '/',
        dec_digit(d) as int == '0' as int + d,
{
}

proof fn lemma_nat_text_digits(n: nat)
    ensures
        nat_text(n).len() >= 1,
        forall|k: int| 0 <= k < nat_text(n).len() ==> #[trigger] nat_text(n)[k] != '/',
    decreases n,
{
    if n < 10 {
        lemma_dec_digit(n as int);
    } else {
        lemma_nat_text_digits(n / 10);
        lemma_dec_digit((n % 10) as int);
        assert forall|k: int| 0 <= k < nat_text(n).len() implies #[trigger] nat_text(n)[k] != '/' by {
            if k < nat_text(n / 10).len() {
                assert(nat_text(n)[k] == nat_text(n / 10)[k]);
            }
        }
    }
}

proof fn lemma_nat_text_injective(n: nat, m: nat)
    requires
        nat_text(n) == nat_text(m),
    ensures
        n == m,
    decreases n,
{
    if n < 10 && m < 10 {
        lemma_dec_digit(n as int);
        lemma_dec_digit(m as int);
        assert(nat_text(n) == seq![dec_digit(n as int)]);
        assert(nat_text(m) == seq![dec_digit(m as int)]);
        assert(seq![dec_digit(n as int)][0] == dec_digit(n as int));
        assert(nat_text(n)[0] == dec_digit(n as int));
        assert(nat_text(n)[0] == nat_text(m)[0]);
        assert(dec_digit(n as int) == dec_digit(m as int));
        assert(dec_digit(n as int) as int == dec_digit(m as int) as int);
    } else if n < 10 {
        lemma_nat_text_digits(m / 10);
        assert(nat_text(m).len() >= 2);
    } else if m < 10 {
        lemma_nat_text_digits(n / 10);
        assert(nat_text(n).len() >= 2);
    } else {
        lemma_dec_digit((n % 10) as int);
        lemma_dec_digit((m % 10) as int);
        assert(nat_text(n) == nat_text(n / 10).push(dec_digit((n % 10) as int)));
        assert(nat_text(m) == nat_text(m / 10).push(dec_digit((m % 10) as int)));
        assert(nat_text(n).last() == dec_digit((n % 10) as int));
        assert(nat_text(m).last() == dec_digit((m % 10) as int));
        assert(nat_text(n).last() == nat_text(m).last());
        assert(nat_text(n).drop_last() =~= nat_text(n / 10));
        assert(nat_text(m).drop_last() =~= nat_text(m / 10));
        lemma_nat_text_injective(n / 10, m / 10);
        assert(dec_digit((n % 10) as int) == dec_digit((m % 10) as int));
        assert(n % 10 == m % 10);
        assert(n == 10 * (n / 10) + n % 10);
        assert(m == 10 * (m / 10) + m % 10);
    }
}

/// A container path names one container and one field: from equal paths
/// whose suffixes start with `/` follow equal indices and equal suffixes.
pub proof fn lemma_container_path_injective(i: nat, j: nat, s1: Seq<char>, s2: Seq<char>)
    requires
        s1.len() > 0 && s1[0] == '/',
        s2.len() > 0 && s2[0] == '/',
        container_path(i, s1) == container_path(j, s2),
    ensures
        i == j,
        s1 == s2,
{
    reveal_strlit("/spec/containers/");
    let pre = "/spec/containers/"@;
    let a = nat_text(i);
    let b = nat_text(j);
    let la: int = a.len() as int;
    let lb: int = b.len() as int;
    let x = container_path(i, s1);
    lemma_nat_text_digits(i);
    lemma_nat_text_digits(j);
    assert(x == pre + a + s1);
    assert(x == pre + b + s2);
    assert(pre.len() == 17);
    if la < lb {
        assert(x[17 + la] == s1[0]);
        assert(x[17 + la] == b[la]);
    } else if lb < la {
        assert(x[17 + lb] == s2[0]);
        assert(x[17 + lb] == a[lb]);
    }
    assert(la == lb);
    assert(a =~= x.subrange(17, 17 + la));
    assert(b =~= x.subrange(17, 17 + lb));
    lemma_nat_text_injective(i, j);
    assert(s1 =~= x.skip(17 + la));
    assert(s2 =~= x.skip(17 + lb));
}

/// No container path is the pod-level `/spec/volumes`.
pub proof fn lemma_volumes_not_container_path(i: nat, s: Seq<char>)
    ensures
        container_path(i, s) != "/spec/volumes"@,
{
    reveal_strlit("/spec/containers/");
    reveal_strlit("/spec/volumes");
    assert(container_path(i, s)[6] == 'c');
    assert("/spec/volumes"@[6] == 'v');
}

/// The one operation the rules allow on field `s` of container `i`, given
/// the container `c`, the settings and the dummy image: the image is
/// replaced, ports and probes are added on the configured port, the two
/// variables are appended to an existing `env` or make a new one, and the
/// removals and default resources happen only under their conditions.
pub open spec fn field_rule(
    op: PatchOpView,
    i: nat,
    s: Seq<char>,
    c: Container,
    cfg: StubbyConfigView,
    image: Seq<char>,
) -> bool {
    let cp = container_path(i, s);
    &&& s.len() > 0 && s[0] == '/'
    &&& op is Replace ==> s == "/image"@
    &&& s == "/image"@ ==> op == PatchOpView::Replace(cp, JsonView::Str(image))
    &&& s == "/ports"@ ==> op == PatchOpView::Add(cp, ports_json(cfg.port))
    &&& s == "/livenessProbe"@ ==> op == PatchOpView::Add(cp, probe_json("/health"@, cfg.port, 10))
    &&& s == "/readinessProbe"@ ==> op == PatchOpView::Add(cp, probe_json("/ready"@, cfg.port, 5))
    &&& s == "/command"@ ==> op == PatchOpView::Remove(cp) && c.has_command
    &&& s == "/args"@ ==> op == PatchOpView::Remove(cp) && c.has_args
    &&& s == "/env/-"@ ==> c.has_env && (op == PatchOpView::Add(cp, app_name_env(cfg)) || op
        == PatchOpView::Add(cp, port_env(cfg)))
    &&& s == "/env"@ ==> !c.has_env && op == PatchOpView::Add(
        cp,
        JsonView::Arr(seq![app_name_env(cfg), port_env(cfg)]),
    )
    &&& s == "/envFrom"@ ==> op == PatchOpView::Remove(cp) && !cfg.keep_env_from && c.has_env_from
    &&& s == "/volumeMounts"@ ==> op == PatchOpView::Remove(cp) && !cfg.keep_volumes
        && c.volume_mounts is Some
    &&& s == "/resources"@ ==> op == PatchOpView::Add(cp, resources_json()) && !c.has_resources
}

/// `op` addresses a field of container `i` and is what [`field_rule`] allows.
pub open spec fn shaped(i: nat, c: Container, cfg: StubbyConfigView, image: Seq<char>, op: PatchOpView) -> bool {
    exists|s: Seq<char>| #[trigger] container_path(i, s) == op_path(op) && field_rule(op, i, s, c, cfg, image)
}

pub open spec fn all_shaped(
    ops: Seq<PatchOpView>,
    i: nat,
    c: Container,
    cfg: StubbyConfigView,
    image: Seq<char>,
) -> bool {
    forall|k: int| 0 <= k < ops.len() ==> #[trigger] shaped(i, c, cfg, image, ops[k])
}

/// `op` addresses a field of some container of `cs` that is not skipped.
pub open spec fn from_kept(cs: Seq<Container>, cfg: StubbyConfigView, image: Seq<char>, op: PatchOpView) -> bool {
    exists|i: nat|
        i < cs.len() && !skipped(cs[i as int].name@, cfg) && #[trigger] shaped(i, cs[i as int], cfg, image, op)
}

proof fn lemma_reveal_fields()
    ensures
        "/image"@.len() > 0 && "/image"@[0] == '/',
        "/ports"@.len() > 0 && "/ports"@[0] == '/',
        "/livenessProbe"@.len() > 0 && "/livenessProbe"@[0] == '/',
        "/readinessProbe"@.len() > 0 && "/readinessProbe"@[0] == '/',
        "/command"@.len() > 0 && "/command"@[0] == '/',
        "/args"@.len() > 0 && "/args"@[0] == '/',
        "/env/-"@.len() > 0 && "/env/-"@[0] == '/',
        "/env"@.len() > 0 && "/env"@[0] == '/',
        "/envFrom"@.len() > 0 && "/envFrom"@[0] == '/',
        "/volumeMounts"@.len() > 0 && "/volumeMounts"@[0] == '/',
        "/resources"@.len() > 0 && "/resources"@[0] == '/',
        "/image"@ != "/ports"@,
        "/image"@ != "/livenessProbe"@,
        "/image"@ != "/readinessProbe"@,
        "/image"@ != "/command"@,
        "/image"@ != "/args"@,
        "/image"@ != "/env/-"@,
        "/image"@ != "/env"@,
        "/image"@ != "/envFrom"@,
        "/image"@ != "/volumeMounts"@,
        "/image"@ != "/resources"@,
        "/ports"@ != "/livenessProbe"@,
        "/ports"@ != "/readinessProbe"@,
        "/ports"@ != "/command"@,
        "/ports"@ != "/args"@,
        "/ports"@ != "/env/-"@,
        "/ports"@ != "/env"@,
        "/ports"@ != "/envFrom"@,
        "/ports"@ != "/volumeMounts"@,
        "/ports"@ != "/resources"@,
        "/livenessProbe"@ != "/readinessProbe"@,
        "/livenessProbe"@ != "/command"@,
        "/livenessProbe"@ != "/args"@,
        "/livenessProbe"@ != "/env/-"@,
        "/livenessProbe"@ != "/env"@,
        "/livenessProbe"@ != "/envFrom"@,
        "/livenessProbe"@ != "/volumeMounts"@,
        "/livenessProbe"@ != "/resources"@,
        "/readinessProbe"@ != "/command"@,
        "/readinessProbe"@ != "/args"@,
        "/readinessProbe"@ != "/env/-"@,
        "/readinessProbe"@ != "/env"@,
        "/readinessProbe"@ != "/envFrom"@,
        "/readinessProbe"@ != "/volumeMounts"@,
        "/readinessProbe"@ != "/resources"@,
        "/command"@ != "/args"@,
        "/command"@ != "/env/-"@,
        "/command"@ != "/env"@,
        "/command"@ != "/envFrom"@,
        "/command"@ != "/volumeMounts"@,
        "/command"@ != "/resources"@,
        "/args"@ != "/env/-"@,
        "/args"@ != "/env"@,
        "/args"@ != "/envFrom"@,
        "/args"@ != "/volumeMounts"@,
        "/args"@ != "/resources"@,
        "/env/-"@ != "/env"@,
        "/env/-"@ != "/envFrom"@,
        "/env/-"@ != "/volumeMounts"@,
        "/env/-"@ != "/resources"@,
        "/env"@ != "/envFrom"@,
        "/env"@ != "/volumeMounts"@,
        "/env"@ != "/resources"@,
        "/envFrom"@ != "/volumeMounts"@,
        "/envFrom"@ != "/resources"@,
        "/volumeMounts"@ != "/resources"@,
{
    reveal_strlit("/image");
    reveal_strlit("/ports");
    reveal_strlit("/livenessProbe");
    reveal_strlit("/readinessProbe");
    reveal_strlit("/command");
    reveal_strlit("/args");
    reveal_strlit("/env/-");
    reveal_strlit("/env");
    reveal_strlit("/envFrom");
    reveal_strlit("/volumeMounts");
    reveal_strlit("/resources");
    assert("/image"@[1] != "/ports"@[1]);
    assert("/image"@.len() != "/livenessProbe"@.len());
    assert("/image"@.len() != "/readinessProbe"@.len());
    assert("/image"@.len() != "/command"@.len());
    assert("/image"@.len() != "/args"@.len());
    assert("/image"@[1] != "/env/-"@[1]);
    assert("/image"@.len() != "/env"@.len());
    assert("/image"@.len() != "/envFrom"@.len());
    assert("/image"@.len() != "/volumeMounts"@.len());
    assert("/image"@.len() != "/resources"@.len());
    assert("/ports"@.len() != "/livenessProbe"@.len());
    assert("/ports"@.len() != "/readinessProbe"@.len());
    assert("/ports"@.len() != "/command"@.len());
    assert("/ports"@.len() != "/args"@.len());
    assert("/ports"@[1] != "/env/-"@[1]);
    assert("/ports"@.len() != "/env"@.len());
    assert("/ports"@.len() != "/envFrom"@.len());
    assert("/ports"@.len() != "/volumeMounts"@.len());
    assert("/ports"@.len() != "/resources"@.len());
    assert("/livenessProbe"@.len() != "/readinessProbe"@.len());
    assert("/livenessProbe"@.len() != "/command"@.len());
    assert("/livenessProbe"@.len() != "/args"@.len());
    assert("/livenessProbe"@.len() != "/env/-"@.len());
    assert("/livenessProbe"@.len() != "/env"@.len());
    assert("/livenessProbe"@.len() != "/envFrom"@.len());
    assert("/livenessProbe"@.len() != "/volumeMounts"@.len());
    assert("/livenessProbe"@.len() != "/resources"@.len());
    assert("/readinessProbe"@.len() != "/command"@.len());
    assert("/readinessProbe"@.len() != "/args"@.len());
    assert("/readinessProbe"@.len() != "/env/-"@.len());
    assert("/readinessProbe"@.len() != "/env"@.len());
    assert("/readinessProbe"@.len() != "/envFrom"@.len());
    assert("/readinessProbe"@.len() != "/volumeMounts"@.len());
    assert("/readinessProbe"@.len() != "/resources"@.len());
    assert("/command"@.len() != "/args"@.len());
    assert("/command"@.len() != "/env/-"@.len());
    assert("/command"@.len() != "/env"@.len());
    assert("/command"@[1] != "/envFrom"@[1]);
    assert("/command"@.len() != "/volumeMounts"@.len());
    assert("/command"@.len() != "/resources"@.len());
    assert("/args"@.len() != "/env/-"@.len());
    assert("/args"@.len() != "/env"@.len());
    assert("/args"@.len() != "/envFrom"@.len());
    assert("/args"@.len() != "/volumeMounts"@.len());
    assert("/args"@.len() != "/resources"@.len());
    assert("/env/-"@.len() != "/env"@.len());
    assert("/env/-"@.len() != "/envFrom"@.len());
    assert("/env/-"@.len() != "/volumeMounts"@.len());
    assert("/env/-"@.len() != "/resources"@.len());
    assert("/env"@.len() != "/envFrom"@.len());
    assert("/env"@.len() != "/volumeMounts"@.len());
    assert("/env"@.len() != "/resources"@.len());
    assert("/envFrom"@.len() != "/volumeMounts"@.len());
    assert("/envFrom"@.len() != "/resources"@.len());
    assert("/volumeMounts"@.len() != "/resources"@.len());
}

proof fn lemma_all_shaped_concat(
    a: Seq<PatchOpView>,
    b: Seq<PatchOpView>,
    i: nat,
    c: Container,
    cfg: StubbyConfigView,
    image: Seq<char>,
)
    requires
        all_shaped(a, i, c, cfg, image),
        all_shaped(b, i, c, cfg, image),
    ensures
        all_shaped(a + b, i, c, cfg, image),
{
    assert forall|k: int| 0 <= k < (a + b).len() implies #[trigger] shaped(i, c, cfg, image, (a + b)[k]) by {
        if k < a.len() {
            assert((a + b)[k] == a[k]);
        } else {
            assert((a + b)[k] == b[k - a.len()]);
        }
    }
}

/// Every operation written for container `i` addresses a field of it and is
/// what [`field_rule`] allows; the image replace comes first and no other
/// operation of the container is a replace.
proof fn lemma_container_ops_shaped(i: nat, c: Container, cfg: StubbyConfigView, image: Seq<char>)
    ensures
        all_shaped(container_ops(i, c, cfg, image), i, c, cfg, image),
        container_ops(i, c, cfg, image).len() >= 4,
        container_ops(i, c, cfg, image)[0] == PatchOpView::Replace(container_path(i, "/image"@), JsonView::Str(image)),
        forall|t: int| 0 < t < container_ops(i, c, cfg, image).len() ==> !(#[trigger] container_ops(i, c, cfg, image)[t] is Replace),
{
    lemma_reveal_fields();
    let b = base_ops(i, cfg, image);
    assert(field_rule(b[0], i, "/image"@, c, cfg, image) && container_path(i, "/image"@) == op_path(b[0]));
    assert(field_rule(b[1], i, "/ports"@, c, cfg, image) && container_path(i, "/ports"@) == op_path(b[1]));
    assert(field_rule(b[2], i, "/livenessProbe"@, c, cfg, image) && container_path(i, "/livenessProbe"@) == op_path(b[2]));
    assert(field_rule(b[3], i, "/readinessProbe"@, c, cfg, image) && container_path(i, "/readinessProbe"@) == op_path(b[3]));
    assert(all_shaped(b, i, c, cfg, image));

    let e1: Seq<PatchOpView> = if c.has_command { seq![PatchOpView::Remove(container_path(i, "/command"@))] } else { Seq::empty() };
    let e2: Seq<PatchOpView> = if c.has_args { seq![PatchOpView::Remove(container_path(i, "/args"@))] } else { Seq::empty() };
    if c.has_command {
        assert(field_rule(e1[0], i, "/command"@, c, cfg, image) && container_path(i, "/command"@) == op_path(e1[0]));
    }
    if c.has_args {
        assert(field_rule(e2[0], i, "/args"@, c, cfg, image) && container_path(i, "/args"@) == op_path(e2[0]));
    }
    assert(all_shaped(e1, i, c, cfg, image));
    assert(all_shaped(e2, i, c, cfg, image));
    lemma_all_shaped_concat(e1, e2, i, c, cfg, image);
    assert(entrypoint_ops(i, c) == e1 + e2);

    let v = env_ops(i, c, cfg);
    if c.has_env {
        assert(field_rule(v[0], i, "/env/-"@, c, cfg, image) && container_path(i, "/env/-"@) == op_path(v[0]));
        assert(field_rule(v[1], i, "/env/-"@, c, cfg, image) && container_path(i, "/env/-"@) == op_path(v[1]));
    } else {
        assert(field_rule(v[0], i, "/env"@, c, cfg, image) && container_path(i, "/env"@) == op_path(v[0]));
    }
    assert(all_shaped(v, i, c, cfg, image));

    let s1: Seq<PatchOpView> = if !cfg.keep_env_from && c.has_env_from { seq![PatchOpView::Remove(container_path(i, "/envFrom"@))] } else { Seq::empty() };
    let s2: Seq<PatchOpView> = if !cfg.keep_volumes && c.volume_mounts is Some { seq![PatchOpView::Remove(container_path(i, "/volumeMounts"@))] } else { Seq::empty() };
    if !cfg.keep_env_from && c.has_env_from {
        assert(field_rule(s1[0], i, "/envFrom"@, c, cfg, image) && container_path(i, "/envFrom"@) == op_path(s1[0]));
    }
    if !cfg.keep_volumes && c.volume_mounts is Some {
        assert(field_rule(s2[0], i, "/volumeMounts"@, c, cfg, image) && container_path(i, "/volumeMounts"@) == op_path(s2[0]));
    }
    assert(all_shaped(s1, i, c, cfg, image));
    assert(all_shaped(s2, i, c, cfg, image));
    lemma_all_shaped_concat(s1, s2, i, c, cfg, image);
    assert(strip_ops(i, c, cfg) == s1 + s2);

    let r = resources_ops(i, c);
    if !c.has_resources {
        assert(field_rule(r[0], i, "/resources"@, c, cfg, image) && container_path(i, "/resources"@) == op_path(r[0]));
    }
    assert(all_shaped(r, i, c, cfg, image));

    let e = entrypoint_ops(i, c);
    let st = strip_ops(i, c, cfg);
    lemma_all_shaped_concat(b, e, i, c, cfg, image);
    lemma_all_shaped_concat(b + e, v, i, c, cfg, image);
    lemma_all_shaped_concat(b + e + v, st, i, c, cfg, image);
    lemma_all_shaped_concat(b + e + v + st, r, i, c, cfg, image);
    let co = container_ops(i, c, cfg, image);
    assert(co == b + e + v + st + r);
    assert forall|t: int| 0 < t < co.len() implies !(#[trigger] co[t] is Replace) by {
        let l1 = b.len() as int;
        let l2 = l1 + e.len();
        let l3 = l2 + v.len();
        let l4 = l3 + st.len();
        if t < l1 {
            assert(co[t] == b[t]);
        } else if t < l2 {
            assert(co[t] == e[t - l1]);
            assert(e[t - l1] == (e1 + e2)[t - l1]);
        } else if t < l3 {
            assert(co[t] == v[t - l2]);
        } else if t < l4 {
            assert(co[t] == st[t - l3]);
            assert(st[t - l3] == (s1 + s2)[t - l3]);
        } else {
            assert(co[t] == r[t - l4]);
        }
    }
}

/// An operation on a container field, read back from its path: the container
/// is one of `cs`, not skipped, and the operation is what [`field_rule`] allows.
proof fn lemma_owner(cs: Seq<Container>, cfg: StubbyConfigView, image: Seq<char>, k: int, i: nat, s: Seq<char>)
    requires
        0 <= k < containers_ops(cs, cfg, image).len(),
        s.len() > 0 && s[0] == '/',
        op_path(containers_ops(cs, cfg, image)[k]) == container_path(i, s),
    ensures
        i < cs.len(),
        !skipped(cs[i as int].name@, cfg),
        field_rule(containers_ops(cs, cfg, image)[k], i, s, cs[i as int], cfg, image),
{
    let op = containers_ops(cs, cfg, image)[k];
    lemma_containers_ops_from_kept(cs, cfg, image);
    let j = choose|j: nat| j < cs.len() && !skipped(cs[j as int].name@, cfg) && #[trigger] shaped(j, cs[j as int], cfg, image, op);
    let s2 = choose|s2: Seq<char>| #[trigger] container_path(j, s2) == op_path(op) && field_rule(op, j, s2, cs[j as int], cfg, image);
    lemma_container_path_injective(i, j, s, s2);
}

/// Every operation written for the containers of `cs` belongs to one that is
/// not skipped.
proof fn lemma_containers_ops_from_kept(cs: Seq<Container>, cfg: StubbyConfigView, image: Seq<char>)
    ensures
        forall|k: int|
            0 <= k < containers_ops(cs, cfg, image).len() ==> from_kept(cs, cfg, image, #[trigger] containers_ops(cs, cfg, image)[k]),
    decreases cs.len(),
{
    if cs.len() > 0 {
        let n = (cs.len() - 1) as nat;
        let prev = cs.drop_last();
        lemma_containers_ops_from_kept(prev, cfg, image);
        let a = containers_ops(prev, cfg, image);
        let tail: Seq<PatchOpView> = if skipped(cs.last().name@, cfg) {
            Seq::empty()
        } else {
            container_ops(n, cs.last(), cfg, image)
        };
        assert(containers_ops(cs, cfg, image) == a + tail);
        if !skipped(cs.last().name@, cfg) {
            lemma_container_ops_shaped(n, cs.last(), cfg, image);
        }
        assert forall|k: int| 0 <= k < containers_ops(cs, cfg, image).len() implies from_kept(
            cs,
            cfg,
            image,
            #[trigger] containers_ops(cs, cfg, image)[k],
        ) by {
            let op = containers_ops(cs, cfg, image)[k];
            if k < a.len() {
                assert(op == a[k]);
                assert(from_kept(prev, cfg, image, a[k]));
                let j = choose|j: nat| j < prev.len() && !skipped(prev[j as int].name@, cfg) && #[trigger] shaped(j, prev[j as int], cfg, image, a[k]);
                assert(prev[j as int] == cs[j as int]);
                assert(shaped(j, cs[j as int], cfg, image, op));
            } else {
                assert(op == tail[k - a.len()]);
                assert(shaped(n, cs[n as int], cfg, image, op));
            }
        }
    }
}

/// The operations of container `i` stand as one block in the containers'
/// operations, at the returned offset.
proof fn lemma_block_in(cs: Seq<Container>, cfg: StubbyConfigView, image: Seq<char>, i: int) -> (off: int)
    requires
        0 <= i < cs.len(),
        !skipped(cs[i].name@, cfg),
    ensures
        0 <= off,
        off + container_ops(i as nat, cs[i], cfg, image).len() <= containers_ops(cs, cfg, image).len(),
        forall|t: int|
            0 <= t < container_ops(i as nat, cs[i], cfg, image).len() ==> containers_ops(cs, cfg, image)[off + t]
                == #[trigger] container_ops(i as nat, cs[i], cfg, image)[t],
    decreases cs.len(),
{
    let n = cs.len() - 1;
    let prev = cs.drop_last();
    let a = containers_ops(prev, cfg, image);
    let tail: Seq<PatchOpView> = if skipped(cs.last().name@, cfg) {
        Seq::empty()
    } else {
        container_ops(n as nat, cs.last(), cfg, image)
    };
    assert(containers_ops(cs, cfg, image) == a + tail);
    if i == n {
        let co = container_ops(i as nat, cs[i], cfg, image);
        assert(tail == co);
        assert forall|t: int| 0 <= t < co.len() implies containers_ops(cs, cfg, image)[a.len() + t] == #[trigger] co[t] by {
            assert((a + tail)[a.len() + t] == tail[t]);
        }
        a.len() as int
    } else {
        assert(prev[i] == cs[i]);
        let off = lemma_block_in(prev, cfg, image, i);
        let co = container_ops(i as nat, cs[i], cfg, image);
        assert forall|t: int| 0 <= t < co.len() implies containers_ops(cs, cfg, image)[off + t] == #[trigger] co[t] by {
            assert((a + tail)[off + t] == a[off + t]);
        }
        off
    }
}

/// The patch starts with the containers' operations; after them comes at
/// most the volume pruning, and only when some container is patched.
proof fn lemma_patch_layout(p: Pod, cfg: StubbyConfigView, imgs: ImageRefs)
    ensures
        ({
            let cops = containers_ops(pod_containers(p), cfg, spec_chosen_image(cfg, imgs));
            let ops = spec_build_patch(p, cfg, imgs);
            &&& cops.len() <= ops.len() <= cops.len() + 1
            &&& forall|k: int| 0 <= k < cops.len() ==> #[trigger] ops[k] == cops[k]
            &&& ops.len() == cops.len() + 1 ==> cops.len() > 0 && spec_prune(p, cfg) == Some(ops[cops.len() as int])
            &&& spec_prune(p, cfg) matches Some(op) ==> op_path(op) == "/spec/volumes"@ && !cfg.keep_volumes
        }),
{
    let cops = containers_ops(pod_containers(p), cfg, spec_chosen_image(cfg, imgs));
    let ops = spec_build_patch(p, cfg, imgs);
    if cops.len() > 0 {
        let rest: Seq<PatchOpView> = match spec_prune(p, cfg) {
            Some(op) => seq![op],
            None => Seq::empty(),
        };
        assert(ops == cops + rest);
        assert forall|k: int| 0 <= k < cops.len() implies #[trigger] ops[k] == cops[k] by {
            assert((cops + rest)[k] == cops[k]);
        }
        if ops.len() == cops.len() + 1 {
            assert((cops + rest)[cops.len() as int] == rest[0]);
        }
    }
}

/// Every operation of the patch is either an operation on a field of a
/// container that is not skipped, as [`field_rule`] allows, or the single
/// pod-level `/spec/volumes` pruning, which then comes last, after at least
/// one container operation.
pub proof fn law_patch_layout(p: Pod, cfg: StubbyConfigView, imgs: ImageRefs)
    ensures
        forall|k: int|
            0 <= k < spec_build_patch(p, cfg, imgs).len() ==> from_kept(
                pod_containers(p),
                cfg,
                spec_chosen_image(cfg, imgs),
                #[trigger] spec_build_patch(p, cfg, imgs)[k],
            ) || (k == spec_build_patch(p, cfg, imgs).len() - 1 && k > 0 && spec_prune(p, cfg) == Some(
                spec_build_patch(p, cfg, imgs)[k],
            ) && op_path(spec_build_patch(p, cfg, imgs)[k]) == "/spec/volumes"@),
{
    let cs = pod_containers(p);
    let image = spec_chosen_image(cfg, imgs);
    let cops = containers_ops(cs, cfg, image);
    lemma_patch_layout(p, cfg, imgs);
    lemma_containers_ops_from_kept(cs, cfg, image);
    assert forall|k: int| 0 <= k < spec_build_patch(p, cfg, imgs).len() implies from_kept(
        cs,
        cfg,
        image,
        #[trigger] spec_build_patch(p, cfg, imgs)[k],
    ) || (k == spec_build_patch(p, cfg, imgs).len() - 1 && k > 0 && spec_prune(p, cfg) == Some(
        spec_build_patch(p, cfg, imgs)[k],
    ) && op_path(spec_build_patch(p, cfg, imgs)[k]) == "/spec/volumes"@) by {
        if k < cops.len() {
            assert(from_kept(cs, cfg, image, cops[k]));
        }
    }
}

/// An operation on a field of container `i` of the patch: the container is
/// kept and the operation is exactly what [`field_rule`] allows.
proof fn lemma_patch_field(p: Pod, cfg: StubbyConfigView, imgs: ImageRefs, k: int, i: nat, s: Seq<char>)
    requires
        0 <= k < spec_build_patch(p, cfg, imgs).len(),
        s.len() > 0 && s[0] == '/',
        op_path(spec_build_patch(p, cfg, imgs)[k]) == container_path(i, s),
    ensures
        i < pod_containers(p).len(),
        !skipped(pod_containers(p)[i as int].name@, cfg),
        field_rule(spec_build_patch(p, cfg, imgs)[k], i, s, pod_containers(p)[i as int], cfg, spec_chosen_image(cfg, imgs)),
{
    let cs = pod_containers(p);
    let image = spec_chosen_image(cfg, imgs);
    let cops = containers_ops(cs, cfg, image);
    lemma_patch_layout(p, cfg, imgs);
    if k < cops.len() {
        lemma_owner(cs, cfg, image, k, i, s);
    } else {
        lemma_volumes_not_container_path(i, s);
    }
}

/// Every operation on a field of a container is exactly the one the rules
/// give: the container is one that is not skipped, the image is replaced by
/// the dummy, ports and probes use the configured port, `STUBBY_APP_NAME` and
/// `STUBBY_PORT` are appended to an existing `env` (never removing it) or make
/// a new one, and `command`, `args`, `envFrom`, `volumeMounts` are removed and
/// default resources added only under their conditions.
pub proof fn law_container_ops_follow_the_rules(p: Pod, cfg: StubbyConfigView, imgs: ImageRefs)
    ensures
        forall|k: int, i: nat, s: Seq<char>|
            0 <= k < spec_build_patch(p, cfg, imgs).len() && s.len() > 0 && s[0] == '/' && op_path(
                #[trigger] spec_build_patch(p, cfg, imgs)[k],
            ) == #[trigger] container_path(i, s) ==> i < pod_containers(p).len() && !skipped(
                pod_containers(p)[i as int].name@,
                cfg,
            ) && field_rule(
                spec_build_patch(p, cfg, imgs)[k],
                i,
                s,
                pod_containers(p)[i as int],
                cfg,
                spec_chosen_image(cfg, imgs),
            ),
{
    assert forall|k: int, i: nat, s: Seq<char>|
        0 <= k < spec_build_patch(p, cfg, imgs).len() && s.len() > 0 && s[0] == '/' && op_path(
            #[trigger] spec_build_patch(p, cfg, imgs)[k],
        ) == #[trigger] container_path(i, s) implies i < pod_containers(p).len() && !skipped(
            pod_containers(p)[i as int].name@,
            cfg,
        ) && field_rule(
            spec_build_patch(p, cfg, imgs)[k],
            i,
            s,
            pod_containers(p)[i as int],
            cfg,
            spec_chosen_image(cfg, imgs),
        ) by {
        lemma_patch_field(p, cfg, imgs, k, i, s);
    }
}

/// Sidecars and the containers listed in `stubby.io/skip-containers` are never
/// touched: no operation of the patch addresses a field of one of them.
pub proof fn law_skipped_containers_untouched(p: Pod, cfg: StubbyConfigView, imgs: ImageRefs)
    ensures
        forall|k: int, i: nat, s: Seq<char>|
            0 <= k < spec_build_patch(p, cfg, imgs).len() && i < pod_containers(p).len() && skipped(
                pod_containers(p)[i as int].name@,
                cfg,
            ) && s.len() > 0 && s[0] == '/' ==> op_path(#[trigger] spec_build_patch(p, cfg, imgs)[k])
                != #[trigger] container_path(i, s),
{
    assert forall|k: int, i: nat, s: Seq<char>|
        0 <= k < spec_build_patch(p, cfg, imgs).len() && i < pod_containers(p).len() && skipped(
            pod_containers(p)[i as int].name@,
            cfg,
        ) && s.len() > 0 && s[0] == '/' implies op_path(#[trigger] spec_build_patch(p, cfg, imgs)[k])
        != #[trigger] container_path(i, s) by {
        if op_path(spec_build_patch(p, cfg, imgs)[k]) == container_path(i, s) {
            lemma_patch_field(p, cfg, imgs, k, i, s);
        }
    }
}

/// With `stubby.io/keep-env-from: "true"`, no operation touches a
/// container's `envFrom`.
pub proof fn law_keep_env_from(p: Pod, cfg: StubbyConfigView, imgs: ImageRefs)
    requires
        cfg.keep_env_from,
    ensures
        forall|k: int, i: nat|
            0 <= k < spec_build_patch(p, cfg, imgs).len() ==> op_path(#[trigger] spec_build_patch(p, cfg, imgs)[k])
                != #[trigger] container_path(i, "/envFrom"@),
{
    lemma_reveal_fields();
    assert forall|k: int, i: nat| 0 <= k < spec_build_patch(p, cfg, imgs).len() implies op_path(
        #[trigger] spec_build_patch(p, cfg, imgs)[k],
    ) != #[trigger] container_path(i, "/envFrom"@) by {
        if op_path(spec_build_patch(p, cfg, imgs)[k]) == container_path(i, "/envFrom"@) {
            lemma_patch_field(p, cfg, imgs, k, i, "/envFrom"@);
        }
    }
}

/// With `stubby.io/keep-volumes: "true"`, no operation touches a container's
/// `volumeMounts` or the pod's volumes.
pub proof fn law_keep_volumes(p: Pod, cfg: StubbyConfigView, imgs: ImageRefs)
    requires
        cfg.keep_volumes,
    ensures
        forall|k: int|
            0 <= k < spec_build_patch(p, cfg, imgs).len() ==> op_path(#[trigger] spec_build_patch(p, cfg, imgs)[k])
                != "/spec/volumes"@,
        forall|k: int, i: nat|
            0 <= k < spec_build_patch(p, cfg, imgs).len() ==> op_path(#[trigger] spec_build_patch(p, cfg, imgs)[k])
                != #[trigger] container_path(i, "/volumeMounts"@),
{
    lemma_reveal_fields();
    lemma_patch_layout(p, cfg, imgs);
    let cs = pod_containers(p);
    let image = spec_chosen_image(cfg, imgs);
    assert forall|k: int| 0 <= k < spec_build_patch(p, cfg, imgs).len() implies op_path(
        #[trigger] spec_build_patch(p, cfg, imgs)[k],
    ) != "/spec/volumes"@ by {
        let cops = containers_ops(cs, cfg, image);
        let op = cops[k];
        lemma_containers_ops_from_kept(cs, cfg, image);
        assert(from_kept(cs, cfg, image, op));
        let j = choose|j: nat| j < cs.len() && !skipped(cs[j as int].name@, cfg) && #[trigger] shaped(j, cs[j as int], cfg, image, op);
        let s2 = choose|s2: Seq<char>| #[trigger] container_path(j, s2) == op_path(op) && field_rule(op, j, s2, cs[j as int], cfg, image);
        lemma_volumes_not_container_path(j, s2);
    }
    assert forall|k: int, i: nat| 0 <= k < spec_build_patch(p, cfg, imgs).len() implies op_path(
        #[trigger] spec_build_patch(p, cfg, imgs)[k],
    ) != #[trigger] container_path(i, "/volumeMounts"@) by {
        if op_path(spec_build_patch(p, cfg, imgs)[k]) == container_path(i, "/volumeMounts"@) {
            lemma_patch_field(p, cfg, imgs, k, i, "/volumeMounts"@);
        }
    }
}

/// `replace` is used only for a container's image and for the pruned volume
/// list; every optional field is written with `add`, which does not fail when
/// the field is absent.
pub proof fn law_replace_only_image(p: Pod, cfg: StubbyConfigView, imgs: ImageRefs)
    ensures
        forall|k: int|
            0 <= k < spec_build_patch(p, cfg, imgs).len() && (#[trigger] spec_build_patch(p, cfg, imgs)[k]) is Replace
                ==> op_path(spec_build_patch(p, cfg, imgs)[k]) == "/spec/volumes"@ || exists|i: nat|
                i < pod_containers(p).len() && op_path(spec_build_patch(p, cfg, imgs)[k])
                    == #[trigger] container_path(i, "/image"@),
{
    let cs = pod_containers(p);
    let image = spec_chosen_image(cfg, imgs);
    lemma_patch_layout(p, cfg, imgs);
    assert forall|k: int|
        0 <= k < spec_build_patch(p, cfg, imgs).len() && (#[trigger] spec_build_patch(p, cfg, imgs)[k]) is Replace
            implies op_path(spec_build_patch(p, cfg, imgs)[k]) == "/spec/volumes"@ || exists|i: nat|
            i < pod_containers(p).len() && op_path(spec_build_patch(p, cfg, imgs)[k])
                == #[trigger] container_path(i, "/image"@) by {
        let cops = containers_ops(cs, cfg, image);
        if k < cops.len() {
            let op = cops[k];
            lemma_containers_ops_from_kept(cs, cfg, image);
            assert(from_kept(cs, cfg, image, op));
            let j = choose|j: nat| j < cs.len() && !skipped(cs[j as int].name@, cfg) && #[trigger] shaped(j, cs[j as int], cfg, image, op);
            let s2 = choose|s2: Seq<char>| #[trigger] container_path(j, s2) == op_path(op) && field_rule(op, j, s2, cs[j as int], cfg, image);
            assert(op_path(op) == container_path(j, "/image"@));
        }
    }
}

/// Each container that is not skipped gets its fields as the rules give:
/// the dummy image, the ports and both probes on the configured port, the
/// two variables (appended in order to an existing `env`, else as a new
/// `env`), and the removals and default resources exactly under their
/// conditions.
#[verifier::spinoff_prover]
#[verifier::rlimit(40)]
pub proof fn law_kept_container_fields(p: Pod, cfg: StubbyConfigView, imgs: ImageRefs, i: int)
    requires
        0 <= i < pod_containers(p).len(),
        !skipped(pod_containers(p)[i].name@, cfg),
    ensures
        ({
            let ops = spec_build_patch(p, cfg, imgs);
            let c = pod_containers(p)[i];
            let cp = |f: Seq<char>| container_path(i as nat, f);
            &&& ops.contains(PatchOpView::Replace(cp("/image"@), JsonView::Str(spec_chosen_image(cfg, imgs))))
            &&& ops.contains(PatchOpView::Add(cp("/ports"@), ports_json(cfg.port)))
            &&& ops.contains(PatchOpView::Add(cp("/livenessProbe"@), probe_json("/health"@, cfg.port, 10)))
            &&& ops.contains(PatchOpView::Add(cp("/readinessProbe"@), probe_json("/ready"@, cfg.port, 5)))
            &&& c.has_env ==> exists|k1: int, k2: int|
                0 <= k1 < k2 < ops.len() && ops[k1] == PatchOpView::Add(cp("/env/-"@), app_name_env(cfg))
                    && ops[k2] == PatchOpView::Add(cp("/env/-"@), port_env(cfg))
            &&& !c.has_env ==> ops.contains(
                PatchOpView::Add(cp("/env"@), JsonView::Arr(seq![app_name_env(cfg), port_env(cfg)])),
            )
            &&& c.has_command <==> ops.contains(PatchOpView::Remove(cp("/command"@)))
            &&& c.has_args <==> ops.contains(PatchOpView::Remove(cp("/args"@)))
            &&& (!cfg.keep_env_from && c.has_env_from) <==> ops.contains(PatchOpView::Remove(cp("/envFrom"@)))
            &&& (!cfg.keep_volumes && c.volume_mounts is Some) <==> ops.contains(
                PatchOpView::Remove(cp("/volumeMounts"@)),
            )
            &&& !c.has_resources <==> ops.contains(PatchOpView::Add(cp("/resources"@), resources_json()))
        }),
{
    lemma_reveal_fields();
    let cs = pod_containers(p);
    let image = spec_chosen_image(cfg, imgs);
    let ops = spec_build_patch(p, cfg, imgs);
    let c = cs[i];
    let ii = i as nat;
    let co = container_ops(ii, c, cfg, image);
    let cops = containers_ops(cs, cfg, image);
    let off = lemma_block_in(cs, cfg, image, i);
    lemma_patch_layout(p, cfg, imgs);
    lemma_container_ops_shaped(ii, c, cfg, image);
    assert forall|t: int| 0 <= t < co.len() implies ops[off + t] == #[trigger] co[t] by {
        assert(cops[off + t] == co[t]);
    }
    let b = base_ops(ii, cfg, image);
    let e = entrypoint_ops(ii, c);
    let v = env_ops(ii, c, cfg);
    let st = strip_ops(ii, c, cfg);
    let r = resources_ops(ii, c);
    assert(co == b + e + v + st + r);
    let l1 = b.len() as int;
    let l2 = l1 + e.len();
    let l3 = l2 + v.len();
    let l4 = l3 + st.len();
    // the block's members, at known offsets
    assert(co[0] == b[0] && co[1] == b[1] && co[2] == b[2] && co[3] == b[3]);
    assert(ops[off] == b[0] && ops[off + 1] == b[1] && ops[off + 2] == b[2] && ops[off + 3] == b[3]);
    let e1: Seq<PatchOpView> = if c.has_command { seq![PatchOpView::Remove(container_path(ii, "/command"@))] } else { Seq::empty() };
    let e2: Seq<PatchOpView> = if c.has_args { seq![PatchOpView::Remove(container_path(ii, "/args"@))] } else { Seq::empty() };
    assert(e == e1 + e2);
    if c.has_command {
        assert(co[l1] == e[0]);
        assert(ops[off + l1] == co[l1]);
    }
    if c.has_args {
        assert(co[l1 + e1.len()] == e[e1.len() as int]);
        assert(ops[off + l1 + e1.len()] == co[l1 + e1.len()]);
    }
    if c.has_env {
        assert(co[l2] == v[0] && co[l2 + 1] == v[1]);
        assert(ops[off + l2] == v[0] && ops[off + l2 + 1] == v[1]);
    } else {
        assert(co[l2] == v[0]);
        assert(ops[off + l2] == v[0]);
    }
    let s1: Seq<PatchOpView> = if !cfg.keep_env_from && c.has_env_from { seq![PatchOpView::Remove(container_path(ii, "/envFrom"@))] } else { Seq::empty() };
    let s2: Seq<PatchOpView> = if !cfg.keep_volumes && c.volume_mounts is Some { seq![PatchOpView::Remove(container_path(ii, "/volumeMounts"@))] } else { Seq::empty() };
    assert(st == s1 + s2);
    if !cfg.keep_env_from && c.has_env_from {
        assert(co[l3] == st[0]);
        assert(ops[off + l3] == co[l3]);
    }
    if !cfg.keep_volumes && c.volume_mounts is Some {
        assert(co[l3 + s1.len()] == st[s1.len() as int]);
        assert(ops[off + l3 + s1.len()] == co[l3 + s1.len()]);
    }
    if !c.has_resources {
        assert(co[l4] == r[0]);
        assert(ops[off + l4] == co[l4]);
    }
    // the other direction: an operation on one of these fields obeys the rule
    if ops.contains(PatchOpView::Remove(container_path(ii, "/command"@))) {
        let k = choose|k: int| 0 <= k < ops.len() && ops[k] == PatchOpView::Remove(container_path(ii, "/command"@));
        lemma_patch_field(p, cfg, imgs, k, ii, "/command"@);
    }
    if ops.contains(PatchOpView::Remove(container_path(ii, "/args"@))) {
        let k = choose|k: int| 0 <= k < ops.len() && ops[k] == PatchOpView::Remove(container_path(ii, "/args"@));
        lemma_patch_field(p, cfg, imgs, k, ii, "/args"@);
    }
    if ops.contains(PatchOpView::Remove(container_path(ii, "/envFrom"@))) {
        let k = choose|k: int| 0 <= k < ops.len() && ops[k] == PatchOpView::Remove(container_path(ii, "/envFrom"@));
        lemma_patch_field(p, cfg, imgs, k, ii, "/envFrom"@);
    }
    if ops.contains(PatchOpView::Remove(container_path(ii, "/volumeMounts"@))) {
        let k = choose|k: int| 0 <= k < ops.len() && ops[k] == PatchOpView::Remove(container_path(ii, "/volumeMounts"@));
        lemma_patch_field(p, cfg, imgs, k, ii, "/volumeMounts"@);
    }
    if ops.contains(PatchOpView::Add(container_path(ii, "/resources"@), resources_json())) {
        let k = choose|k: int| 0 <= k < ops.len() && ops[k] == PatchOpView::Add(container_path(ii, "/resources"@), resources_json());
        lemma_patch_field(p, cfg, imgs, k, ii, "/resources"@);
    }
}

/// Operations of a lower-numbered container come before those of a higher
/// one.
proof fn lemma_order(
    cs: Seq<Container>,
    cfg: StubbyConfigView,
    image: Seq<char>,
    k1: int,
    k2: int,
    i: nat,
    j: nat,
    s1: Seq<char>,
    s2: Seq<char>,
)
    requires
        0 <= k1 < k2 < containers_ops(cs, cfg, image).len(),
        s1.len() > 0 && s1[0] == '/',
        s2.len() > 0 && s2[0] == '/',
        op_path(containers_ops(cs, cfg, image)[k1]) == container_path(i, s1),
        op_path(containers_ops(cs, cfg, image)[k2]) == container_path(j, s2),
    ensures
        i <= j,
    decreases cs.len(),
{
    let n = (cs.len() - 1) as nat;
    let prev = cs.drop_last();
    let a = containers_ops(prev, cfg, image);
    let tail: Seq<PatchOpView> = if skipped(cs.last().name@, cfg) {
        Seq::empty()
    } else {
        container_ops(n, cs.last(), cfg, image)
    };
    assert(containers_ops(cs, cfg, image) == a + tail);
    if k2 < a.len() {
        assert((a + tail)[k1] == a[k1]);
        assert((a + tail)[k2] == a[k2]);
        lemma_order(prev, cfg, image, k1, k2, i, j, s1, s2);
    } else {
        assert((a + tail)[k2] == tail[k2 - a.len()]);
        lemma_owner(cs, cfg, image, k2, j, s2);
        if k1 < a.len() {
            assert((a + tail)[k1] == a[k1]);
            lemma_owner(prev, cfg, image, k1, i, s1);
            lemma_container_ops_shaped(n, cs.last(), cfg, image);
            let op = tail[k2 - a.len()];
            assert(shaped(n, cs.last(), cfg, image, op));
            let s3 = choose|s3: Seq<char>| #[trigger] container_path(n, s3) == op_path(op) && field_rule(op, n, s3, cs.last(), cfg, image);
            lemma_container_path_injective(j, n, s2, s3);
        } else {
            assert((a + tail)[k1] == tail[k1 - a.len()]);
            lemma_container_ops_shaped(n, cs.last(), cfg, image);
            let op1 = tail[k1 - a.len()];
            let op2 = tail[k2 - a.len()];
            assert(shaped(n, cs.last(), cfg, image, op1));
            assert(shaped(n, cs.last(), cfg, image, op2));
            let t1 = choose|t: Seq<char>| #[trigger] container_path(n, t) == op_path(op1) && field_rule(op1, n, t, cs.last(), cfg, image);
            let t2 = choose|t: Seq<char>| #[trigger] container_path(n, t) == op_path(op2) && field_rule(op2, n, t, cs.last(), cfg, image);
            lemma_container_path_injective(i, n, s1, t1);
            lemma_container_path_injective(j, n, s2, t2);
        }
    }
}

/// A container's image is replaced by one operation only.
proof fn lemma_single_image(cs: Seq<Container>, cfg: StubbyConfigView, image: Seq<char>, k1: int, k2: int, i: nat)
    requires
        0 <= k1 < containers_ops(cs, cfg, image).len(),
        0 <= k2 < containers_ops(cs, cfg, image).len(),
        op_path(containers_ops(cs, cfg, image)[k1]) == container_path(i, "/image"@),
        op_path(containers_ops(cs, cfg, image)[k2]) == container_path(i, "/image"@),
    ensures
        k1 == k2,
    decreases cs.len(),
{
    lemma_reveal_fields();
    let n = (cs.len() - 1) as nat;
    let prev = cs.drop_last();
    let a = containers_ops(prev, cfg, image);
    let tail: Seq<PatchOpView> = if skipped(cs.last().name@, cfg) {
        Seq::empty()
    } else {
        container_ops(n, cs.last(), cfg, image)
    };
    assert(containers_ops(cs, cfg, image) == a + tail);
    lemma_owner(cs, cfg, image, k1, i, "/image"@);
    lemma_owner(cs, cfg, image, k2, i, "/image"@);
    if k1 < a.len() && k2 < a.len() {
        assert((a + tail)[k1] == a[k1]);
        assert((a + tail)[k2] == a[k2]);
        lemma_single_image(prev, cfg, image, k1, k2, i);
    } else if k1 >= a.len() && k2 >= a.len() {
        assert((a + tail)[k1] == tail[k1 - a.len()]);
        assert((a + tail)[k2] == tail[k2 - a.len()]);
        lemma_container_ops_shaped(n, cs.last(), cfg, image);
        // both are replaces, and only the first of the block is one
        assert(tail[k1 - a.len()] is Replace);
        assert(tail[k2 - a.len()] is Replace);
    } else {
        let (ka, kt) = if k1 < a.len() { (k1, k2) } else { (k2, k1) };
        assert((a + tail)[ka] == a[ka]);
        assert((a + tail)[kt] == tail[kt - a.len()]);
        lemma_owner(prev, cfg, image, ka, i, "/image"@);
        lemma_container_ops_shaped(n, cs.last(), cfg, image);
        let op = tail[kt - a.len()];
        assert(shaped(n, cs.last(), cfg, image, op));
        let s3 = choose|s3: Seq<char>| #[trigger] container_path(n, s3) == op_path(op) && field_rule(op, n, s3, cs.last(), cfg, image);
        lemma_container_path_injective(i, n, "/image"@, s3);
    }
}

/// The patch keeps the containers in order, replaces each container's image
/// once, and puts the pod-level `/spec/volumes` operation, if any, last.
pub proof fn law_patch_order(p: Pod, cfg: StubbyConfigView, imgs: ImageRefs)
    ensures
        forall|k1: int, k2: int, i: nat, j: nat, s1: Seq<char>, s2: Seq<char>|
            0 <= k1 < k2 < spec_build_patch(p, cfg, imgs).len() && s1.len() > 0 && s1[0] == '/' && s2.len() > 0
                && s2[0] == '/' && op_path(#[trigger] spec_build_patch(p, cfg, imgs)[k1]) == #[trigger] container_path(i, s1)
                && op_path(#[trigger] spec_build_patch(p, cfg, imgs)[k2]) == #[trigger] container_path(j, s2)
                ==> i <= j,
        forall|k1: int, k2: int, i: nat|
            0 <= k1 < spec_build_patch(p, cfg, imgs).len() && 0 <= k2 < spec_build_patch(p, cfg, imgs).len()
                && op_path(#[trigger] spec_build_patch(p, cfg, imgs)[k1]) == #[trigger] container_path(i, "/image"@)
                && op_path(#[trigger] spec_build_patch(p, cfg, imgs)[k2]) == container_path(i, "/image"@) ==> k1 == k2,
        forall|k: int|
            0 <= k < spec_build_patch(p, cfg, imgs).len() && op_path(#[trigger] spec_build_patch(p, cfg, imgs)[k])
                == "/spec/volumes"@ ==> k == spec_build_patch(p, cfg, imgs).len() - 1,
{
    lemma_reveal_fields();
    let cs = pod_containers(p);
    let image = spec_chosen_image(cfg, imgs);
    let cops = containers_ops(cs, cfg, image);
    let ops = spec_build_patch(p, cfg, imgs);
    lemma_patch_layout(p, cfg, imgs);
    assert forall|k1: int, k2: int, i: nat, j: nat, s1: Seq<char>, s2: Seq<char>|
        0 <= k1 < k2 < ops.len() && s1.len() > 0 && s1[0] == '/' && s2.len() > 0 && s2[0] == '/' && op_path(
            #[trigger] ops[k1],
        ) == #[trigger] container_path(i, s1) && op_path(#[trigger] ops[k2]) == #[trigger] container_path(j, s2)
        implies i <= j by {
        if k2 >= cops.len() {
            lemma_volumes_not_container_path(j, s2);
        } else {
            lemma_order(cs, cfg, image, k1, k2, i, j, s1, s2);
        }
    }
    assert forall|k1: int, k2: int, i: nat|
        0 <= k1 < ops.len() && 0 <= k2 < ops.len() && op_path(#[trigger] ops[k1]) == #[trigger] container_path(
            i,
            "/image"@,
        ) && op_path(#[trigger] ops[k2]) == container_path(i, "/image"@) implies k1 == k2 by {
        if k1 >= cops.len() {
            lemma_volumes_not_container_path(i, "/image"@);
        } else if k2 >= cops.len() {
            lemma_volumes_not_container_path(i, "/image"@);
        } else {
            lemma_single_image(cs, cfg, image, k1, k2, i);
        }
    }
    assert forall|k: int| 0 <= k < ops.len() && op_path(#[trigger] ops[k]) == "/spec/volumes"@ implies k == ops.len() - 1 by {
        if k < cops.len() {
            lemma_containers_ops_from_kept(cs, cfg, image);
            assert(from_kept(cs, cfg, image, cops[k]));
            let op = cops[k];
            let j = choose|j: nat| j < cs.len() && !skipped(cs[j as int].name@, cfg) && #[trigger] shaped(j, cs[j as int], cfg, image, op);
            let s2 = choose|s2: Seq<char>| #[trigger] container_path(j, s2) == op_path(op) && field_rule(op, j, s2, cs[j as int], cfg, image);
            lemma_volumes_not_container_path(j, s2);
        }
    }
}

/// When every container is skipped, nothing is patched: the patch is empty
/// and the caller answers without one.
pub proof fn law_all_skipped_empty_patch(p: Pod, cfg: StubbyConfigView, imgs: ImageRefs)
    requires
        forall|i: int| 0 <= i < pod_containers(p).len() ==> skipped(#[trigger] pod_containers(p)[i].name@, cfg),
    ensures
        spec_build_patch(p, cfg, imgs) == Seq::<PatchOpView>::empty(),
{
    let cs = pod_containers(p);
    let image = spec_chosen_image(cfg, imgs);
    let a = containers_ops(cs, cfg, image);
    lemma_containers_ops_from_kept(cs, cfg, image);
    if a.len() > 0 {
        assert(from_kept(cs, cfg, image, a[0]));
        let j = choose|j: nat| j < cs.len() && !skipped(cs[j as int].name@, cfg) && #[trigger] shaped(j, cs[j as int], cfg, image, a[0]);
        assert(skipped(cs[j as int].name@, cfg));
    }
}

/// Equal container paths with the same index have equal field suffixes.
proof fn lemma_container_path_same_index(i: nat, s1: Seq<char>, s2: Seq<char>)
    requires
        container_path(i, s1) == container_path(i, s2),
    ensures
        s1 == s2,
{
    let pre = "/spec/containers/"@ + nat_text(i);
    assert(container_path(i, s1) == pre + s1);
    assert(container_path(i, s2) == pre + s2);
    assert(s1 =~= (pre + s1).skip(pre.len() as int));
    assert(s2 =~= (pre + s2).skip(pre.len() as int));
}

/// The field suffixes of the operations `container_ops` writes, in its order,
/// part by part.
pub open spec fn base_suffixes() -> Seq<Seq<char>> {
    seq!["/image"@, "/ports"@, "/livenessProbe"@, "/readinessProbe"@]
}

pub open spec fn entrypoint_suffixes(c: Container) -> Seq<Seq<char>> {
    (if c.has_command {
        seq!["/command"@]
    } else {
        Seq::empty()
    }) + (if c.has_args {
        seq!["/args"@]
    } else {
        Seq::empty()
    })
}

pub open spec fn env_suffixes(c: Container) -> Seq<Seq<char>> {
    if c.has_env {
        seq!["/env/-"@, "/env/-"@]
    } else {
        seq!["/env"@]
    }
}

pub open spec fn strip_suffixes(c: Container, cfg: StubbyConfigView) -> Seq<Seq<char>> {
    (if !cfg.keep_env_from && c.has_env_from {
        seq!["/envFrom"@]
    } else {
        Seq::empty()
    }) + (if !cfg.keep_volumes && c.volume_mounts is Some {
        seq!["/volumeMounts"@]
    } else {
        Seq::empty()
    })
}

pub open spec fn resources_suffixes(c: Container) -> Seq<Seq<char>> {
    if !c.has_resources {
        seq!["/resources"@]
    } else {
        Seq::empty()
    }
}

pub open spec fn block_suffixes(c: Container, cfg: StubbyConfigView) -> Seq<Seq<char>> {
    base_suffixes() + entrypoint_suffixes(c) + env_suffixes(c) + strip_suffixes(c, cfg) + resources_suffixes(c)
}

pub open spec fn aligned(ops: Seq<PatchOpView>, sfx: Seq<Seq<char>>, i: nat) -> bool {
    &&& ops.len() == sfx.len()
    &&& forall|t: int| 0 <= t < ops.len() ==> op_path(#[trigger] ops[t]) == container_path(i, sfx[t])
}

proof fn lemma_aligned_concat(a: Seq<PatchOpView>, sa: Seq<Seq<char>>, b: Seq<PatchOpView>, sb: Seq<Seq<char>>, i: nat)
    requires
        aligned(a, sa, i),
        aligned(b, sb, i),
    ensures
        aligned(a + b, sa + sb, i),
{
    assert forall|t: int| 0 <= t < (a + b).len() implies op_path(#[trigger] (a + b)[t]) == container_path(i, (sa + sb)[t]) by {
        if t < a.len() {
            assert((a + b)[t] == a[t]);
            assert((sa + sb)[t] == sa[t]);
        } else {
            assert((a + b)[t] == b[t - a.len()]);
            assert((sa + sb)[t] == sb[t - a.len()]);
        }
    }
}

proof fn lemma_base_aligned(i: nat, cfg: StubbyConfigView, image: Seq<char>)
    ensures
        aligned(base_ops(i, cfg, image), base_suffixes(), i),
{
    let b = base_ops(i, cfg, image);
    let sb = base_suffixes();
    assert forall|t: int| 0 <= t < b.len() implies op_path(#[trigger] b[t]) == container_path(i, sb[t]) by {
        if t == 0 {
        } else if t == 1 {
        } else if t == 2 {
        } else {
        }
    }
}

proof fn lemma_entrypoint_aligned(i: nat, c: Container)
    ensures
        aligned(entrypoint_ops(i, c), entrypoint_suffixes(c), i),
{
    let e1: Seq<PatchOpView> = if c.has_command { seq![PatchOpView::Remove(container_path(i, "/command"@))] } else { Seq::empty() };
    let se1: Seq<Seq<char>> = if c.has_command { seq!["/command"@] } else { Seq::empty() };
    let e2: Seq<PatchOpView> = if c.has_args { seq![PatchOpView::Remove(container_path(i, "/args"@))] } else { Seq::empty() };
    let se2: Seq<Seq<char>> = if c.has_args { seq!["/args"@] } else { Seq::empty() };
    if c.has_command {
        assert(op_path(e1[0]) == container_path(i, se1[0]));
    }
    if c.has_args {
        assert(op_path(e2[0]) == container_path(i, se2[0]));
    }
    assert(aligned(e1, se1, i));
    assert(aligned(e2, se2, i));
    lemma_aligned_concat(e1, se1, e2, se2, i);
}

proof fn lemma_env_aligned(i: nat, c: Container, cfg: StubbyConfigView)
    ensures
        aligned(env_ops(i, c, cfg), env_suffixes(c), i),
{
    let v = env_ops(i, c, cfg);
    let sv = env_suffixes(c);
    assert forall|t: int| 0 <= t < v.len() implies op_path(#[trigger] v[t]) == container_path(i, sv[t]) by {
        if t == 0 {
        } else {
        }
    }
}

proof fn lemma_strip_aligned(i: nat, c: Container, cfg: StubbyConfigView)
    ensures
        aligned(strip_ops(i, c, cfg), strip_suffixes(c, cfg), i),
{
    let s1: Seq<PatchOpView> = if !cfg.keep_env_from && c.has_env_from { seq![PatchOpView::Remove(container_path(i, "/envFrom"@))] } else { Seq::empty() };
    let ss1: Seq<Seq<char>> = if !cfg.keep_env_from && c.has_env_from { seq!["/envFrom"@] } else { Seq::empty() };
    let s2: Seq<PatchOpView> = if !cfg.keep_volumes && c.volume_mounts is Some { seq![PatchOpView::Remove(container_path(i, "/volumeMounts"@))] } else { Seq::empty() };
    let ss2: Seq<Seq<char>> = if !cfg.keep_volumes && c.volume_mounts is Some { seq!["/volumeMounts"@] } else { Seq::empty() };
    if !cfg.keep_env_from && c.has_env_from {
        assert(op_path(s1[0]) == container_path(i, ss1[0]));
    }
    if !cfg.keep_volumes && c.volume_mounts is Some {
        assert(op_path(s2[0]) == container_path(i, ss2[0]));
    }
    assert(aligned(s1, ss1, i));
    assert(aligned(s2, ss2, i));
    lemma_aligned_concat(s1, ss1, s2, ss2, i);
}

proof fn lemma_resources_aligned(i: nat, c: Container)
    ensures
        aligned(resources_ops(i, c), resources_suffixes(c), i),
{
    let r = resources_ops(i, c);
    let sr = resources_suffixes(c);
    if !c.has_resources {
        assert(op_path(r[0]) == container_path(i, sr[0]));
    }
}

/// Each operation of a container's block addresses the field that
/// [`block_suffixes`] names at the same place.
proof fn lemma_block_paths(i: nat, c: Container, cfg: StubbyConfigView, image: Seq<char>)
    ensures
        aligned(container_ops(i, c, cfg, image), block_suffixes(c, cfg), i),
{
    let b = base_ops(i, cfg, image);
    let e = entrypoint_ops(i, c);
    let v = env_ops(i, c, cfg);
    let st = strip_ops(i, c, cfg);
    let r = resources_ops(i, c);
    let sb = base_suffixes();
    let se = entrypoint_suffixes(c);
    let sv = env_suffixes(c);
    let sst = strip_suffixes(c, cfg);
    let sr = resources_suffixes(c);
    lemma_base_aligned(i, cfg, image);
    lemma_entrypoint_aligned(i, c);
    lemma_env_aligned(i, c, cfg);
    lemma_strip_aligned(i, c, cfg);
    lemma_resources_aligned(i, c);
    lemma_aligned_concat(b, sb, e, se, i);
    lemma_aligned_concat(b + e, sb + se, v, sv, i);
    lemma_aligned_concat(b + e + v, sb + se + sv, st, sst, i);
    lemma_aligned_concat(b + e + v + st, sb + se + sv + sst, r, sr, i);
}

/// In a block, the env fields stand only in the env part, and only the one
/// the container's `env` calls for.
proof fn lemma_env_positions(c: Container, cfg: StubbyConfigView, t: int)
    requires
        0 <= t < block_suffixes(c, cfg).len(),
        block_suffixes(c, cfg)[t] == "/env/-"@ || block_suffixes(c, cfg)[t] == "/env"@,
    ensures
        base_suffixes().len() + entrypoint_suffixes(c).len() <= t < base_suffixes().len() + entrypoint_suffixes(c).len()
            + env_suffixes(c).len(),
        block_suffixes(c, cfg)[t] == (if c.has_env { "/env/-"@ } else { "/env"@ }),
{
    lemma_reveal_fields();
    let sb = base_suffixes();
    let se = entrypoint_suffixes(c);
    let sv = env_suffixes(c);
    let sst = strip_suffixes(c, cfg);
    let sr = resources_suffixes(c);
    let x = block_suffixes(c, cfg)[t];
    let l1 = sb.len() as int;
    let l2 = l1 + se.len();
    let l3 = l2 + sv.len();
    let l4 = l3 + sst.len();
    if t < l1 {
        assert(x == (sb + se)[t]);
        assert(x == sb[t]);
        if t == 0 {
        } else if t == 1 {
        } else if t == 2 {
        } else {
        }
    } else if t < l2 {
        assert(x == (sb + se)[t]);
        assert(x == se[t - l1]);
        if c.has_command && t == l1 {
            assert(x == "/command"@);
        } else {
            assert(x == "/args"@);
        }
    } else if t < l3 {
        assert(x == (sb + se + sv)[t]);
        assert(x == sv[t - l2]);
        if c.has_env {
            if t == l2 {
            } else {
            }
        }
    } else if t < l4 {
        assert(x == (sb + se + sv + sst)[t]);
        assert(x == sst[t - l3]);
        if !cfg.keep_env_from && c.has_env_from && t == l3 {
            assert(x == "/envFrom"@);
        } else {
            assert(x == "/volumeMounts"@);
        }
    } else {
        assert(x == sr[t - l4]);
        assert(x == "/resources"@);
    }
}

/// The operations of the first `j` containers are a prefix of those of all.
proof fn lemma_prefix(cs: Seq<Container>, cfg: StubbyConfigView, image: Seq<char>, j: int)
    requires
        0 <= j <= cs.len(),
    ensures
        containers_ops(cs.take(j), cfg, image).len() <= containers_ops(cs, cfg, image).len(),
        forall|k: int|
            0 <= k < containers_ops(cs.take(j), cfg, image).len() ==> #[trigger] containers_ops(cs, cfg, image)[k]
                == containers_ops(cs.take(j), cfg, image)[k],
    decreases cs.len(),
{
    if j == cs.len() {
        assert(cs.take(j) =~= cs);
    } else {
        let n = (cs.len() - 1) as nat;
        let prev = cs.drop_last();
        assert(prev.take(j) =~= cs.take(j));
        lemma_prefix(prev, cfg, image, j);
        let a = containers_ops(prev, cfg, image);
        let tail: Seq<PatchOpView> = if skipped(cs.last().name@, cfg) {
            Seq::empty()
        } else {
            container_ops(n, cs.last(), cfg, image)
        };
        assert(containers_ops(cs, cfg, image) == a + tail);
        assert forall|k: int| 0 <= k < containers_ops(cs.take(j), cfg, image).len() implies #[trigger] containers_ops(
            cs,
            cfg,
            image,
        )[k] == containers_ops(cs.take(j), cfg, image)[k] by {
            assert((a + tail)[k] == a[k]);
        }
    }
}

/// An operation past the first `j` containers' operations belongs to a
/// container numbered `j` or higher.
proof fn lemma_prefix_owner(
    cs: Seq<Container>,
    cfg: StubbyConfigView,
    image: Seq<char>,
    j: int,
    k: int,
    m: nat,
    s: Seq<char>,
)
    requires
        0 <= j <= cs.len(),
        containers_ops(cs.take(j), cfg, image).len() <= k < containers_ops(cs, cfg, image).len(),
        s.len() > 0 && s[0] == '/',
        op_path(containers_ops(cs, cfg, image)[k]) == container_path(m, s),
    ensures
        m >= j,
    decreases cs.len(),
{
    if j == cs.len() {
        assert(cs.take(j) =~= cs);
    } else {
        let n = (cs.len() - 1) as nat;
        let prev = cs.drop_last();
        assert(prev.take(j) =~= cs.take(j));
        let a = containers_ops(prev, cfg, image);
        let tail: Seq<PatchOpView> = if skipped(cs.last().name@, cfg) {
            Seq::empty()
        } else {
            container_ops(n, cs.last(), cfg, image)
        };
        assert(containers_ops(cs, cfg, image) == a + tail);
        if k < a.len() {
            assert((a + tail)[k] == a[k]);
            lemma_prefix_owner(prev, cfg, image, j, k, m, s);
        } else {
            assert((a + tail)[k] == tail[k - a.len()]);
            lemma_container_ops_shaped(n, cs.last(), cfg, image);
            let op = tail[k - a.len()];
            assert(shaped(n, cs.last(), cfg, image, op));
            let s3 = choose|s3: Seq<char>| #[trigger] container_path(n, s3) == op_path(op) && field_rule(op, n, s3, cs.last(), cfg, image);
            lemma_container_path_injective(m, n, s, s3);
        }
    }
}

/// Each container that is not skipped gets exactly its own operations, as
/// one block in the patch at the returned offset: no operation outside the
/// block addresses it.
pub proof fn law_container_block(p: Pod, cfg: StubbyConfigView, imgs: ImageRefs, i: int) -> (off: int)
    requires
        0 <= i < pod_containers(p).len(),
        !skipped(pod_containers(p)[i].name@, cfg),
    ensures
        ({
            let ops = spec_build_patch(p, cfg, imgs);
            let co = container_ops(i as nat, pod_containers(p)[i], cfg, spec_chosen_image(cfg, imgs));
            &&& 0 <= off && off + co.len() <= ops.len()
            &&& forall|t: int| 0 <= t < co.len() ==> ops[off + t] == #[trigger] co[t]
            &&& forall|k: int, s: Seq<char>|
                0 <= k < ops.len() && s.len() > 0 && s[0] == '/' && op_path(#[trigger] ops[k])
                    == #[trigger] container_path(i as nat, s) ==> off <= k < off + co.len()
        }),
{
    let cs = pod_containers(p);
    let image = spec_chosen_image(cfg, imgs);
    let ops = spec_build_patch(p, cfg, imgs);
    let cops = containers_ops(cs, cfg, image);
    let c = cs[i];
    let co = container_ops(i as nat, c, cfg, image);
    let pi = containers_ops(cs.take(i), cfg, image);
    let pi1 = containers_ops(cs.take(i + 1), cfg, image);
    assert(cs.take(i + 1).drop_last() =~= cs.take(i));
    assert(cs.take(i + 1).last() == c);
    assert(pi1 == pi + co);
    lemma_prefix(cs, cfg, image, i + 1);
    lemma_prefix(cs, cfg, image, i);
    lemma_patch_layout(p, cfg, imgs);
    lemma_container_ops_shaped(i as nat, c, cfg, image);
    let off = pi.len() as int;
    assert forall|t: int| 0 <= t < co.len() implies ops[off + t] == #[trigger] co[t] by {
        assert(pi1[off + t] == co[t]);
        assert(cops[off + t] == pi1[off + t]);
    }
    assert forall|k: int, s: Seq<char>|
        0 <= k < ops.len() && s.len() > 0 && s[0] == '/' && op_path(#[trigger] ops[k]) == #[trigger] container_path(
            i as nat,
            s,
        ) implies off <= k < off + co.len() by {
        if k >= cops.len() {
            lemma_volumes_not_container_path(i as nat, s);
        } else if k < off {
            assert(cops[k] == pi[k]);
            lemma_owner(cs.take(i), cfg, image, k, i as nat, s);
        } else if k >= off + co.len() {
            lemma_prefix_owner(cs, cfg, image, i + 1, k, i as nat, s);
        }
    }
    off
}

/// For a container that is not skipped, the operations on its `env` are
/// exactly the two appends (`STUBBY_APP_NAME`, then `STUBBY_PORT`) when it
/// has an `env`, else exactly one new `env` holding both; the existing `env`
/// is never removed or replaced. Ports and both probes use the configured
/// port.
pub proof fn law_env_and_port_ops(p: Pod, cfg: StubbyConfigView, imgs: ImageRefs, i: int)
    requires
        0 <= i < pod_containers(p).len(),
        !skipped(pod_containers(p)[i].name@, cfg),
    ensures
        ({
            let ops = spec_build_patch(p, cfg, imgs);
            let c = pod_containers(p)[i];
            let ii = i as nat;
            &&& c.has_env ==> exists|k0: int|
                0 <= k0 && k0 + 1 < ops.len() && #[trigger] ops[k0] == PatchOpView::Add(
                    container_path(ii, "/env/-"@),
                    app_name_env(cfg),
                ) && ops[k0 + 1] == PatchOpView::Add(container_path(ii, "/env/-"@), port_env(cfg))
                    && forall|k: int|
                    0 <= k < ops.len() && op_path(#[trigger] ops[k]) == container_path(ii, "/env/-"@) ==> k == k0
                        || k == k0 + 1
            &&& c.has_env ==> forall|k: int| 0 <= k < ops.len() ==> op_path(#[trigger] ops[k]) != container_path(ii, "/env"@)
            &&& !c.has_env ==> exists|k0: int|
                0 <= k0 < ops.len() && #[trigger] ops[k0] == PatchOpView::Add(
                    container_path(ii, "/env"@),
                    JsonView::Arr(seq![app_name_env(cfg), port_env(cfg)]),
                ) && forall|k: int|
                    0 <= k < ops.len() && op_path(#[trigger] ops[k]) == container_path(ii, "/env"@) ==> k == k0
            &&& !c.has_env ==> forall|k: int| 0 <= k < ops.len() ==> op_path(#[trigger] ops[k]) != container_path(ii, "/env/-"@)
            &&& forall|k: int|
                0 <= k < ops.len() && op_path(#[trigger] ops[k]) == container_path(ii, "/ports"@) ==> ops[k]
                    == PatchOpView::Add(container_path(ii, "/ports"@), ports_json(cfg.port))
            &&& forall|k: int|
                0 <= k < ops.len() && op_path(#[trigger] ops[k]) == container_path(ii, "/livenessProbe"@) ==> ops[k]
                    == PatchOpView::Add(container_path(ii, "/livenessProbe"@), probe_json("/health"@, cfg.port, 10))
            &&& forall|k: int|
                0 <= k < ops.len() && op_path(#[trigger] ops[k]) == container_path(ii, "/readinessProbe"@) ==> ops[k]
                    == PatchOpView::Add(container_path(ii, "/readinessProbe"@), probe_json("/ready"@, cfg.port, 5))
        }),
{
    lemma_reveal_fields();
    let cs = pod_containers(p);
    let image = spec_chosen_image(cfg, imgs);
    let ops = spec_build_patch(p, cfg, imgs);
    let c = cs[i];
    let ii = i as nat;
    let co = container_ops(ii, c, cfg, image);
    let sfx = block_suffixes(c, cfg);
    let off = law_container_block(p, cfg, imgs, i);
    lemma_block_paths(ii, c, cfg, image);
    lemma_container_ops_shaped(ii, c, cfg, image);
    let b = base_ops(ii, cfg, image);
    let e = entrypoint_ops(ii, c);
    let v = env_ops(ii, c, cfg);
    let st = strip_ops(ii, c, cfg);
    let r = resources_ops(ii, c);
    lemma_base_aligned(ii, cfg, image);
    lemma_entrypoint_aligned(ii, c);
    let n1 = (b.len() + e.len()) as int;
    assert(n1 == base_suffixes().len() + entrypoint_suffixes(c).len());
    assert(co == b + e + v + st + r);
    let env_sfx: Seq<char> = if c.has_env { "/env/-"@ } else { "/env"@ };
    assert(co[n1] == (b + e + v)[n1]);
    assert(co[n1] == v[0]);
    assert(ops[off + n1] == co[n1]);
    if c.has_env {
        assert(co[n1 + 1] == (b + e + v)[n1 + 1]);
        assert(co[n1 + 1] == v[1]);
        assert(ops[off + n1 + 1] == co[n1 + 1]);
    }
    // an operation on an env path lies in the block, at an env place
    assert forall|k: int, f: Seq<char>|
        0 <= k < ops.len() && (f == "/env/-"@ || f == "/env"@) && op_path(#[trigger] ops[k]) == #[trigger] container_path(ii, f)
            implies off + n1 <= k < off + n1 + v.len() && f == env_sfx by {
        assert(off <= k < off + co.len());
        let t = k - off;
        assert(ops[k] == co[t]);
        assert(op_path(co[t]) == container_path(ii, sfx[t]));
        lemma_container_path_same_index(ii, f, sfx[t]);
        lemma_env_positions(c, cfg, t);
    }
    if c.has_env {
        assert forall|k: int| 0 <= k < ops.len() && op_path(#[trigger] ops[k]) == container_path(ii, "/env/-"@) implies k
            == off + n1 || k == off + n1 + 1 by {
        }
        assert forall|k: int| 0 <= k < ops.len() implies op_path(#[trigger] ops[k]) != container_path(ii, "/env"@) by {
        }
        assert(ops[off + n1] == PatchOpView::Add(container_path(ii, "/env/-"@), app_name_env(cfg)));
    } else {
        assert forall|k: int| 0 <= k < ops.len() && op_path(#[trigger] ops[k]) == container_path(ii, "/env"@) implies k
            == off + n1 by {
        }
        assert forall|k: int| 0 <= k < ops.len() implies op_path(#[trigger] ops[k]) != container_path(ii, "/env/-"@) by {
        }
        assert(ops[off + n1] == PatchOpView::Add(
            container_path(ii, "/env"@),
            JsonView::Arr(seq![app_name_env(cfg), port_env(cfg)]),
        ));
    }
    law_container_ops_follow_the_rules(p, cfg, imgs);
    assert forall|k: int| 0 <= k < ops.len() && op_path(#[trigger] ops[k]) == container_path(ii, "/ports"@) implies ops[k]
        == PatchOpView::Add(container_path(ii, "/ports"@), ports_json(cfg.port)) by {
        lemma_patch_field(p, cfg, imgs, k, ii, "/ports"@);
    }
    assert forall|k: int| 0 <= k < ops.len() && op_path(#[trigger] ops[k]) == container_path(ii, "/livenessProbe"@) implies ops[k]
        == PatchOpView::Add(container_path(ii, "/livenessProbe"@), probe_json("/health"@, cfg.port, 10)) by {
        lemma_patch_field(p, cfg, imgs, k, ii, "/livenessProbe"@);
    }
    assert forall|k: int| 0 <= k < ops.len() && op_path(#[trigger] ops[k]) == container_path(ii, "/readinessProbe"@) implies ops[k]
        == PatchOpView::Add(container_path(ii, "/readinessProbe"@), probe_json("/ready"@, cfg.port, 5)) by {
        lemma_patch_field(p, cfg, imgs, k, ii, "/readinessProbe"@);
    }
}

proof fn lemma_kept_is_filter(spec: PodSpec, cfg: StubbyConfigView, vs: Seq<Volume>)
    ensures
        kept_volumes(spec, cfg, vs) == vs.filter(|v: Volume| keep_volume(spec, cfg, v)),
    decreases vs.len(),
{
    reveal(Seq::filter);
    if vs.len() > 0 {
        lemma_kept_is_filter(spec, cfg, vs.drop_last());
    }
}

/// The pruning rule: the volumes still needed are those a skipped container
/// or an init container mounts; the kept volumes are the pod's volumes, in
/// order, less the `secret`, `configMap` and `projected` ones nobody needs.
/// Nothing is done with `keep-volumes`, without volumes, or when every
/// volume is kept; the whole list is removed when none is kept; otherwise it
/// is replaced by the kept ones.
pub proof fn law_prune_rule(p: Pod, cfg: StubbyConfigView)
    ensures
        spec_prune(p, cfg) == (if cfg.keep_volumes {
            None
        } else {
            match p.spec {
                None => None,
                Some(spec) => match spec.volumes {
                    None => None,
                    Some(vols) => {
                        let needed = |name: Seq<char>|
                            (exists|i: int|
                                0 <= i < spec.containers@.len() && skipped(spec.containers@[i].name@, cfg)
                                    && #[trigger] mounts_of(spec.containers@[i]).contains(name)) || (exists|i: int|
                                #![trigger spec.init_containers->0@[i]]
                                spec.init_containers is Some && 0 <= i < spec.init_containers->0@.len()
                                    && mounts_of(spec.init_containers->0@[i]).contains(name));
                        let kept = vols@.filter(
                            |v: Volume| !(v.has_secret || v.has_config_map || v.has_projected) || needed(v.name@),
                        );
                        if vols@.len() == 0 || kept.len() == vols@.len() {
                            None
                        } else if kept.len() == 0 {
                            Some(PatchOpView::Remove("/spec/volumes"@))
                        } else {
                            Some(PatchOpView::Replace(
                                "/spec/volumes"@,
                                JsonView::Arr(kept.map_values(|v: Volume| JsonView::Raw(v.json@))),
                            ))
                        }
                    },
                },
            }
        }),
{
    if !cfg.keep_volumes {
        if let Some(spec) = p.spec {
            if let Some(vols) = spec.volumes {
                lemma_kept_is_filter(spec, cfg, vols@);
                let needed = |name: Seq<char>|
                    (exists|i: int|
                        0 <= i < spec.containers@.len() && skipped(spec.containers@[i].name@, cfg)
                            && #[trigger] mounts_of(spec.containers@[i]).contains(name)) || (exists|i: int|
                        #![trigger spec.init_containers->0@[i]]
                        spec.init_containers is Some && 0 <= i < spec.init_containers->0@.len()
                            && mounts_of(spec.init_containers->0@[i]).contains(name));
                let f1 = |v: Volume| keep_volume(spec, cfg, v);
                let f2 = |v: Volume| !(v.has_secret || v.has_config_map || v.has_projected) || needed(v.name@);
                assert(f1 =~= f2);
            }
        }
    }
}

/// Pruning drops only orphans: every volume that does not block on a missing
/// object (`emptyDir`, PVCs, ...) and every volume a skipped sidecar or an
/// init container still mounts survives, in order, and nothing else does.
pub proof fn law_prune_keeps_needed_volumes(spec: PodSpec, cfg: StubbyConfigView, vs: Seq<Volume>)
    ensures
        forall|i: int| 0 <= i < vs.len() && keep_volume(spec, cfg, #[trigger] vs[i]) ==> kept_volumes(spec, cfg, vs).contains(vs[i]),
        forall|k: int| 0 <= k < kept_volumes(spec, cfg, vs).len() ==> keep_volume(spec, cfg, #[trigger] kept_volumes(spec, cfg, vs)[k]) && vs.contains(kept_volumes(spec, cfg, vs)[k]),
    decreases vs.len(),
{
    if vs.len() > 0 {
        let prev = vs.drop_last();
        law_prune_keeps_needed_volumes(spec, cfg, prev);
        let kp = kept_volumes(spec, cfg, prev);
        let kv = kept_volumes(spec, cfg, vs);
        assert forall|i: int| 0 <= i < vs.len() && keep_volume(spec, cfg, #[trigger] vs[i]) implies kv.contains(vs[i]) by {
            if i < vs.len() - 1 {
                assert(prev[i] == vs[i]);
                assert(kp.contains(prev[i]));
                let k = choose|k: int| 0 <= k < kp.len() && kp[k] == prev[i];
                assert(kv[k] == kp[k]);
            } else {
                assert(kv[kv.len() - 1] == vs[i]);
            }
        }
        assert forall|k: int| 0 <= k < kv.len() implies keep_volume(spec, cfg, #[trigger] kv[k]) && vs.contains(kv[k]) by {
            if k < kp.len() {
                assert(kv[k] == kp[k]);
                assert(prev.contains(kp[k]));
                let j = choose|j: int| 0 <= j < prev.len() && prev[j] == kp[k];
                assert(vs[j] == prev[j]);
            } else {
                assert(kv[k] == vs.last());
                assert(vs[vs.len() - 1] == vs.last());
            }
        }
    }
}


/// Whenever the patch replaces `/spec/volumes`, the new list is the pod's
/// own volume definitions, each written verbatim (its source included) and
/// in the pod's order, of exactly the volumes that survive pruning: those
/// that do not block on a missing object, and those a container left as it
/// is still mounts.
pub proof fn law_volume_replace_is_verbatim(p: Pod, cfg: StubbyConfigView, imgs: ImageRefs, k: int, v: JsonView)
    requires
        0 <= k < spec_build_patch(p, cfg, imgs).len(),
        spec_build_patch(p, cfg, imgs)[k] == PatchOpView::Replace("/spec/volumes"@, v),
    ensures
        p.spec matches Some(spec) && spec.volumes matches Some(vols) && v == JsonView::Arr(
            vols@.filter(|x: Volume| keep_volume(spec, cfg, x)).map_values(|x: Volume| JsonView::Raw(x.json@)),
        ),
        k == spec_build_patch(p, cfg, imgs).len() - 1,
{
    let cs = pod_containers(p);
    let image = spec_chosen_image(cfg, imgs);
    let ops = spec_build_patch(p, cfg, imgs);
    law_patch_layout(p, cfg, imgs);
    if from_kept(cs, cfg, image, ops[k]) {
        let i = choose|i: nat| i < cs.len() && !skipped(cs[i as int].name@, cfg) && #[trigger] shaped(i, cs[i as int], cfg, image, ops[k]);
        let s2 = choose|s2: Seq<char>| #[trigger] container_path(i, s2) == op_path(ops[k]) && field_rule(ops[k], i, s2, cs[i as int], cfg, image);
        lemma_volumes_not_container_path(i, s2);
        assert(false);
    }
    let spec = p.spec->0;
    let vols = spec.volumes->0;
    lemma_kept_is_filter(spec, cfg, vols@);
}

} // verus!
