use base64::Engine;
use serde_json::Value;
use std::time::Duration;
use stubby::auth::{credentials_for, host_matches};
use stubby::controller_config::{parse_interval_secs, ControllerConfig};
use stubby::decision::{containers_to_stub, rescued_originals, RescueConfig};
use stubby::imageref::ImageRef;
use stubby::json::to_json_string;
use stubby::pod::{Container, ContainerStatus, Pod, PodSpec};
use stubby::reconcile::{
    dockerconfig_payloads, build_revert_patch, build_stub_patch, build_stub_patch_at, images_needed, images_to_check,
    plan_action, pull_secret_names, reconcile_step, rescue_opted_in, stub_candidates, Plan, ReconcileStep,
};
use stubby::registry::{manifest_query, registry_credentials};
use stubby::rescue::{decode_original_images, encode_original_images};
use stubby::sidecar::ALWAYS_SKIP_PREFIXES;
use stubby::strmap::StrMap;

// ---- annotations -----------------------------------------------------------------

#[test]
fn roundtrips_original_images() {
    let mut m = StrMap::new();
    m.insert("app".to_string(), "ghcr.io/acme/app:v1".to_string());
    m.insert("worker".to_string(), "ghcr.io/acme/worker:v1".to_string());
    let encoded = encode_original_images(&m);
    let decoded = decode_original_images(Some(&encoded));
    assert_eq!(decoded, m);
}

#[test]
fn decode_missing_or_garbage_is_empty() {
    assert!(decode_original_images(None).is_empty());
    assert!(decode_original_images(Some(&"not json".to_string())).is_empty());
}

#[test]
fn encoded_originals_are_compact_and_sorted() {
    let mut m = StrMap::new();
    m.insert("worker".to_string(), "w:1".to_string());
    m.insert("app".to_string(), "a\"1".to_string());
    assert_eq!(encode_original_images(&m), r#"{"app":"a\"1","worker":"w:1"}"#);
}

#[test]
fn decode_rejects_non_string_values() {
    assert!(decode_original_images(Some(&r#"{"app":1}"#.to_string())).is_empty());
    let d = decode_original_images(Some(&r#"{ "b" : "2", "a":"1" }"#.to_string()));
    assert_eq!(d.len(), 2);
    assert_eq!(d.get("a").map(String::as_str), Some("1"));
}

// ---- auth ------------------------------------------------------------------------

fn dockercfg(host: &str, user: &str, pass: &str) -> Vec<u8> {
    let auth = base64::engine::general_purpose::STANDARD.encode(format!("{user}:{pass}"));
    format!(r#"{{"auths":{{"{host}":{{"auth":"{auth}"}}}}}}"#).into_bytes()
}

#[test]
fn extracts_credentials_for_host() {
    let creds = credentials_for("ghcr.io", &[dockercfg("ghcr.io", "u", "p")]);
    assert_eq!(creds, Some(("u".to_string(), "p".to_string())));
}

#[test]
fn matches_docker_io_aliases() {
    let cfg = dockercfg("https://index.docker.io/v1/", "u", "p");
    let creds = credentials_for("docker.io", &[cfg]);
    assert_eq!(creds, Some(("u".to_string(), "p".to_string())));
}

#[test]
fn none_when_no_match_or_garbage() {
    assert_eq!(credentials_for("ghcr.io", &[b"not json".to_vec()]), None);
    assert_eq!(credentials_for("ghcr.io", &[dockercfg("other.io", "u", "p")]), None);
}

#[test]
fn username_and_password_fields_are_used_without_auth() {
    let raw = br#"{"auths":{"ghcr.io":{"username":"bob","password":"s:e"}}}"#.to_vec();
    assert_eq!(credentials_for("ghcr.io", &[raw]), Some(("bob".to_string(), "s:e".to_string())));
}

#[test]
fn password_keeps_later_colons_and_first_usable_document_wins() {
    let first = dockercfg("ghcr.io", "u", "p:q");
    let second = dockercfg("ghcr.io", "other", "x");
    assert_eq!(
        credentials_for("ghcr.io", &[b"garbage".to_vec(), first, second]),
        Some(("u".to_string(), "p:q".to_string()))
    );
}

#[test]
fn auth_that_is_not_base64_gives_nothing() {
    let raw = br#"{"auths":{"ghcr.io":{"auth":"%%%"}}}"#.to_vec();
    assert_eq!(credentials_for("ghcr.io", &[raw]), None);
}

#[test]
fn host_matching_is_exact_or_docker_hub() {
    assert!(host_matches("ghcr.io", "ghcr.io"));
    assert!(host_matches("registry-1.docker.io", "index.docker.io"));
    assert!(!host_matches("ghcr.io", "docker.io"));
    assert!(!host_matches("quay.io", "quay.io/"));
}

#[test]
fn registry_credentials_follow_the_image_registry() {
    let cfgs = vec![dockercfg("ghcr.io", "g", "1"), dockercfg("docker.io", "d", "2")];
    assert_eq!(registry_credentials("ghcr.io/acme/app:v1", &cfgs), Some(("g".into(), "1".into())));
    assert_eq!(registry_credentials("nginx", &cfgs), Some(("d".into(), "2".into())));
    assert_eq!(registry_credentials("quay.io/x/y", &cfgs), None);
}

// ---- config ----------------------------------------------------------------------

#[test]
fn parses_check_interval_seconds() {
    assert_eq!(parse_interval_secs(Some("30")), std::time::Duration::from_secs(30));
    assert_eq!(parse_interval_secs(Some("bad")), std::time::Duration::from_secs(60));
    assert_eq!(parse_interval_secs(None), std::time::Duration::from_secs(60));
}

#[test]
fn interval_is_trimmed_before_parsing() {
    assert_eq!(parse_interval_secs(Some(" 45 ")), Duration::from_secs(45));
    assert_eq!(parse_interval_secs(Some("-5")), Duration::from_secs(60));
    assert_eq!(parse_interval_secs(Some("")), Duration::from_secs(60));
}

#[test]
fn controller_config_requires_both_images() {
    let ok = ControllerConfig::from_env(Some(" be:1 ".into()), Some("fe:1".into()), Some("15".into())).unwrap();
    assert_eq!(ok.backend_image, "be:1");
    assert_eq!(ok.frontend_image, "fe:1");
    assert_eq!(ok.check_interval, Duration::from_secs(15));
    assert!(ControllerConfig::from_env(None, Some("fe:1".into()), None).is_err());
    assert!(ControllerConfig::from_env(Some("be:1".into()), Some("  ".into()), None).is_err());
}

// ---- decision --------------------------------------------------------------------

fn cfg() -> RescueConfig {
    RescueConfig {
        backend_image: "ghcr.io/test/be:1".into(),
        frontend_image: "ghcr.io/test/fe:1".into(),
    }
}

fn container(name: &str, image: &str) -> Container {
    Container {
        name: name.into(),
        image: Some(image.into()),
        has_command: false,
        has_args: false,
        has_env: false,
        has_env_from: false,
        volume_mounts: None,
        has_resources: false,
    }
}

fn waiting(name: &str, reason: &str, image: &str) -> ContainerStatus {
    ContainerStatus {
        name: name.into(),
        image: image.into(),
        waiting_reason: Some(reason.into()),
    }
}

fn running(name: &str, image: &str) -> ContainerStatus {
    ContainerStatus {
        name: name.into(),
        image: image.into(),
        waiting_reason: None,
    }
}

fn pod(annotations: &[(&str, &str)], containers: Vec<Container>, statuses: Option<Vec<ContainerStatus>>) -> Pod {
    let mut m = StrMap::new();
    for (k, v) in annotations {
        m.insert(k.to_string(), v.to_string());
    }
    Pod {
        name: Some("p".into()),
        namespace: None,
        annotations: Some(m),
        spec: Some(PodSpec {
            containers,
            init_containers: None,
            volumes: None,
            image_pull_secrets: None,
        }),
        container_statuses: statuses,
    }
}

#[test]
fn stubs_imagepullbackoff_container_as_backend_by_default() {
    let p = pod(
        &[("stubby.io/auto-rescue", "true")],
        vec![container("app", "ghcr.io/acme/app:v1")],
        Some(vec![waiting("app", "ImagePullBackOff", "ghcr.io/acme/app:v1")]),
    );
    let actions = containers_to_stub(&p, &cfg());
    assert_eq!(actions.len(), 1);
    assert_eq!(actions[0].name, "app");
    assert_eq!(actions[0].original_image, "ghcr.io/acme/app:v1");
    assert_eq!(actions[0].dummy_image, "ghcr.io/test/be:1");
}

#[test]
fn uses_frontend_image_when_type_hint_is_frontend() {
    let p = pod(
        &[("stubby.io/auto-rescue", "true"), ("stubby.io/type", "frontend")],
        vec![container("web", "ghcr.io/acme/web:v1")],
        Some(vec![waiting("web", "ErrImagePull", "ghcr.io/acme/web:v1")]),
    );
    let actions = containers_to_stub(&p, &cfg());
    assert_eq!(actions[0].dummy_image, "ghcr.io/test/fe:1");
}

#[test]
fn skips_sidecars_and_healthy_and_already_rescued() {
    let p = pod(
        &[
            ("stubby.io/auto-rescue", "true"),
            ("stubby.io/original-image", "{\"app\":\"ghcr.io/acme/app:v1\"}"),
        ],
        vec![
            container("app", "ghcr.io/test/be:1"),
            container("istio-proxy", "istio:1"),
            container("worker", "ghcr.io/acme/worker:v1"),
        ],
        Some(vec![
            waiting("app", "ImagePullBackOff", "ghcr.io/test/be:1"),
            waiting("istio-proxy", "ImagePullBackOff", "istio:1"),
            running("worker", "ghcr.io/acme/worker:v1"),
        ]),
    );
    assert!(containers_to_stub(&p, &cfg()).is_empty());
}

#[test]
fn rescued_originals_reads_annotation() {
    let p = pod(
        &[("stubby.io/original-image", "{\"app\":\"ghcr.io/acme/app:v1\"}")],
        vec![container("app", "ghcr.io/test/be:1")],
        None,
    );
    let orig = rescued_originals(&p);
    assert_eq!(orig.get("app").map(String::as_str), Some("ghcr.io/acme/app:v1"));
}

#[test]
fn sidecar_prefixes_match_webhook() {
    assert_eq!(&ALWAYS_SKIP_PREFIXES, &["istio-", "linkerd-", "vault-", "cilium-"]);
}

#[test]
fn original_image_falls_back_to_status_image() {
    let p = pod(
        &[],
        vec![],
        Some(vec![waiting("ghost", "ErrImagePull", "status:1"), waiting("crash", "CrashLoopBackOff", "c:1")]),
    );
    let actions = containers_to_stub(&p, &cfg());
    assert_eq!(actions.len(), 1);
    assert_eq!(actions[0].original_image, "status:1");
}

// ---- imageref --------------------------------------------------------------------

#[test]
fn parses_full_ref() {
    let r = ImageRef::parse("ghcr.io/acme/app:v1.2.3");
    assert_eq!(r.registry, "ghcr.io");
    assert_eq!(r.repository, "acme/app");
    assert_eq!(r.reference, "v1.2.3");
}

#[test]
fn defaults_registry_and_tag() {
    let r = ImageRef::parse("nginx");
    assert_eq!(r.registry, "docker.io");
    assert_eq!(r.repository, "library/nginx");
    assert_eq!(r.reference, "latest");
}

#[test]
fn library_expansion_only_for_docker_io_single_segment() {
    let r = ImageRef::parse("acme/app:1");
    assert_eq!(r.registry, "docker.io");
    assert_eq!(r.repository, "acme/app");
    assert_eq!(r.reference, "1");
}

#[test]
fn handles_digest() {
    let r = ImageRef::parse("ghcr.io/acme/app@sha256:abc");
    assert_eq!(r.registry, "ghcr.io");
    assert_eq!(r.repository, "acme/app");
    assert_eq!(r.reference, "sha256:abc");
}

#[test]
fn registry_detected_by_dot_or_port_or_localhost() {
    assert_eq!(ImageRef::parse("localhost:5000/app:1").registry, "localhost:5000");
    assert_eq!(ImageRef::parse("registry:5000/x/app:1").registry, "registry:5000");
}

#[test]
fn port_in_registry_is_not_a_tag() {
    let r = ImageRef::parse("localhost:5000/app");
    assert_eq!(r.registry, "localhost:5000");
    assert_eq!(r.repository, "app");
    assert_eq!(r.reference, "latest");
}

// ---- reconcile -------------------------------------------------------------------

fn triple(a: &str, b: &str, c: &str) -> (String, String, String) {
    (a.to_string(), b.to_string(), c.to_string())
}

#[test]
fn plans_stub_when_candidates_present() {
    let plan = plan_action(&vec![triple("app", "orig:1", "dummy:1")], &StrMap::new(), &StrMap::new());
    assert!(matches!(plan, Plan::Stub(_)));
}

#[test]
fn plans_revert_only_when_all_originals_available() {
    let mut originals = StrMap::new();
    originals.insert("app".to_string(), "orig:1".to_string());
    originals.insert("worker".to_string(), "orig-w:1".to_string());

    let mut avail = StrMap::new();
    avail.insert("orig:1".to_string(), true);
    avail.insert("orig-w:1".to_string(), false);
    assert!(matches!(plan_action(&vec![], &originals, &avail), Plan::Nothing));

    avail.insert("orig-w:1".to_string(), true);
    assert!(matches!(plan_action(&vec![], &originals, &avail), Plan::Revert(_)));
}

#[test]
fn stub_takes_priority_over_revert() {
    let mut originals = StrMap::new();
    originals.insert("app".to_string(), "orig:1".to_string());
    let mut avail = StrMap::new();
    avail.insert("orig:1".to_string(), true);
    let plan = plan_action(&vec![triple("new", "orig2:1", "dummy:1")], &originals, &avail);
    assert!(matches!(plan, Plan::Stub(_)));
}

#[test]
fn revert_lists_every_original_in_key_order() {
    let mut originals = StrMap::new();
    originals.insert("worker".to_string(), "w:1".to_string());
    originals.insert("app".to_string(), "a:1".to_string());
    let mut avail = StrMap::new();
    avail.insert("w:1".to_string(), true);
    avail.insert("a:1".to_string(), true);
    match plan_action(&vec![], &originals, &avail) {
        Plan::Revert(items) => assert_eq!(
            items,
            vec![("app".to_string(), "a:1".to_string()), ("worker".to_string(), "w:1".to_string())]
        ),
        other => panic!("expected revert, got {other:?}"),
    }
    assert!(matches!(plan_action(&vec![], &StrMap::new(), &avail), Plan::Nothing));
    let mut partial = StrMap::new();
    partial.insert("a:1".to_string(), true);
    assert!(matches!(plan_action(&vec![], &originals, &partial), Plan::Nothing));
}

#[test]
fn stub_patch_sets_dummy_image_and_records_original() {
    let originals = StrMap::new();
    let items = vec![triple("app", "orig:1", "dummy:1")];
    let p: Value = serde_json::from_str(&to_json_string(&build_stub_patch(&originals, &items))).unwrap();
    assert_eq!(p["spec"]["containers"][0]["name"], "app");
    assert_eq!(p["spec"]["containers"][0]["image"], "dummy:1");
    let recorded: Value = serde_json::from_str(
        p["metadata"]["annotations"]["stubby.io/original-image"].as_str().unwrap(),
    )
    .unwrap();
    assert_eq!(recorded.get("app").and_then(Value::as_str), Some("orig:1"));
}

#[test]
fn revert_patch_restores_image_and_nulls_annotations() {
    let items = vec![("app".to_string(), "orig:1".to_string())];
    let p: Value = serde_json::from_str(&to_json_string(&build_revert_patch(&items))).unwrap();
    assert_eq!(p["spec"]["containers"][0]["image"], "orig:1");
    assert!(p["metadata"]["annotations"]["stubby.io/original-image"].is_null());
    assert!(p["metadata"]["annotations"]["stubby.io/rescued-at"].is_null());
}

#[test]
fn stub_patch_merges_earlier_originals_exactly() {
    let mut originals = StrMap::new();
    originals.insert("app".to_string(), "orig:1".to_string());
    let items = vec![triple("worker", "orig-w:1", "dummy:1")];
    let text = to_json_string(&build_stub_patch_at(&originals, &items, "2026-01-01T00:00:00Z".to_string()));
    assert_eq!(
        text,
        r#"{"metadata":{"annotations":{"stubby.io/original-image":"{\"app\":\"orig:1\",\"worker\":\"orig-w:1\"}","stubby.io/rescued-at":"2026-01-01T00:00:00Z"}},"spec":{"containers":[{"image":"dummy:1","name":"worker"}]}}"#
    );
}

#[test]
fn stub_patch_is_stamped_with_rfc3339_time() {
    let p: Value =
        serde_json::from_str(&to_json_string(&build_stub_patch(&StrMap::new(), &vec![triple("a", "o", "d")]))).unwrap();
    let at = p["metadata"]["annotations"]["stubby.io/rescued-at"].as_str().unwrap();
    assert!(at.len() >= 25 && at.contains('T') && at.ends_with("+00:00"), "{at}");
    if let Some(dot) = at.find('.') {
        let digits = at.len() - 6 - dot - 1;
        assert!(digits == 3 || digits == 6 || digits == 9, "{at}");
    }
}

#[test]
fn candidates_and_images_to_check() {
    let p = pod(
        &[("stubby.io/auto-rescue", "true"), ("stubby.io/original-image", r#"{"old":"o:1"}"#)],
        vec![container("app", "a:1")],
        Some(vec![waiting("app", "ErrImagePull", "a:1")]),
    );
    assert!(rescue_opted_in(&p));
    let c = stub_candidates(&p, &cfg());
    assert_eq!(c, vec![triple("app", "a:1", "ghcr.io/test/be:1")]);
    let rescued = rescued_originals(&p);
    assert!(images_to_check(&c, &rescued).is_empty());
    assert_eq!(images_to_check(&vec![], &rescued), vec!["o:1".to_string()]);
    let q = pod(&[("stubby.io/auto-rescue", "yes")], vec![], None);
    assert!(!rescue_opted_in(&q));
}

#[test]
fn pull_secret_names_are_sorted_and_unique() {
    let mut p = pod(&[], vec![], None);
    if let Some(spec) = p.spec.as_mut() {
        spec.image_pull_secrets = Some(vec!["regcred".into(), "alpha".into(), "regcred".into()]);
    }
    assert_eq!(pull_secret_names(&p), vec!["alpha".to_string(), "regcred".to_string()]);
    assert!(pull_secret_names(&pod(&[], vec![], None)).is_empty());
}

#[test]
fn manifest_query_needs_a_parseable_reference() {
    let cfgs = vec![dockercfg("ghcr.io", "g", "1")];
    let (reference, creds) = manifest_query("ghcr.io/acme/app:v1", &cfgs).expect("parses");
    assert_eq!(reference.registry(), "ghcr.io");
    assert_eq!(reference.repository(), "acme/app");
    assert_eq!(creds, Some(("g".to_string(), "1".to_string())));
    assert!(manifest_query("", &cfgs).is_none());
    assert!(manifest_query("Not A Valid:Ref::", &cfgs).is_none());
}

#[test]
fn dockerconfig_payloads_skip_unread_and_keyless_secrets() {
    let mut with = StrMap::new();
    with.insert(".dockerconfigjson".to_string(), b"{\"auths\":{}}".to_vec());
    with.insert("other".to_string(), b"x".to_vec());
    let mut without = StrMap::new();
    without.insert("token".to_string(), b"t".to_vec());
    let mut second = StrMap::new();
    second.insert(".dockerconfigjson".to_string(), b"2".to_vec());
    let got = dockerconfig_payloads(&vec![Some(with), None, Some(without), Some(second)]);
    assert_eq!(got, vec![b"{\"auths\":{}}".to_vec(), b"2".to_vec()]);
}

#[test]
fn reconcile_step_ignores_pods_that_did_not_opt_in() {
    let p = pod(
        &[("stubby.io/auto-rescue", "false")],
        vec![container("app", "a:1")],
        Some(vec![waiting("app", "ImagePullBackOff", "a:1")]),
    );
    assert!(images_needed(&p, &cfg()).is_empty());
    assert!(matches!(reconcile_step(&p, &cfg(), &StrMap::new()), ReconcileStep::Ignore));
}

#[test]
fn reconcile_step_stubs_a_failing_container() {
    let p = pod(
        &[("stubby.io/auto-rescue", "true")],
        vec![container("app", "ghcr.io/acme/app:v1")],
        Some(vec![waiting("app", "ImagePullBackOff", "ghcr.io/acme/app:v1")]),
    );
    assert!(images_needed(&p, &cfg()).is_empty());
    match reconcile_step(&p, &cfg(), &StrMap::new()) {
        ReconcileStep::Stub(j) => {
            let v: Value = serde_json::from_str(&to_json_string(&j)).unwrap();
            assert_eq!(v["spec"]["containers"][0]["name"], "app");
            assert_eq!(v["spec"]["containers"][0]["image"], "ghcr.io/test/be:1");
            assert_eq!(
                v["metadata"]["annotations"]["stubby.io/original-image"],
                r#"{"app":"ghcr.io/acme/app:v1"}"#
            );
            assert!(v["metadata"]["annotations"]["stubby.io/rescued-at"].as_str().unwrap().ends_with("+00:00"));
        }
        other => panic!("expected a stub, got {other:?}"),
    }
}

#[test]
fn reconcile_step_reverts_when_every_original_is_available() {
    let p = pod(
        &[("stubby.io/auto-rescue", "true"), ("stubby.io/original-image", r#"{"app":"ghcr.io/acme/app:v1"}"#)],
        vec![container("app", "ghcr.io/test/be:1")],
        Some(vec![running("app", "ghcr.io/test/be:1")]),
    );
    assert_eq!(images_needed(&p, &cfg()), vec!["ghcr.io/acme/app:v1".to_string()]);
    let mut avail = StrMap::new();
    avail.insert("ghcr.io/acme/app:v1".to_string(), true);
    match reconcile_step(&p, &cfg(), &avail) {
        ReconcileStep::Revert(j) => assert_eq!(
            to_json_string(&j),
            r#"{"metadata":{"annotations":{"stubby.io/original-image":null,"stubby.io/rescued-at":null}},"spec":{"containers":[{"image":"ghcr.io/acme/app:v1","name":"app"}]}}"#
        ),
        other => panic!("expected a revert, got {other:?}"),
    }
    avail.insert("ghcr.io/acme/app:v1".to_string(), false);
    assert!(matches!(reconcile_step(&p, &cfg(), &avail), ReconcileStep::Wait));
    assert!(matches!(reconcile_step(&p, &cfg(), &StrMap::new()), ReconcileStep::Wait));
}

#[test]
fn reconcile_step_waits_on_a_healthy_pod() {
    let p = pod(
        &[("stubby.io/auto-rescue", "true")],
        vec![container("app", "a:1")],
        Some(vec![running("app", "a:1")]),
    );
    assert!(images_needed(&p, &cfg()).is_empty());
    assert!(matches!(reconcile_step(&p, &cfg(), &StrMap::new()), ReconcileStep::Wait));
}

#[test]
fn manifest_query_asks_about_the_image_itself() {
    let (reference, creds) = manifest_query("nginx", &[]).expect("parses");
    assert_eq!(reference.registry(), "docker.io");
    assert_eq!(reference.repository(), "library/nginx");
    assert_eq!(reference.tag(), Some("latest"));
    assert_eq!(creds, None);
    let (other, _) = manifest_query("quay.io/team/tool:2.1", &[]).expect("parses");
    assert_eq!(other.registry(), "quay.io");
    assert_eq!(other.repository(), "team/tool");
    assert_eq!(other.tag(), Some("2.1"));
}
