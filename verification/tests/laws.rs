use metrics::Recorder;
use serde_json::Value;
use stubby::admission::{handle, patch_document, AdmissionRequest, AdmissionReview};
use stubby::annotation::{parse_annotations, Decision, DummyType, StubbyConfig};
use stubby::auth::host_matches;
use stubby::config::{required_env, EnvError, ImageRefs};
use stubby::frontend::html_escape;
use stubby::observability::render;
use stubby::patch::build_patch;
use stubby::pod::{Container, Pod, PodSpec};
use stubby::strmap::StrMap;
use stubby::json::to_json_string;
use stubby::reconcile::{build_revert_patch, build_stub_patch, plan_action, Plan};
use stubby::rescue::decode_original_images;

fn refs() -> ImageRefs {
    ImageRefs {
        backend: "be:1".into(),
        frontend: "fe:1".into(),
    }
}

fn container(name: &str) -> Container {
    Container {
        name: name.into(),
        image: Some("orig:1".into()),
        has_command: true,
        has_args: true,
        has_env: true,
        has_env_from: true,
        volume_mounts: Some(vec!["v".into()]),
        has_resources: false,
    }
}

fn pod(names: &[&str]) -> Pod {
    Pod {
        name: Some("p".into()),
        namespace: None,
        annotations: None,
        spec: Some(PodSpec {
            containers: names.iter().map(|n| container(n)).collect(),
            init_containers: None,
            volumes: None,
            image_pull_secrets: None,
        }),
        container_statuses: None,
    }
}

fn cfg(skip: &[&str], keep: bool) -> StubbyConfig {
    StubbyConfig {
        dummy_type: DummyType::Backend,
        app_name: "x".into(),
        port: 8080,
        image_override: None,
        skip_containers: skip.iter().map(|s| s.to_string()).collect(),
        keep_env_from: keep,
        keep_volumes: keep,
    }
}

fn paths(p: &Pod, c: &StubbyConfig) -> Vec<(String, String)> {
    let v: Value = serde_json::from_str(&patch_document(build_patch(p, c, &refs()))).unwrap();
    v.as_array()
        .unwrap()
        .iter()
        .map(|o| (o["op"].as_str().unwrap().to_string(), o["path"].as_str().unwrap().to_string()))
        .collect()
}

#[test]
fn skipped_containers_get_no_operation() {
    let p = pod(&["app", "istio-proxy", "audit", "web", "app2", "a", "b", "c", "d", "e", "f"]);
    let ops = paths(&p, &cfg(&["audit"], false));
    assert!(!ops.is_empty());
    for (_, path) in &ops {
        assert!(!path.starts_with("/spec/containers/1/"), "{path}");
        assert!(!path.starts_with("/spec/containers/2/"), "{path}");
    }
    assert!(ops.iter().any(|(_, p)| p.starts_with("/spec/containers/10/")));
}

#[test]
fn kept_containers_all_get_the_image() {
    let p = pod(&["app", "vault-agent", "web"]);
    let ops = paths(&p, &cfg(&[], false));
    let images: Vec<_> = ops.iter().filter(|(op, p)| op == "replace" && p.ends_with("/image")).map(|(_, p)| p.clone()).collect();
    assert_eq!(images, vec!["/spec/containers/0/image", "/spec/containers/2/image"]);
}

#[test]
fn opting_out_keeps_env_from_and_volume_mounts() {
    let p = pod(&["app", "web"]);
    let kept = paths(&p, &cfg(&[], true));
    assert!(kept.iter().all(|(_, p)| !p.ends_with("/envFrom") && !p.ends_with("/volumeMounts") && p != "/spec/volumes"));
    let stripped = paths(&p, &cfg(&[], false));
    assert_eq!(stripped.iter().filter(|(op, p)| op == "remove" && p.ends_with("/envFrom")).count(), 2);
}

#[test]
fn replace_is_only_used_for_images() {
    let p = pod(&["app", "web"]);
    for (op, path) in paths(&p, &cfg(&[], false)) {
        if op == "replace" {
            assert!(path.ends_with("/image") || path == "/spec/volumes", "{path}");
        }
    }
}

#[test]
fn every_answer_allows_and_echoes_uid() {
    let reviews = vec![
        Err("broken".to_string()),
        Ok(pod(&["app"])),
        Ok(pod(&[])),
    ];
    for (i, object) in reviews.into_iter().enumerate() {
        let uid = format!("uid-{i}");
        let r = handle(
            AdmissionReview {
                api_version: "admission.k8s.io/v1".into(),
                kind: "AdmissionReview".into(),
                request: Some(AdmissionRequest { uid: uid.clone(), object }),
                response: None,
            },
            &refs(),
        );
        let resp = r.response.unwrap();
        assert!(resp.allowed);
        assert_eq!(resp.uid, uid);
        assert_eq!(resp.patch.is_some(), resp.patch_type.is_some());
    }
}

#[test]
fn only_backend_or_frontend_inject() {
    for (value, inject) in [("backend", true), ("frontend", true), ("off", false), ("Backend", false), ("", false)] {
        let mut m = StrMap::new();
        m.insert("stubby.io/type".to_string(), value.to_string());
        assert_eq!(matches!(parse_annotations(&m, "p"), Decision::Inject(_)), inject, "{value}");
    }
}

#[test]
fn escaped_names_carry_no_markup() {
    let s = html_escape("<a href='x' onclick=\"y\">&</a>");
    assert!(!s.contains('<') && !s.contains('>') && !s.contains('"') && !s.contains('\''));
}

#[test]
fn host_matching_is_symmetric() {
    for (a, b) in [("docker.io", "https://index.docker.io/v1/"), ("ghcr.io", "docker.io"), ("x", "x")] {
        assert_eq!(host_matches(a, b), host_matches(b, a));
    }
}

#[test]
fn required_env_trims_and_rejects_blank() {
    assert_eq!(required_env("K", Some("  v ".into())), Ok("v".to_string()));
    assert!(matches!(required_env("K", None), Err(EnvError::Missing(_))));
    assert!(matches!(required_env("K", Some(" \t".into())), Err(EnvError::Blank(_))));
}

#[test]
fn image_refs_from_env() {
    let r = ImageRefs::from_env(Some("be".into()), Some(" fe ".into())).unwrap();
    assert_eq!(r.backend, "be");
    assert_eq!(r.frontend, "fe");
    assert!(ImageRefs::from_env(Some("be".into()), None).is_err());
}

#[test]
fn scrape_body_is_empty_without_a_recorder() {
    assert_eq!(render(None), "");
}

#[test]
fn render_contains_series_after_actions() {
    let recorder = metrics_exporter_prometheus::PrometheusBuilder::new().build_recorder();
    let handle = recorder.handle();
    let meta = metrics::Metadata::new("stubby", metrics::Level::INFO, None);
    for action in ["stub", "revert"] {
        let key = metrics::Key::from_parts(
            "stubby_rescue_actions_total",
            vec![metrics::Label::new("action", action)],
        );
        recorder.register_counter(&key, &meta).increment(1);
    }
    let out = render(Some(&handle));
    assert!(out.contains("stubby_rescue_actions_total"), "{out}");
    assert!(out.contains("action=\"stub\""), "{out}");
}

#[test]
fn escaping_is_per_character_and_reads_back() {
    let a = "Tom & <Jerry>";
    let b = "\"quoted\" 'x'";
    assert_eq!(html_escape(&format!("{a}{b}")), format!("{}{}", html_escape(a), html_escape(b)));
    let e = html_escape(&format!("{a}{b}"));
    let back = e
        .replace("&lt;", "<")
        .replace("&gt;", ">")
        .replace("&quot;", "\"")
        .replace("&#x27;", "'")
        .replace("&amp;", "&");
    assert_eq!(back, format!("{a}{b}"));
}

#[test]
fn stub_record_reads_back_and_revert_restores_originals() {
    let mut earlier = StrMap::new();
    earlier.insert("worker".to_string(), "w:1".to_string());
    let items = vec![
        ("app".to_string(), "a:1".to_string(), "dummy:1".to_string()),
        ("app".to_string(), "a:2".to_string(), "dummy:1".to_string()),
    ];
    let patch: Value = serde_json::from_str(&to_json_string(&build_stub_patch(&earlier, &items))).unwrap();
    let record = patch["metadata"]["annotations"]["stubby.io/original-image"].as_str().unwrap().to_string();
    let rescued = decode_original_images(Some(&record));
    assert_eq!(rescued.get("app").map(String::as_str), Some("a:2"));
    assert_eq!(rescued.get("worker").map(String::as_str), Some("w:1"));
    let mut avail = StrMap::new();
    avail.insert("a:2".to_string(), true);
    avail.insert("w:1".to_string(), true);
    let items = match plan_action(&vec![], &rescued, &avail) {
        Plan::Revert(items) => items,
        other => panic!("expected revert, got {other:?}"),
    };
    let revert: Value = serde_json::from_str(&to_json_string(&build_revert_patch(&items))).unwrap();
    assert_eq!(revert["spec"]["containers"][0]["name"], "app");
    assert_eq!(revert["spec"]["containers"][0]["image"], "a:2");
    assert_eq!(revert["spec"]["containers"][1]["image"], "w:1");
}
