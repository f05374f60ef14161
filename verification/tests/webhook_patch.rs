use serde_json::Value;
use stubby::admission::patch_document;
use stubby::annotation::{DummyType, StubbyConfig};
use stubby::config::ImageRefs;
use stubby::patch::{build_patch, PatchOp};
use stubby::pod::{Container, Pod, PodSpec, Volume};

fn refs() -> ImageRefs {
    ImageRefs {
        backend: "ghcr.io/test/be:1".into(),
        frontend: "ghcr.io/test/fe:1".into(),
    }
}

fn container(name: &str, image: &str) -> Container {
    Container {
        name: name.into(),
        image: Some(image.into()),
        has_command: false,
        has_args: false,
        has_env: false,
        has_env_from: false,
        volume_mounts: None,
        has_resources: false,
    }
}

fn mounting(name: &str, image: &str, mounts: &[&str]) -> Container {
    Container {
        volume_mounts: Some(mounts.iter().map(|m| m.to_string()).collect()),
        ..container(name, image)
    }
}

fn secret_volume(name: &str, secret: &str) -> Volume {
    Volume {
        name: name.into(),
        has_secret: true,
        has_config_map: false,
        has_projected: false,
        json: format!(r#"{{"name":"{name}","secret":{{"secretName":"{secret}"}}}}"#),
    }
}

fn empty_dir_volume(name: &str) -> Volume {
    Volume {
        name: name.into(),
        has_secret: false,
        has_config_map: false,
        has_projected: false,
        json: format!(r#"{{"emptyDir":{{}},"name":"{name}"}}"#),
    }
}

fn pod_from_spec(containers: Vec<Container>, volumes: Option<Vec<Volume>>) -> Pod {
    Pod {
        name: Some("p".into()),
        namespace: None,
        annotations: None,
        spec: Some(PodSpec {
            containers,
            init_containers: None,
            volumes,
            image_pull_secrets: None,
        }),
        container_statuses: None,
    }
}

fn pod_with_containers(containers: Vec<Container>) -> Pod {
    pod_from_spec(containers, None)
}

fn backend_cfg() -> StubbyConfig {
    StubbyConfig {
        dummy_type: DummyType::Backend,
        app_name: "myapp".into(),
        port: 8080,
        image_override: None,
        skip_containers: vec![],
        keep_env_from: false,
        keep_volumes: false,
    }
}

fn ops_to_json(ops: Vec<PatchOp>) -> Value {
    serde_json::from_str(&patch_document(ops)).unwrap()
}

fn path_of(x: &Value) -> &str {
    x["path"].as_str().unwrap()
}

#[test]
fn single_backend_container_image_replaced() {
    let pod = pod_with_containers(vec![container("app", "orig:1")]);
    let ops = build_patch(&pod, &backend_cfg(), &refs());
    let images: Vec<_> = ops
        .iter()
        .filter_map(|op| match op {
            PatchOp::Replace { path, value } if path.ends_with("/image") => match value {
                stubby::json::Json::Str(s) => Some(s.clone()),
                _ => None,
            },
            _ => None,
        })
        .collect();
    assert_eq!(images, vec!["ghcr.io/test/be:1"]);
}

#[test]
fn backend_replaces_ports_probes_env_and_removes_command() {
    let c = Container {
        has_command: true,
        has_args: true,
        has_env: true,
        ..container("app", "orig:1")
    };
    let pod = pod_with_containers(vec![c]);
    let j = ops_to_json(build_patch(&pod, &backend_cfg(), &refs()));
    let arr = j.as_array().unwrap();

    let find = |op: &str, path_suffix: &str| -> Option<Value> {
        arr.iter()
            .find(|x| x["op"] == op && path_of(x).ends_with(path_suffix))
            .cloned()
    };

    assert!(find("replace", "/image").is_some());
    assert!(find("add", "/ports").is_some(), "ports not patched");
    let ports = find("add", "/ports").unwrap()["value"].clone();
    let expected: Value =
        serde_json::from_str(r#"[{"containerPort": 8080, "name": "http", "protocol": "TCP"}]"#).unwrap();
    assert_eq!(ports, expected);

    let lp = find("add", "/livenessProbe").unwrap()["value"].clone();
    assert_eq!(lp["httpGet"]["path"], "/health");
    assert_eq!(lp["httpGet"]["port"], 8080);

    let rp = find("add", "/readinessProbe").unwrap()["value"].clone();
    assert_eq!(rp["httpGet"]["path"], "/ready");
    assert_eq!(rp["httpGet"]["port"], 8080);

    assert!(find("remove", "/command").is_some());
    assert!(find("remove", "/args").is_some());

    let add_env = arr
        .iter()
        .find(|x| x["op"] == "add" && path_of(x).ends_with("/env/-"))
        .unwrap();
    assert_eq!(add_env["value"]["name"], "STUBBY_APP_NAME");
    assert_eq!(add_env["value"]["value"], "myapp");
}

#[test]
fn frontend_uses_port_80_by_default() {
    let cfg = StubbyConfig {
        dummy_type: DummyType::Frontend,
        port: 80,
        ..backend_cfg()
    };
    let pod = pod_with_containers(vec![container("web", "orig:1")]);
    let j = ops_to_json(build_patch(&pod, &cfg, &refs()));
    let arr = j.as_array().unwrap();
    let lp = arr
        .iter()
        .find(|x| x["op"] == "add" && path_of(x).ends_with("/livenessProbe"))
        .unwrap();
    assert_eq!(lp["value"]["httpGet"]["port"], 80);
}

#[test]
fn adds_default_resources_when_missing() {
    let pod = pod_with_containers(vec![container("app", "orig:1")]);
    let j = ops_to_json(build_patch(&pod, &backend_cfg(), &refs()));
    let arr = j.as_array().unwrap();
    let r = arr.iter().find(|x| path_of(x).ends_with("/resources")).unwrap();
    assert_eq!(r["op"], "add");
    assert_eq!(r["value"]["requests"]["cpu"], "10m");
    assert_eq!(r["value"]["limits"]["memory"], "64Mi");
}

#[test]
fn preserves_existing_resources() {
    let c = Container {
        has_resources: true,
        ..container("app", "orig:1")
    };
    let pod = pod_with_containers(vec![c]);
    let j = ops_to_json(build_patch(&pod, &backend_cfg(), &refs()));
    let arr = j.as_array().unwrap();
    assert!(arr.iter().all(|x| !path_of(x).ends_with("/resources")));
}

#[test]
fn multi_container_patches_each_non_sidecar() {
    let pod = pod_with_containers(vec![container("app", "orig:1"), container("audit", "audit:1")]);
    let j = ops_to_json(build_patch(&pod, &backend_cfg(), &refs()));
    let arr = j.as_array().unwrap();
    let imgs: Vec<_> = arr
        .iter()
        .filter(|x| x["op"] == "replace" && path_of(x).ends_with("/image"))
        .map(|x| x["value"].as_str().unwrap().to_string())
        .collect();
    assert_eq!(imgs, vec!["ghcr.io/test/be:1", "ghcr.io/test/be:1"]);
}

#[test]
fn skips_known_sidecar_prefixes() {
    let pod = pod_with_containers(vec![
        container("app", "orig:1"),
        container("istio-proxy", "istio:1"),
        container("linkerd-init", "linkerd:1"),
    ]);
    let j = ops_to_json(build_patch(&pod, &backend_cfg(), &refs()));
    let arr = j.as_array().unwrap();
    let paths: Vec<_> = arr
        .iter()
        .filter(|x| x["op"] == "replace" && path_of(x).ends_with("/image"))
        .map(|x| path_of(x).to_string())
        .collect();
    assert_eq!(paths, vec!["/spec/containers/0/image"]);
}

#[test]
fn skips_user_provided_skip_containers() {
    let cfg = StubbyConfig {
        skip_containers: vec!["telemetry".into()],
        ..backend_cfg()
    };
    let pod = pod_with_containers(vec![container("app", "orig:1"), container("telemetry", "tel:1")]);
    let j = ops_to_json(build_patch(&pod, &cfg, &refs()));
    let arr = j.as_array().unwrap();
    let paths: Vec<_> = arr
        .iter()
        .filter(|x| x["op"] == "replace" && path_of(x).ends_with("/image"))
        .map(|x| path_of(x).to_string())
        .collect();
    assert_eq!(paths, vec!["/spec/containers/0/image"]);
}

#[test]
fn image_override_used_instead_of_default() {
    let cfg = StubbyConfig {
        image_override: Some("ghcr.io/me/custom:dev".into()),
        ..backend_cfg()
    };
    let pod = pod_with_containers(vec![container("app", "orig:1")]);
    let j = ops_to_json(build_patch(&pod, &cfg, &refs()));
    let arr = j.as_array().unwrap();
    let img = arr
        .iter()
        .find(|x| x["op"] == "replace" && path_of(x).ends_with("/image"))
        .unwrap()["value"]
        .as_str()
        .unwrap()
        .to_string();
    assert_eq!(img, "ghcr.io/me/custom:dev");
}

#[test]
fn injects_stubby_port_env_matching_config() {
    let cfg = StubbyConfig {
        port: 9090,
        ..backend_cfg()
    };
    let pod = pod_with_containers(vec![container("app", "orig:1")]);
    let j = ops_to_json(build_patch(&pod, &cfg, &refs()));
    let arr = j.as_array().unwrap();
    let env_add = arr
        .iter()
        .find(|x| x["op"] == "add" && path_of(x).ends_with("/env"))
        .expect("env add op");
    let vals = env_add["value"].as_array().unwrap();
    let port = vals
        .iter()
        .find(|v| v["name"] == "STUBBY_PORT")
        .expect("STUBBY_PORT injected");
    assert_eq!(port["value"], "9090");
    assert!(vals.iter().any(|v| v["name"] == "STUBBY_APP_NAME"));
}

#[test]
fn appends_both_env_vars_when_env_present() {
    let c = Container {
        has_env: true,
        ..container("app", "orig:1")
    };
    let pod = pod_with_containers(vec![c]);
    let j = ops_to_json(build_patch(&pod, &backend_cfg(), &refs()));
    let arr = j.as_array().unwrap();
    let appended: Vec<_> = arr
        .iter()
        .filter(|x| x["op"] == "add" && path_of(x).ends_with("/env/-"))
        .map(|x| x["value"]["name"].as_str().unwrap().to_string())
        .collect();
    assert_eq!(appended, vec!["STUBBY_APP_NAME", "STUBBY_PORT"]);
}

#[test]
fn strips_env_from_by_default() {
    let c = Container {
        has_env_from: true,
        ..container("app", "orig:1")
    };
    let pod = pod_with_containers(vec![c]);
    let j = ops_to_json(build_patch(&pod, &backend_cfg(), &refs()));
    let arr = j.as_array().unwrap();
    assert!(
        arr.iter()
            .any(|x| x["op"] == "remove" && x["path"] == "/spec/containers/0/envFrom"),
        "orphan envFrom must be removed so the pod boots green"
    );
}

#[test]
fn keeps_env_from_when_opted_in() {
    let cfg = StubbyConfig {
        keep_env_from: true,
        ..backend_cfg()
    };
    let c = Container {
        has_env_from: true,
        ..container("app", "orig:1")
    };
    let pod = pod_with_containers(vec![c]);
    let j = ops_to_json(build_patch(&pod, &cfg, &refs()));
    let arr = j.as_array().unwrap();
    assert!(arr.iter().all(|x| path_of(x) != "/spec/containers/0/envFrom"));
}

#[test]
fn no_env_from_op_when_container_has_none() {
    let pod = pod_with_containers(vec![container("app", "orig:1")]);
    let j = ops_to_json(build_patch(&pod, &backend_cfg(), &refs()));
    let arr = j.as_array().unwrap();
    assert!(arr.iter().all(|x| !path_of(x).ends_with("/envFrom")));
}

#[test]
fn strips_volume_mounts_and_prunes_orphan_secret_volume() {
    let pod = pod_from_spec(
        vec![mounting("app", "orig:1", &["cfg"])],
        Some(vec![secret_volume("cfg", "not-created-yet")]),
    );
    let j = ops_to_json(build_patch(&pod, &backend_cfg(), &refs()));
    let arr = j.as_array().unwrap();
    assert!(
        arr.iter()
            .any(|x| x["op"] == "remove" && x["path"] == "/spec/containers/0/volumeMounts"),
        "volumeMounts must be stripped"
    );
    assert!(
        arr.iter().any(|x| x["op"] == "remove" && x["path"] == "/spec/volumes"),
        "the sole orphan secret volume must be pruned"
    );
}

#[test]
fn prunes_only_orphan_volume_and_keeps_the_rest() {
    let pod = pod_from_spec(
        vec![mounting("app", "orig:1", &["cfg", "scratch"])],
        Some(vec![secret_volume("cfg", "not-created-yet"), empty_dir_volume("scratch")]),
    );
    let j = ops_to_json(build_patch(&pod, &backend_cfg(), &refs()));
    let arr = j.as_array().unwrap();
    let vol_op = arr
        .iter()
        .find(|x| x["path"] == "/spec/volumes")
        .expect("expected a /spec/volumes op");
    assert_eq!(vol_op["op"], "replace");
    let kept = vol_op["value"].as_array().unwrap();
    assert_eq!(kept.len(), 1);
    assert_eq!(kept[0]["name"], "scratch");
}

#[test]
fn does_not_prune_emptydir_volume() {
    let pod = pod_from_spec(
        vec![mounting("app", "orig:1", &["scratch"])],
        Some(vec![empty_dir_volume("scratch")]),
    );
    let j = ops_to_json(build_patch(&pod, &backend_cfg(), &refs()));
    let arr = j.as_array().unwrap();
    assert!(arr
        .iter()
        .any(|x| x["op"] == "remove" && x["path"] == "/spec/containers/0/volumeMounts"));
    assert!(
        arr.iter().all(|x| path_of(x) != "/spec/volumes"),
        "emptyDir does not block on a missing object, so keep it"
    );
}

#[test]
fn preserves_secret_volume_still_used_by_skipped_sidecar() {
    let pod = pod_from_spec(
        vec![
            mounting("app", "orig:1", &["cfg"]),
            mounting("istio-proxy", "istio:1", &["cfg"]),
        ],
        Some(vec![secret_volume("cfg", "mesh-certs")]),
    );
    let j = ops_to_json(build_patch(&pod, &backend_cfg(), &refs()));
    let arr = j.as_array().unwrap();
    assert!(
        arr.iter().all(|x| path_of(x) != "/spec/volumes"),
        "volume is still mounted by the skipped sidecar; must not be pruned"
    );
    assert!(arr
        .iter()
        .any(|x| x["op"] == "remove" && x["path"] == "/spec/containers/0/volumeMounts"));
}

#[test]
fn keeps_volumes_and_mounts_when_opted_in() {
    let cfg = StubbyConfig {
        keep_volumes: true,
        ..backend_cfg()
    };
    let pod = pod_from_spec(
        vec![mounting("app", "orig:1", &["cfg"])],
        Some(vec![secret_volume("cfg", "real")]),
    );
    let j = ops_to_json(build_patch(&pod, &cfg, &refs()));
    let arr = j.as_array().unwrap();
    assert!(arr.iter().all(|x| path_of(x) != "/spec/volumes"));
    assert!(arr.iter().all(|x| path_of(x) != "/spec/containers/0/volumeMounts"));
}

#[test]
fn secret_volume_mounted_by_init_container_is_kept() {
    let mut pod = pod_from_spec(
        vec![mounting("app", "orig:1", &["cfg"])],
        Some(vec![secret_volume("cfg", "seed")]),
    );
    if let Some(spec) = pod.spec.as_mut() {
        spec.init_containers = Some(vec![mounting("init", "init:1", &["cfg"])]);
    }
    let j = ops_to_json(build_patch(&pod, &backend_cfg(), &refs()));
    let arr = j.as_array().unwrap();
    assert!(arr.iter().all(|x| path_of(x) != "/spec/volumes"));
}

#[test]
fn exact_patch_for_plain_backend_container() {
    let pod = pod_with_containers(vec![container("app", "orig:1")]);
    let text = patch_document(build_patch(&pod, &backend_cfg(), &refs()));
    let expected = [
        r#"[{"op":"replace","path":"/spec/containers/0/image","value":"ghcr.io/test/be:1"},"#,
        r#"{"op":"add","path":"/spec/containers/0/ports","value":[{"containerPort":8080,"name":"http","protocol":"TCP"}]},"#,
        r#"{"op":"add","path":"/spec/containers/0/livenessProbe","value":{"httpGet":{"path":"/health","port":8080},"initialDelaySeconds":1,"periodSeconds":10}},"#,
        r#"{"op":"add","path":"/spec/containers/0/readinessProbe","value":{"httpGet":{"path":"/ready","port":8080},"initialDelaySeconds":1,"periodSeconds":5}},"#,
        r#"{"op":"add","path":"/spec/containers/0/env","value":[{"name":"STUBBY_APP_NAME","value":"myapp"},{"name":"STUBBY_PORT","value":"8080"}]},"#,
        r#"{"op":"add","path":"/spec/containers/0/resources","value":{"limits":{"cpu":"100m","memory":"64Mi"},"requests":{"cpu":"10m","memory":"32Mi"}}}]"#,
    ]
    .join("");
    assert_eq!(text, expected);
}

#[test]
fn pod_without_containers_gets_empty_patch() {
    let pod = pod_with_containers(vec![]);
    assert!(build_patch(&pod, &backend_cfg(), &refs()).is_empty());
    let all_sidecars = pod_with_containers(vec![container("vault-agent", "v:1"), container("cilium-x", "c:1")]);
    assert!(build_patch(&all_sidecars, &backend_cfg(), &refs()).is_empty());
}

#[test]
fn only_sidecars_with_unused_secret_volume_get_no_patch() {
    let pod = pod_from_spec(
        vec![container("istio-proxy", "istio:1")],
        Some(vec![secret_volume("orphan", "gone")]),
    );
    assert!(build_patch(&pod, &backend_cfg(), &refs()).is_empty());
}

#[test]
fn containers_come_in_order_with_one_image_each_and_volumes_last() {
    let pod = pod_from_spec(
        vec![
            mounting("app", "orig:1", &["cfg"]),
            container("istio-proxy", "istio:1"),
            Container { has_env: true, ..container("web", "orig:2") },
        ],
        Some(vec![secret_volume("cfg", "x")]),
    );
    let j = ops_to_json(build_patch(&pod, &backend_cfg(), &refs()));
    let arr = j.as_array().unwrap();
    let paths: Vec<&str> = arr.iter().map(path_of).collect();
    let first_web = paths.iter().position(|p| p.starts_with("/spec/containers/2/")).unwrap();
    let last_app = paths.iter().rposition(|p| p.starts_with("/spec/containers/0/")).unwrap();
    assert!(last_app < first_web);
    assert_eq!(paths.iter().filter(|p| **p == "/spec/containers/0/image").count(), 1);
    assert_eq!(paths.iter().filter(|p| **p == "/spec/containers/2/image").count(), 1);
    assert_eq!(*paths.last().unwrap(), "/spec/volumes");
    assert!(paths.iter().all(|p| !p.starts_with("/spec/containers/1/")));
    let env: Vec<&Value> = arr.iter().filter(|x| path_of(x) == "/spec/containers/2/env/-").collect();
    assert_eq!(env.len(), 2);
    assert_eq!(env[0]["value"]["name"], "STUBBY_APP_NAME");
    assert_eq!(env[1]["value"]["name"], "STUBBY_PORT");
    assert!(arr.iter().all(|x| !(x["op"] == "remove" && path_of(x).ends_with("/env"))));
}
