use base64::Engine;
use serde_json::Value;
use stubby::admission::{classify, handle, mutate_reply, AdmissionRequest, AdmissionReview};
use stubby::config::ImageRefs;
use stubby::pod::{Container, Pod, PodSpec};
use stubby::strmap::StrMap;

fn refs() -> ImageRefs {
    ImageRefs {
        backend: "ghcr.io/test/be:1".into(),
        frontend: "ghcr.io/test/fe:1".into(),
    }
}

fn review(object: Result<Pod, String>, uid: &str) -> AdmissionReview {
    AdmissionReview {
        api_version: "admission.k8s.io/v1".into(),
        kind: "AdmissionReview".into(),
        request: Some(AdmissionRequest {
            uid: uid.into(),
            object,
        }),
        response: None,
    }
}

fn container(name: &str, image: &str) -> Container {
    Container {
        name: name.into(),
        image: Some(image.into()),
        has_command: false,
        has_args: false,
        has_env: false,
        has_env_from: false,
        volume_mounts: None,
        has_resources: false,
    }
}

fn pod(annotations: &[(&str, &str)]) -> Pod {
    let ann = if annotations.is_empty() {
        None
    } else {
        let mut m = StrMap::new();
        for (k, v) in annotations {
            m.insert(k.to_string(), v.to_string());
        }
        Some(m)
    };
    Pod {
        name: Some("p".into()),
        namespace: None,
        annotations: ann,
        spec: Some(PodSpec {
            containers: vec![container("app", "a:1")],
            init_containers: None,
            volumes: None,
            image_pull_secrets: None,
        }),
        container_statuses: None,
    }
}

#[test]
fn skips_when_no_annotation() {
    let r = handle(review(Ok(pod(&[])), "u1"), &refs());
    let resp = r.response.unwrap();
    assert_eq!(resp.uid, "u1");
    assert!(resp.allowed);
    assert!(resp.patch.is_none());
    assert!(resp.patch_type.is_none());
}

#[test]
fn decode_failure_surfaces_status_message() {
    // The pod object failed to decode: `spec` was a string, not an object.
    let err = "invalid type: string \"not-an-object\", expected struct PodSpec".to_string();
    let r = handle(review(Err(err), "u-bad"), &refs());
    let resp = r.response.unwrap();
    assert_eq!(resp.uid, "u-bad");
    assert!(resp.allowed, "decode failures must not block creation");
    assert!(resp.patch.is_none());
    let msg = resp
        .status
        .expect("decode failure must include status")
        .message;
    assert!(
        msg.starts_with("stubby:"),
        "status message should be prefixed with 'stubby:', got {msg}"
    );
}

#[test]
fn patches_when_backend_annotated() {
    let r = handle(review(Ok(pod(&[("stubby.io/type", "backend")])), "u2"), &refs());
    let resp = r.response.unwrap();
    assert_eq!(resp.uid, "u2");
    assert!(resp.allowed);
    let b64 = resp.patch.expect("expected patch");
    let raw = base64::engine::general_purpose::STANDARD.decode(b64).unwrap();
    let parsed: Value = serde_json::from_slice(&raw).unwrap();
    let arr = parsed.as_array().unwrap();
    assert!(arr.iter().any(|op| op["op"] == "replace"
        && op["path"] == "/spec/containers/0/image"
        && op["value"] == "ghcr.io/test/be:1"));
    assert_eq!(resp.patch_type.as_deref(), Some("JSONPatch"));
}

#[test]
fn reply_envelope_has_version_and_kind() {
    let r = handle(review(Ok(pod(&[])), "u3"), &refs());
    assert_eq!(r.api_version, "admission.k8s.io/v1");
    assert_eq!(r.kind, "AdmissionReview");
    assert!(r.request.is_none());
}

#[test]
fn review_without_request_is_allowed_with_empty_uid() {
    let r = handle(
        AdmissionReview {
            api_version: "admission.k8s.io/v1".into(),
            kind: "AdmissionReview".into(),
            request: None,
            response: None,
        },
        &refs(),
    );
    let resp = r.response.unwrap();
    assert_eq!(resp.uid, "");
    assert!(resp.allowed);
    assert!(resp.patch.is_none());
}

#[test]
fn patch_is_standard_base64_of_the_patch_text() {
    let r = handle(review(Ok(pod(&[("stubby.io/type", "frontend"), ("stubby.io/port", "8081")])), "u4"), &refs());
    let b64 = r.response.unwrap().patch.unwrap();
    let raw = base64::engine::general_purpose::STANDARD.decode(&b64).unwrap();
    let text = String::from_utf8(raw).unwrap();
    assert!(text.starts_with(r#"[{"op":"replace","path":"/spec/containers/0/image","value":"ghcr.io/test/fe:1"}"#));
    assert!(text.contains(r#"{"name":"STUBBY_PORT","value":"8081"}"#));
    assert_ne!(b64, text);
}

#[test]
fn off_type_gets_no_patch() {
    let r = handle(review(Ok(pod(&[("stubby.io/type", "off")])), "u5"), &refs());
    assert!(r.response.unwrap().patch.is_none());
}

#[test]
fn classify_counts_inject_skip_and_error() {
    let injected = handle(review(Ok(pod(&[("stubby.io/type", "backend")])), "a"), &refs());
    assert_eq!(classify(&injected), ("inject", "pod"));
    let skipped = handle(review(Ok(pod(&[])), "b"), &refs());
    assert_eq!(classify(&skipped), ("skip", "pod"));
    let failed = handle(review(Err("bad".into()), "c"), &refs());
    assert_eq!(classify(&failed), ("error", "pod"));
}

#[test]
fn mutate_malformed_body_returns_200_with_status() {
    let (r, decision) = mutate_reply(Err("expected value at line 1 column 1".into()), &refs());
    assert_eq!(decision, "error");
    assert_eq!(r.kind, "AdmissionReview");
    let resp = r.response.unwrap();
    assert!(resp.allowed);
    assert_eq!(resp.uid, "");
    let msg = resp.status.unwrap().message;
    assert_eq!(msg, "stubby: malformed AdmissionReview body: expected value at line 1 column 1");
}

#[test]
fn mutate_returns_review_response() {
    let (r, decision) = mutate_reply(Ok(review(Ok(pod(&[("stubby.io/type", "backend")])), "abc")), &refs());
    assert_eq!(decision, "inject");
    let resp = r.response.unwrap();
    assert_eq!(resp.uid, "abc");
    assert!(resp.patch.is_some());
}
