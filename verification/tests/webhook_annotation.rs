use stubby::annotation::{parse_annotations, Decision, DummyType, StubbyConfig};
use stubby::strmap::StrMap;

fn ann(pairs: &[(&str, &str)]) -> StrMap<String> {
    let mut m = StrMap::new();
    for (k, v) in pairs {
        m.insert(k.to_string(), v.to_string());
    }
    m
}

#[test]
fn missing_type_skips() {
    let a = ann(&[]);
    assert_eq!(parse_annotations(&a, "pod"), Decision::Skip);
}

#[test]
fn type_off_skips() {
    let a = ann(&[("stubby.io/type", "off")]);
    assert_eq!(parse_annotations(&a, "pod"), Decision::Skip);
}

#[test]
fn invalid_type_skips() {
    let a = ann(&[("stubby.io/type", "worker")]);
    assert_eq!(parse_annotations(&a, "pod"), Decision::Skip);
}

#[test]
fn type_backend_with_defaults() {
    let a = ann(&[("stubby.io/type", "backend")]);
    let got = parse_annotations(&a, "orders-api-7f");
    assert_eq!(
        got,
        Decision::Inject(StubbyConfig {
            dummy_type: DummyType::Backend,
            app_name: "orders-api-7f".into(),
            port: 8080,
            image_override: None,
            skip_containers: vec![],
            keep_env_from: false,
            keep_volumes: false,
        })
    );
}

#[test]
fn type_frontend_with_defaults() {
    let a = ann(&[("stubby.io/type", "frontend")]);
    let got = parse_annotations(&a, "site");
    assert_eq!(
        got,
        Decision::Inject(StubbyConfig {
            dummy_type: DummyType::Frontend,
            app_name: "site".into(),
            port: 80,
            image_override: None,
            skip_containers: vec![],
            keep_env_from: false,
            keep_volumes: false,
        })
    );
}

#[test]
fn port_override_valid() {
    let a = ann(&[("stubby.io/type", "backend"), ("stubby.io/port", "9090")]);
    match parse_annotations(&a, "p") {
        Decision::Inject(c) => assert_eq!(c.port, 9090),
        _ => panic!("expected inject"),
    }
}

#[test]
fn port_override_invalid_falls_back_to_default() {
    let a = ann(&[("stubby.io/type", "backend"), ("stubby.io/port", "notanumber")]);
    match parse_annotations(&a, "p") {
        Decision::Inject(c) => assert_eq!(c.port, 8080),
        _ => panic!("expected inject"),
    }
}

#[test]
fn port_override_out_of_range_falls_back_to_default() {
    let a = ann(&[("stubby.io/type", "backend"), ("stubby.io/port", "99999")]);
    match parse_annotations(&a, "p") {
        Decision::Inject(c) => assert_eq!(c.port, 8080),
        _ => panic!("expected inject"),
    }
}

#[test]
fn app_name_override() {
    let a = ann(&[("stubby.io/type", "frontend"), ("stubby.io/app-name", "Orders")]);
    match parse_annotations(&a, "any") {
        Decision::Inject(c) => assert_eq!(c.app_name, "Orders"),
        _ => panic!("expected inject"),
    }
}

#[test]
fn image_override_passes_through() {
    let a = ann(&[
        ("stubby.io/type", "backend"),
        ("stubby.io/image-override", "ghcr.io/me/myimg:tag"),
    ]);
    match parse_annotations(&a, "p") {
        Decision::Inject(c) => assert_eq!(c.image_override.as_deref(), Some("ghcr.io/me/myimg:tag")),
        _ => panic!("expected inject"),
    }
}

#[test]
fn skip_containers_csv_parsed() {
    let a = ann(&[
        ("stubby.io/type", "backend"),
        ("stubby.io/skip-containers", "sidecar, audit ,telemetry"),
    ]);
    match parse_annotations(&a, "p") {
        Decision::Inject(c) => assert_eq!(c.skip_containers, vec!["sidecar", "audit", "telemetry"]),
        _ => panic!("expected inject"),
    }
}

#[test]
fn keep_flags_only_for_exact_true() {
    let a = ann(&[
        ("stubby.io/type", "backend"),
        ("stubby.io/keep-env-from", "true"),
        ("stubby.io/keep-volumes", "yes"),
    ]);
    match parse_annotations(&a, "p") {
        Decision::Inject(c) => {
            assert!(c.keep_env_from);
            assert!(!c.keep_volumes);
        }
        _ => panic!("expected inject"),
    }
}

#[test]
fn port_with_plus_sign_parses_like_u16() {
    let a = ann(&[("stubby.io/type", "frontend"), ("stubby.io/port", "+8081")]);
    match parse_annotations(&a, "p") {
        Decision::Inject(c) => assert_eq!(c.port, 8081),
        _ => panic!("expected inject"),
    }
    let b = ann(&[("stubby.io/type", "frontend"), ("stubby.io/port", " 8081")]);
    match parse_annotations(&b, "p") {
        Decision::Inject(c) => assert_eq!(c.port, 80),
        _ => panic!("expected inject"),
    }
}

#[test]
fn port_upper_bound_is_accepted() {
    let a = ann(&[("stubby.io/type", "backend"), ("stubby.io/port", "65535")]);
    match parse_annotations(&a, "p") {
        Decision::Inject(c) => assert_eq!(c.port, 65535),
        _ => panic!("expected inject"),
    }
    let b = ann(&[("stubby.io/type", "backend"), ("stubby.io/port", "65536")]);
    match parse_annotations(&b, "p") {
        Decision::Inject(c) => assert_eq!(c.port, 8080),
        _ => panic!("expected inject"),
    }
}
