use serde_json::Value;
use stubby::backend::{catchall_json, doc, BackendConfig, DOCS_HTML};
use stubby::frontend::{html_escape, listen_addr, render_index, FrontendConfig, STYLE_CSS};

const ORDERS_PAGE: &str = "<!doctype html>
<html lang=\"en\">
<head>
  <meta charset=\"utf-8\">
  <title>Orders \u{2014} stubby</title>
  <link rel=\"stylesheet\" href=\"/style.css\">
</head>
<body>
  <main>
    <span class=\"badge\">dummy mode</span>
    <h1>Orders</h1>
    <p>This service is running on the <strong>stubby</strong> placeholder image.
       The real implementation isn't deployed yet.</p>
    <footer>
      <a href=\"https://github.com/kauemendes/stubby\">github.com/kauemendes/stubby</a>
    </footer>
  </main>
</body>
</html>
";

#[test]
fn simple_name_snapshot() {
    let html = render_index("Orders");
    assert_eq!(html, ORDERS_PAGE);
}

#[test]
fn xss_attempt_is_escaped() {
    let html = render_index("<script>alert(1)</script>");
    assert!(!html.contains("<script>"), "raw <script> must not leak");
    assert!(html.contains("&lt;script&gt;alert(1)&lt;/script&gt;"));
    assert_eq!(
        html,
        ORDERS_PAGE.replace("Orders", "&lt;script&gt;alert(1)&lt;/script&gt;")
    );
}

#[test]
fn empty_name_renders_literal_empty_heading() {
    let html = render_index("");
    assert!(html.contains("<h1></h1>"), "expected empty h1 in:\n{html}");
}

#[test]
fn escapes_the_whole_set() {
    assert_eq!(html_escape(r#"a&b<c>d"e'f"#), "a&amp;b&lt;c&gt;d&quot;e&#x27;f");
    assert_eq!(html_escape("Café {{APP_NAME}}"), "Café {{APP_NAME}}");
    let html = render_index("{{APP_NAME}}");
    assert!(html.contains("<h1>{{APP_NAME}}</h1>"));
}

#[test]
fn style_sheet_is_embedded() {
    assert!(STYLE_CSS.starts_with(":root"));
    assert!(STYLE_CSS.contains(".badge"));
}

#[test]
fn app_name_defaults_to_stubby() {
    assert_eq!(FrontendConfig::from_env(None).app_name, "stubby");
    assert_eq!(FrontendConfig::from_env(Some("   ".into())).app_name, "stubby");
    assert_eq!(FrontendConfig::from_env(Some(" Shop ".into())).app_name, "Shop");
    assert_eq!(BackendConfig::from_env(Some("\tapi\n".into())).app_name, "api");
    assert_eq!(BackendConfig::from_env(None).app_name, "stubby");
}

#[test]
fn listen_address_precedence() {
    assert_eq!(listen_addr(Some(" 127.0.0.1:9 ".into()), Some("81".into()), "80"), "127.0.0.1:9");
    assert_eq!(listen_addr(Some("  ".into()), Some(" 8081 ".into()), "80"), "0.0.0.0:8081");
    assert_eq!(listen_addr(None, None, "80"), "0.0.0.0:80");
    assert_eq!(listen_addr(None, Some("".into()), "8080"), "0.0.0.0:8080");
}

#[test]
fn openapi_includes_app_name() {
    let v: Value = serde_json::from_str(&doc("demo")).unwrap();
    assert_eq!(v["info"]["title"], "demo (dummy)");
    assert_eq!(v["openapi"], "3.0.0");
    assert_eq!(v["paths"]["/health"]["get"]["responses"]["200"]["description"], "ok");
}

#[test]
fn openapi_document_is_exact() {
    assert_eq!(
        doc("a\"b"),
        r#"{"info":{"description":"Placeholder spec served by stubby-dummy-backend.","title":"a\"b (dummy)","version":"0.0.0"},"openapi":"3.0.0","paths":{"/health":{"get":{"responses":{"200":{"description":"ok"}}}},"/ready":{"get":{"responses":{"200":{"description":"ok"}}}}}}"#
    );
}

#[test]
fn docs_renders_html() {
    assert!(DOCS_HTML.contains("swagger-ui"));
    assert!(DOCS_HTML.starts_with("<!doctype html>"));
}

#[test]
fn catchall_returns_dummy() {
    let v: Value = serde_json::from_str(&catchall_json("demo", "/anything/else")).unwrap();
    assert_eq!(v["status"], "dummy");
    assert_eq!(v["app"], "demo");
    assert_eq!(v["path"], "/anything/else");
    assert_eq!(
        catchall_json("demo", "/x"),
        r#"{"app":"demo","path":"/x","status":"dummy"}"#
    );
}
