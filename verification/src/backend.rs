//! The backend dummy's documents: the placeholder OpenAPI spec and the
//! catch-all JSON body.
use vstd::prelude::*;
use crate::frontend::{app_name_from, app_name_or_default};
use crate::json::{Json, JsonView, json_text, to_json_string, obj1, obj2, obj3, jstr};
use crate::text::{owned, push_str};

verus! {

/// Per-process configuration of the backend dummy.
#[derive(Clone, Debug)]
pub struct BackendConfig {
    /// Name in the OpenAPI title (`<app> (dummy)`), from `STUBBY_APP_NAME`.
    pub app_name: String,
}

impl BackendConfig {
    /// Builds the configuration from the value of `STUBBY_APP_NAME`
    /// (`None` when unset): trimmed, or `stubby` when unset or blank.
    pub fn from_env(app_name: Option<String>) -> (c: BackendConfig)
        ensures
            c.app_name@ == app_name_or_default(match app_name {
                Some(s) => Some(s@),
                None => None,
            }),
    {
        BackendConfig { app_name: app_name_from(app_name) }
    }
}

pub open spec fn ok_get_json() -> JsonView {
    JsonView::Obj(
        seq![
            (
                "get"@,
                JsonView::Obj(
                    seq![
                        (
                            "responses"@,
                            JsonView::Obj(
                                seq![
                                    (
                                        "200"@,
                                        JsonView::Obj(seq![("description"@, JsonView::Str("ok"@))]),
                                    ),
                                ],
                            ),
                        ),
                    ],
                ),
            ),
        ],
    )
}

/// The placeholder OpenAPI 3.0 document titled `<app_name> (dummy)`, with
/// `/health` and `/ready`.
pub open spec fn openapi_json(app_name: Seq<char>) -> JsonView {
    JsonView::Obj(
        seq![
            (
                "info"@,
                JsonView::Obj(
                    seq![
                        (
                            "description"@,
                            JsonView::Str("Placeholder spec served by stubby-dummy-backend."@),
                        ),
                        ("title"@, JsonView::Str(app_name + " (dummy)"@)),
                        ("version"@, JsonView::Str("0.0.0"@)),
                    ],
                ),
            ),
            ("openapi"@, JsonView::Str("3.0.0"@)),
            ("paths"@, JsonView::Obj(seq![("/health"@, ok_get_json()), ("/ready"@, ok_get_json())])),
        ],
    )
}

/// The first member named `key` of an object, or `None`.
pub open spec fn member(j: JsonView, key: Seq<char>) -> Option<JsonView> {
    match j {
        JsonView::Obj(m) => lookup(m, key),
        _ => None,
    }
}

pub open spec fn lookup(m: Seq<(Seq<char>, JsonView)>, key: Seq<char>) -> Option<JsonView>
    decreases m.len(),
{
    if m.len() == 0 {
        None
    } else if m[0].0 == key {
        Some(m[0].1)
    } else {
        lookup(m.drop_first(), key)
    }
}

/// Whatever the app name, the OpenAPI document declares `openapi` `3.0.0`
/// and is titled `<app_name> (dummy)`.
pub proof fn law_openapi_names_app(app_name: Seq<char>)
    ensures
        member(openapi_json(app_name), "openapi"@) == Some(JsonView::Str("3.0.0"@)),
        member(openapi_json(app_name), "info"@) matches Some(info) && member(info, "title"@) == Some(
            JsonView::Str(app_name + " (dummy)"@),
        ),
{
    reveal_strlit("openapi");
    reveal_strlit("info");
    reveal_strlit("title");
    reveal_strlit("description");
    let top = match openapi_json(app_name) {
        JsonView::Obj(m) => m,
        _ => Seq::empty(),
    };
    assert(top[0].0 == "info"@);
    assert("info"@.len() != "openapi"@.len());
    assert(top.drop_first()[0].0 == "openapi"@);
    assert(lookup(top.drop_first(), "openapi"@) == Some(JsonView::Str("3.0.0"@)));
    let info = top[0].1;
    let im = match info {
        JsonView::Obj(m) => m,
        _ => Seq::empty(),
    };
    assert(im[0].0 == "description"@);
    assert("description"@.len() != "title"@.len());
    assert(im.drop_first()[0].0 == "title"@);
    assert(lookup(im.drop_first(), "title"@) == Some(JsonView::Str(app_name + " (dummy)"@)));
}

fn ok_get() -> (j: Json)
    ensures
        j@ == ok_get_json(),
{
    obj1("get", obj1("responses", obj1("200", obj1("description", jstr("ok")))))
}

/// The OpenAPI document served at `/openapi.json`, as compact JSON.
pub fn doc(app_name: &str) -> (s: String)
    ensures
        s@ == json_text(openapi_json(app_name@)),
{
    let mut title = owned(app_name);
    push_str(&mut title, " (dummy)");
    let info = obj3(
        "description",
        jstr("Placeholder spec served by stubby-dummy-backend."),
        "title",
        Json::Str(title),
        "version",
        jstr("0.0.0"),
    );
    let paths = obj2("/health", ok_get(), "/ready", ok_get());
    let d = obj3("info", info, "openapi", jstr("3.0.0"), "paths", paths);
    to_json_string(&d)
}

/// The `/docs` page: swagger-ui, loaded from a CDN, pointed at `/openapi.json`.
pub const DOCS_HTML: &'static str = "<!doctype html><html><head><title>stubby docs</title>
<link rel=\"stylesheet\" href=\"https://cdn.jsdelivr.net/npm/swagger-ui-dist@5/swagger-ui.css\">
</head><body><div id=\"swagger\"></div>
<script src=\"https://cdn.jsdelivr.net/npm/swagger-ui-dist@5/swagger-ui-bundle.js\"></script>
<script>SwaggerUIBundle({url:'/openapi.json',dom_id:'#swagger'})</script>
</body></html>";

/// The body answered on every other path: `{"app":…,"path":…,"status":"dummy"}`.
pub open spec fn catchall_body(app_name: Seq<char>, path: Seq<char>) -> JsonView {
    JsonView::Obj(
        seq![
            ("app"@, JsonView::Str(app_name)),
            ("path"@, JsonView::Str(path)),
            ("status"@, JsonView::Str("dummy"@)),
        ],
    )
}

/// The catch-all body for a request to `path`, as compact JSON.
pub fn catchall_json(app_name: &str, path: &str) -> (s: String)
    ensures
        s@ == json_text(catchall_body(app_name@, path@)),
{
    let b = obj3("app", jstr(app_name), "path", jstr(path), "status", jstr("dummy"));
    to_json_string(&b)
}

} // verus!
