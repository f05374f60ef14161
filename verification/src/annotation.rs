//! Reading the `stubby.io/*` annotations of a pod.
//!
//! [`parse_annotations`] turns the annotation map into a [`Decision`]: inject a
//! dummy with a fully resolved [`StubbyConfig`], or leave the pod alone.
use vstd::prelude::*;
use crate::strmap::StrMap;
use crate::text::{
    to_chars, from_chars, str_eq, trim, trim_chars, split_char, split_chars, parse_unsigned,
    parse_unsigned_chars,
};

verus! {

/// Which dummy a pod opted into.
#[derive(Debug, Clone, Copy, PartialEq, Eq, Structural)]
pub enum DummyType {
    /// HTTP backend dummy (`/health`, `/ready`, `/openapi.json`, ...).
    Backend,
    /// HTML frontend dummy.
    Frontend,
}

/// Settings resolved from a pod's annotations.
///
/// `app_name` falls back to the pod name; `port` to 8080 (backend) or 80
/// (frontend). `keep_env_from` / `keep_volumes` are `false` unless the
/// matching annotation is `"true"`.
#[derive(Debug, Clone, PartialEq, Eq)]
pub struct StubbyConfig {
    pub dummy_type: DummyType,
    pub app_name: String,
    pub port: u16,
    pub image_override: Option<String>,
    pub skip_containers: Vec<String>,
    pub keep_env_from: bool,
    pub keep_volumes: bool,
}

pub struct StubbyConfigView {
    pub dummy_type: DummyType,
    pub app_name: Seq<char>,
    pub port: u16,
    pub image_override: Option<Seq<char>>,
    pub skip_containers: Seq<Seq<char>>,
    pub keep_env_from: bool,
    pub keep_volumes: bool,
}

pub open spec fn opt_str_view(o: Option<String>) -> Option<Seq<char>> {
    match o {
        Some(s) => Some(s@),
        None => None,
    }
}

pub open spec fn strings_view(v: Seq<String>) -> Seq<Seq<char>> {
    v.map_values(|s: String| s@)
}

impl View for StubbyConfig {
    type V = StubbyConfigView;

    open spec fn view(&self) -> StubbyConfigView {
        StubbyConfigView {
            dummy_type: self.dummy_type,
            app_name: self.app_name@,
            port: self.port,
            image_override: opt_str_view(self.image_override),
            skip_containers: strings_view(self.skip_containers@),
            keep_env_from: self.keep_env_from,
            keep_volumes: self.keep_volumes,
        }
    }
}

/// What the webhook decided to do with a pod.
#[derive(Debug, Clone, PartialEq, Eq)]
pub enum Decision {
    /// Mutate the pod with these settings.
    Inject(StubbyConfig),
    /// Leave the pod untouched.
    Skip,
}

impl View for Decision {
    type V = Option<StubbyConfigView>;

    open spec fn view(&self) -> Option<StubbyConfigView> {
        match self {
            Decision::Inject(c) => Some(c@),
            Decision::Skip => None,
        }
    }
}

/// Port the dummy listens on when `stubby.io/port` gives none.
pub open spec fn default_port(t: DummyType) -> u16 {
    match t {
        DummyType::Backend => 8080,
        DummyType::Frontend => 80,
    }
}

/// The dummy type that a `stubby.io/type` value selects.
pub open spec fn type_of(raw: Seq<char>) -> Option<DummyType> {
    if raw == "backend"@ {
        Some(DummyType::Backend)
    } else if raw == "frontend"@ {
        Some(DummyType::Frontend)
    } else {
        None
    }
}

/// The port: `stubby.io/port` if it parses as a `u16`, else the default.
pub open spec fn port_of(ann: Map<Seq<char>, Seq<char>>, t: DummyType) -> u16 {
    if ann.contains_key("stubby.io/port"@) && parse_unsigned(ann["stubby.io/port"@], 65535)
        is Some {
        parse_unsigned(ann["stubby.io/port"@], 65535)->0 as u16
    } else {
        default_port(t)
    }
}

/// The names listed in a `stubby.io/skip-containers` value, each trimmed.
pub open spec fn skip_list(csv: Seq<char>) -> Seq<Seq<char>> {
    split_char(csv, ',').map_values(|p: Seq<char>| trim(p))
}

/// Whether annotation `key` is present with the value `"true"`.
pub open spec fn flag_set(ann: Map<Seq<char>, Seq<char>>, key: Seq<char>) -> bool {
    ann.contains_key(key) && ann[key] == "true"@
}

/// The decision for a pod with annotations `ann` and name `pod_name`.
pub open spec fn spec_parse_annotations(ann: Map<Seq<char>, Seq<char>>, pod_name: Seq<char>) -> Option<
    StubbyConfigView,
> {
    if !ann.contains_key("stubby.io/type"@) {
        None
    } else {
        match type_of(ann["stubby.io/type"@]) {
            None => None,
            Some(t) => Some(
                StubbyConfigView {
                    dummy_type: t,
                    app_name: if ann.contains_key("stubby.io/app-name"@) {
                        ann["stubby.io/app-name"@]
                    } else {
                        pod_name
                    },
                    port: port_of(ann, t),
                    image_override: if ann.contains_key("stubby.io/image-override"@) {
                        Some(ann["stubby.io/image-override"@])
                    } else {
                        None
                    },
                    skip_containers: if ann.contains_key("stubby.io/skip-containers"@) {
                        skip_list(ann["stubby.io/skip-containers"@])
                    } else {
                        Seq::empty()
                    },
                    keep_env_from: flag_set(ann, "stubby.io/keep-env-from"@),
                    keep_volumes: flag_set(ann, "stubby.io/keep-volumes"@),
                },
            ),
        }
    }
}

/// Splits a comma-separated list and trims each piece.
fn parse_skip_list(csv: &str) -> (r: Vec<String>)
    ensures
        strings_view(r@) == skip_list(csv@),
{
    let c = to_chars(csv);
    let pieces = split_chars(c.as_slice(), ',');
    let mut out: Vec<String> = Vec::new();
    let mut i: usize = 0;
    while i < pieces.len()
        invariant
            i <= pieces@.len(),
            pieces@.len() == split_char(csv@, ',').len(),
            forall|k: int| 0 <= k < pieces@.len() ==> #[trigger] pieces@[k]@ == split_char(csv@, ',')[k],
            strings_view(out@) == skip_list(csv@).take(i as int),
        decreases pieces@.len() - i,
    {
        let t = trim_chars(pieces[i].as_slice());
        let s = from_chars(t.as_slice());
        let ghost before = out@;
        out.push(s);
        proof {
            assert(skip_list(csv@)[i as int] == trim(split_char(csv@, ',')[i as int]));
            assert(strings_view(out@) =~= strings_view(before).push(s@));
            assert(skip_list(csv@).take(i + 1) =~= skip_list(csv@).take(i as int).push(
                skip_list(csv@)[i as int],
            ));
        }
        i += 1;
    }
    assert(skip_list(csv@).take(i as int) =~= skip_list(csv@));
    out
}

/// Whether annotation `key` is present with the value `"true"`.
fn flag(annotations: &StrMap<String>, key: &str) -> (b: bool)
    ensures
        b == flag_set(annotations@, key@),
{
    match annotations.get(key) {
        Some(v) => str_eq(v.as_str(), "true"),
        None => false,
    }
}

/// Turns a pod's annotation map into a [`Decision`].
///
/// `pod_name` is only the fallback for `stubby.io/app-name`. Nothing here is an
/// error: an unknown type skips the pod, a malformed port falls back to the default.
pub fn parse_annotations(annotations: &StrMap<String>, pod_name: &str) -> (d: Decision)
    ensures
        d@ == spec_parse_annotations(annotations@, pod_name@),
{
    let raw_type = match annotations.get("stubby.io/type") {
        Some(v) => v,
        None => return Decision::Skip,
    };
    let dummy_type = if str_eq(raw_type.as_str(), "backend") {
        DummyType::Backend
    } else if str_eq(raw_type.as_str(), "frontend") {
        DummyType::Frontend
    } else {
        return Decision::Skip;
    };
    let app_name = match annotations.get("stubby.io/app-name") {
        Some(v) => v.clone(),
        None => from_chars(to_chars(pod_name).as_slice()),
    };
    let default: u16 = match dummy_type {
        DummyType::Backend => 8080,
        DummyType::Frontend => 80,
    };
    let port: u16 = match annotations.get("stubby.io/port") {
        Some(v) => match parse_unsigned_chars(to_chars(v.as_str()).as_slice(), 65535) {
            Some(p) => p as u16,
            None => default,
        },
        None => default,
    };
    let image_override = match annotations.get("stubby.io/image-override") {
        Some(v) => Some(v.clone()),
        None => None,
    };
    let skip_containers = match annotations.get("stubby.io/skip-containers") {
        Some(v) => parse_skip_list(v.as_str()),
        None => Vec::new(),
    };
    let keep_env_from = flag(annotations, "stubby.io/keep-env-from");
    let keep_volumes = flag(annotations, "stubby.io/keep-volumes");
    let cfg = StubbyConfig {
        dummy_type,
        app_name,
        port,
        image_override,
        skip_containers,
        keep_env_from,
        keep_volumes,
    };
    assert(strings_view(Seq::<String>::empty()) =~= Seq::<Seq<char>>::empty());
    Decision::Inject(cfg)
}

/// A pod is mutated exactly when `stubby.io/type` is `backend` or
/// `frontend`; absent, `off` or any other value leaves it alone.
pub proof fn law_inject_iff_known_type(ann: Map<Seq<char>, Seq<char>>, pod_name: Seq<char>)
    ensures
        (spec_parse_annotations(ann, pod_name) is Some) <==> (ann.contains_key("stubby.io/type"@) && (
        ann["stubby.io/type"@] == "backend"@ || ann["stubby.io/type"@] == "frontend"@)),
        ann.contains_key("stubby.io/type"@) && ann["stubby.io/type"@] == "off"@ ==> spec_parse_annotations(
            ann,
            pod_name,
        ) is None,
{
    reveal_strlit("off");
    reveal_strlit("backend");
    reveal_strlit("frontend");
    assert("off"@.len() != "backend"@.len());
    assert("off"@.len() != "frontend"@.len());
}

/// Malformed settings never fail: a `stubby.io/port` that is not a `u16`
/// falls back to the type's default port, and a missing app name to the pod
/// name.
pub proof fn law_port_and_name_fall_back(ann: Map<Seq<char>, Seq<char>>, pod_name: Seq<char>)
    ensures
        spec_parse_annotations(ann, pod_name) matches Some(cfg) ==> {
            &&& (!ann.contains_key("stubby.io/port"@) || parse_unsigned(ann["stubby.io/port"@], 65535) is None)
                ==> cfg.port == default_port(cfg.dummy_type)
            &&& (ann.contains_key("stubby.io/port"@) && parse_unsigned(ann["stubby.io/port"@], 65535) is Some)
                ==> cfg.port as nat == parse_unsigned(ann["stubby.io/port"@], 65535)->0
            &&& !ann.contains_key("stubby.io/app-name"@) ==> cfg.app_name == pod_name
        },
{
}


/// The opt-outs: an injecting decision keeps `envFrom` exactly when
/// `stubby.io/keep-env-from` is `"true"`, and keeps `volumeMounts` and
/// volumes exactly when `stubby.io/keep-volumes` is `"true"`; any other value,
/// or no annotation, strips them. The image override, skip list and app name
/// are read from their own annotations.
pub proof fn law_settings_follow_their_annotations(ann: Map<Seq<char>, Seq<char>>, pod_name: Seq<char>)
    ensures
        spec_parse_annotations(ann, pod_name) matches Some(cfg) ==> {
            &&& cfg.keep_volumes == (ann.contains_key("stubby.io/keep-volumes"@) && ann["stubby.io/keep-volumes"@]
                == "true"@)
            &&& cfg.keep_env_from == (ann.contains_key("stubby.io/keep-env-from"@)
                && ann["stubby.io/keep-env-from"@] == "true"@)
            &&& cfg.image_override == (if ann.contains_key("stubby.io/image-override"@) {
                Some(ann["stubby.io/image-override"@])
            } else {
                None
            })
            &&& ann.contains_key("stubby.io/app-name"@) ==> cfg.app_name == ann["stubby.io/app-name"@]
            &&& !ann.contains_key("stubby.io/skip-containers"@) ==> cfg.skip_containers.len() == 0
            &&& cfg.dummy_type == (if ann["stubby.io/type"@] == "frontend"@ {
                DummyType::Frontend
            } else {
                DummyType::Backend
            })
        },
{
    reveal_strlit("backend");
    reveal_strlit("frontend");
    assert("backend"@.len() != "frontend"@.len());
}

} // verus!
