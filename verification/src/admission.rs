//! `admission.k8s.io/v1` AdmissionReview values and the admission decision.
//!
//! [`handle`] answers one AdmissionReview: always `allowed: true`, with a
//! base64-encoded JSON Patch when the pod is annotated for stubby, and with a
//! status message when the pod object could not be decoded.
use vstd::prelude::*;
use crate::annotation::{parse_annotations, spec_parse_annotations, Decision, law_inject_iff_known_type, skip_list};
use crate::patch_laws::{law_container_block, law_all_skipped_empty_patch};
use crate::sidecar::is_sidecar_name;
use crate::codec::{base64_encode, base64_standard_encode, base64_standard_decode, law_base64_decode_reads_back};
use crate::config::{ImageRefs, opt_view};
use crate::json::{Json, JsonView, json_text, json_view, items_view, to_json_string};
use crate::patch::{
    PatchOp, PatchOpView, ops_view, op_json, patch_json, build_patch, spec_build_patch, pod_containers, skipped,
    container_ops, spec_chosen_image,
};
use crate::pod::{Pod, annotations_of};
use crate::strmap::StrMap;
use crate::text::{owned, push_str};

verus! {

/// The half of an AdmissionReview the API server sends.
///
/// `object` is the pod, or the text of the error met while decoding it.
#[derive(Debug)]
pub struct AdmissionRequest {
    pub uid: String,
    pub object: Result<Pod, String>,
}

/// The half of an AdmissionReview sent back.
#[derive(Debug, PartialEq, Eq)]
pub struct AdmissionResponse {
    pub uid: String,
    pub allowed: bool,
    pub patch: Option<String>,
    pub patch_type: Option<String>,
    pub status: Option<AdmissionStatus>,
}

/// Diagnostic attached to a response (for example a failed pod decode).
#[derive(Debug, PartialEq, Eq)]
pub struct AdmissionStatus {
    pub message: String,
}

/// The `admission.k8s.io/v1` envelope: `request` on the way in, `response`
/// on the way out.
#[derive(Debug)]
pub struct AdmissionReview {
    pub api_version: String,
    pub kind: String,
    pub request: Option<AdmissionRequest>,
    pub response: Option<AdmissionResponse>,
}

/// Model of a response: uid, allowed, patch, patch type, status message.
pub struct ResponseView {
    pub uid: Seq<char>,
    pub allowed: bool,
    pub patch: Option<Seq<char>>,
    pub patch_type: Option<Seq<char>>,
    pub status: Option<Seq<char>>,
}

pub open spec fn response_view(r: AdmissionResponse) -> ResponseView {
    ResponseView {
        uid: r.uid@,
        allowed: r.allowed,
        patch: opt_view(r.patch),
        patch_type: opt_view(r.patch_type),
        status: match r.status {
            Some(s) => Some(s.message@),
            None => None,
        },
    }
}

/// A reply envelope: right version and kind, no request, and this response.
pub open spec fn is_reply(r: AdmissionReview, resp: ResponseView) -> bool {
    &&& r.api_version@ == "admission.k8s.io/v1"@
    &&& r.kind@ == "AdmissionReview"@
    &&& r.request is None
    &&& r.response matches Some(x) && response_view(x) == resp
}

/// An allowed response for `uid` carrying `patch` (with type `JSONPatch` when present).
pub open spec fn allow(uid: Seq<char>, patch: Option<Seq<char>>) -> ResponseView {
    ResponseView {
        uid,
        allowed: true,
        patch,
        patch_type: match patch {
            Some(_) => Some("JSONPatch"@),
            None => None,
        },
        status: None,
    }
}

/// An allowed response for `uid` with a status message and no patch.
pub open spec fn allow_with_status(uid: Seq<char>, message: Seq<char>) -> ResponseView {
    ResponseView { uid, allowed: true, patch: None, patch_type: None, status: Some(message) }
}

/// The text of the JSON Patch document for `ops`.
pub open spec fn patch_document_text(ops: Seq<PatchOpView>) -> Seq<char> {
    json_text(patch_json(ops))
}

/// The name a pod goes by when it has none.
pub open spec fn pod_name_or_default(p: Pod) -> Seq<char> {
    match p.name {
        Some(n) => n@,
        None => "pod"@,
    }
}

/// The response to a decoded pod.
pub open spec fn pod_response(uid: Seq<char>, p: Pod, imgs: ImageRefs) -> ResponseView {
    match spec_parse_annotations(annotations_of(p), pod_name_or_default(p)) {
        None => allow(uid, None),
        Some(cfg) => {
            let ops = spec_build_patch(p, cfg, imgs);
            if ops.len() == 0 {
                allow(uid, None)
            } else {
                allow(uid, Some(base64_standard_encode(crate::json::utf8_bytes(patch_document_text(ops)))))
            }
        },
    }
}

/// The response to an AdmissionReview's request.
pub open spec fn spec_handle(req: Option<AdmissionRequest>, imgs: ImageRefs) -> ResponseView {
    match req {
        None => allow(Seq::empty(), None),
        Some(r) => match r.object {
            Err(e) => allow_with_status(r.uid@, "stubby: could not decode Pod object: "@ + e@),
            Ok(p) => pod_response(r.uid@, p, imgs),
        },
    }
}

/// The JSON Patch document for `ops`, as text.
pub fn patch_document(ops: Vec<PatchOp>) -> (s: String)
    ensures
        s@ == patch_document_text(ops_view(ops@)),
{
    let ghost v = ops@;
    let mut items: Vec<Json> = Vec::new();
    for op in it: ops.into_iter()
        invariant
            it.seq() == v,
            items_view(items@) == ops_view(v.take(it.index() as int)).map_values(
                |o: PatchOpView| op_json(o),
            ),
    {
        let ghost before = items@;
        let j = op_to_json(op);
        items.push(j);
        proof {
            let k = it.index() as int;
            assert(items@.drop_last() =~= before);
            assert(v.take(k + 1) =~= v.take(k).push(op));
            assert(ops_view(v.take(k + 1)) =~= ops_view(v.take(k)).push(op@));
            assert(items_view(items@) =~= ops_view(v.take(k + 1)).map_values(|o: PatchOpView| op_json(o)));
        }
    }
    assert(v.take(v.len() as int) =~= v);
    let doc = Json::Arr(items);
    to_json_string(&doc)
}

fn op_to_json(op: PatchOp) -> (j: Json)
    ensures
        j@ == op_json(op@),
{
    match op {
        PatchOp::Add { path, value } => obj_op("add", path, Some(value)),
        PatchOp::Remove { path } => obj_op("remove", path, None),
        PatchOp::Replace { path, value } => obj_op("replace", path, Some(value)),
    }
}

fn obj_op(kind: &str, path: String, value: Option<Json>) -> (j: Json)
    ensures
        j@ == match value {
            Some(v) => JsonView::Obj(
                seq![("op"@, JsonView::Str(kind@)), ("path"@, JsonView::Str(path@)), ("value"@, v@)],
            ),
            None => JsonView::Obj(seq![("op"@, JsonView::Str(kind@)), ("path"@, JsonView::Str(path@))]),
        },
{
    let kind_s = owned(kind);
    let op_key = owned("op");
    let path_key = owned("path");
    let ghost path_v = path@;
    let a = (op_key, Json::Str(kind_s));
    let b = (path_key, Json::Str(path));
    assert(a.0@ == "op"@ && json_view(a.1) == JsonView::Str(kind@));
    assert(b.0@ == "path"@ && json_view(b.1) == JsonView::Str(path_v));
    let mut m = vec![a, b];
    let ghost ab = m@;
    proof {
        let e = Seq::<(String, Json)>::empty();
        assert(ab.drop_last() =~= seq![a]);
        assert(seq![a].drop_last() =~= e);
        assert(crate::json::members_view(e) == Seq::<(Seq<char>, JsonView)>::empty());
        assert(crate::json::members_view(seq![a]) =~= seq![("op"@, JsonView::Str(kind@))]);
        assert(crate::json::members_view(ab) =~= seq![
            ("op"@, JsonView::Str(kind@)),
            ("path"@, JsonView::Str(path_v)),
        ]);
    }
    match value {
        Some(v) => {
            let value_key = owned("value");
            let ghost vv = v@;
            m.push((value_key, v));
            assert(m@.drop_last() =~= ab);
            assert(crate::json::members_view(m@) =~= seq![
                ("op"@, JsonView::Str(kind@)),
                ("path"@, JsonView::Str(path_v)),
                ("value"@, vv),
            ]);
        },
        None => {},
    }
    Json::Obj(m)
}

/// An allowed reply for `uid` (empty when absent) carrying `patch_b64`; the
/// patch type is `JSONPatch` exactly when a patch is carried.
pub fn reply(uid: Option<String>, allowed: bool, patch_b64: Option<String>) -> (r: AdmissionReview)
    ensures
        r.api_version@ == "admission.k8s.io/v1"@,
        r.kind@ == "AdmissionReview"@,
        r.request is None,
        r.response matches Some(x) && response_view(x) == (ResponseView {
            uid: match uid {
                Some(u) => u@,
                None => Seq::empty(),
            },
            allowed,
            patch: opt_view(patch_b64),
            patch_type: match patch_b64 {
                Some(_) => Some("JSONPatch"@),
                None => None,
            },
            status: None,
        }),
{
    let patch_type = match &patch_b64 {
        Some(_) => Some(owned("JSONPatch")),
        None => None,
    };
    AdmissionReview {
        api_version: owned("admission.k8s.io/v1"),
        kind: owned("AdmissionReview"),
        request: None,
        response: Some(
            AdmissionResponse {
                uid: match uid {
                    Some(u) => u,
                    None => String::new(),
                },
                allowed,
                patch: patch_b64,
                patch_type,
                status: None,
            },
        ),
    }
}

/// A reply for `uid` (empty when absent) with a status message and no patch.
pub fn reply_status(uid: Option<String>, allowed: bool, message: String) -> (r: AdmissionReview)
    ensures
        r.api_version@ == "admission.k8s.io/v1"@,
        r.kind@ == "AdmissionReview"@,
        r.request is None,
        r.response matches Some(x) && response_view(x) == (ResponseView {
            uid: match uid {
                Some(u) => u@,
                None => Seq::empty(),
            },
            allowed,
            patch: None,
            patch_type: None,
            status: Some(message@),
        }),
{
    AdmissionReview {
        api_version: owned("admission.k8s.io/v1"),
        kind: owned("AdmissionReview"),
        request: None,
        response: Some(
            AdmissionResponse {
                uid: match uid {
                    Some(u) => u,
                    None => String::new(),
                },
                allowed,
                patch: None,
                patch_type: None,
                status: Some(AdmissionStatus { message }),
            },
        ),
    }
}

/// Decides one AdmissionReview. Always allows; the response carries a
/// base64-encoded JSON Patch when the pod is annotated and something is
/// patched, and a `stubby:`-prefixed status when the pod could not be decoded.
pub fn handle(review: AdmissionReview, imgs: &ImageRefs) -> (r: AdmissionReview)
    ensures
        is_reply(r, spec_handle(review.request, *imgs)),
{
    let req = match review.request {
        Some(r) => r,
        None => return reply(None, true, None),
    };
    let uid = req.uid;
    let pod = match req.object {
        Ok(p) => p,
        Err(e) => {
            let mut msg = owned("stubby: could not decode Pod object: ");
            push_str(&mut msg, e.as_str());
            return reply_status(Some(uid), true, msg);
        },
    };
    let empty: StrMap<String> = StrMap::new();
    let annotations = match &pod.annotations {
        Some(a) => a,
        None => &empty,
    };
    let pod_name = match &pod.name {
        Some(n) => n.clone(),
        None => owned("pod"),
    };
    let cfg = match parse_annotations(annotations, pod_name.as_str()) {
        Decision::Inject(c) => c,
        Decision::Skip => return reply(Some(uid), true, None),
    };
    let ops = build_patch(&pod, &cfg, imgs);
    if ops.len() == 0 {
        return reply(Some(uid), true, None);
    }
    let text = patch_document(ops);
    let b64 = base64_encode(text.as_str().as_bytes());
    reply(Some(uid), true, Some(b64))
}


/// The decision label a counted reply gets: `"inject"` when it carries a
/// patch, `"error"` when it carries a status (the body or the pod in it could
/// not be decoded), else `"skip"`.
pub open spec fn decision_label(resp: ResponseView) -> Seq<char> {
    if resp.patch is Some {
        "inject"@
    } else if resp.status is Some {
        "error"@
    } else {
        "skip"@
    }
}

/// The admission counter labels for a reply: the decision of
/// [`decision_label`] and the resource type, always `"pod"`.
pub fn classify(r: &AdmissionReview) -> (labels: (&'static str, &'static str))
    ensures
        labels.0@ == (match r.response {
            Some(x) => decision_label(response_view(x)),
            None => "skip"@,
        }),
        labels.1@ == "pod"@,
{
    match &r.response {
        Some(x) => match &x.patch {
            Some(_) => ("inject", "pod"),
            None => match &x.status {
                Some(_) => ("error", "pod"),
                None => ("skip", "pod"),
            },
        },
        None => ("skip", "pod"),
    }
}

/// The reply to a body that is not an AdmissionReview: allowed, empty uid,
/// and a `stubby:` status naming the parse error.
pub fn malformed_body_reply(error: &str) -> (r: AdmissionReview)
    ensures
        is_reply(r, allow_with_status(Seq::empty(), "stubby: malformed AdmissionReview body: "@ + error@)),
{
    let mut msg = owned("stubby: malformed AdmissionReview body: ");
    push_str(&mut msg, error);
    reply_status(None, true, msg)
}

/// What `/mutate` answers for a request body that parsed to `parsed` (or
/// failed with the given error text), and the decision label to count:
/// `"error"` for a malformed body, else the label of [`classify`].
pub fn mutate_reply(parsed: Result<AdmissionReview, String>, imgs: &ImageRefs) -> (out: (AdmissionReview, &'static str))
    ensures
        match parsed {
            Err(e) => is_reply(
                out.0,
                allow_with_status(Seq::empty(), "stubby: malformed AdmissionReview body: "@ + e@),
            ) && out.1@ == "error"@,
            Ok(review) => is_reply(out.0, spec_handle(review.request, *imgs)) && out.1@ == decision_label(
                spec_handle(review.request, *imgs),
            ),
        },
{
    match parsed {
        Err(e) => (malformed_body_reply(e.as_str()), "error"),
        Ok(review) => {
            let out = handle(review, imgs);
            let (decision, _kind) = classify(&out);
            (out, decision)
        },
    }
}

/// The webhook never blocks a pod: every answer allows it, echoes the uid of
/// the request, and carries the `JSONPatch` type exactly when it carries a
/// patch.
pub proof fn law_always_allowed(req: Option<AdmissionRequest>, imgs: ImageRefs)
    ensures
        spec_handle(req, imgs).allowed,
        req matches Some(r) ==> spec_handle(req, imgs).uid == r.uid@,
        (spec_handle(req, imgs).patch is Some) <==> (spec_handle(req, imgs).patch_type == Some("JSONPatch"@)),
        (spec_handle(req, imgs).patch is Some) ==> spec_handle(req, imgs).status is None,
{
    reveal_strlit("JSONPatch");
}

/// A pod object that could not be decoded is answered with a `stubby: `
/// status and no patch, and counts as an error.
pub proof fn law_undecodable_pod_is_error(uid: String, error: String, imgs: ImageRefs)
    ensures
        ({
            let resp = spec_handle(Some(AdmissionRequest { uid, object: Err(error) }), imgs);
            &&& resp.patch is None
            &&& resp.status matches Some(m) && m.take(8) == "stubby: "@
            &&& decision_label(resp) == "error"@
        }),
{
    reveal_strlit("stubby: could not decode Pod object: ");
    reveal_strlit("stubby: ");
    let m = "stubby: could not decode Pod object: "@ + error@;
    assert(m.take(8) =~= "stubby: "@);
}

/// A pod that does not opt in (no `stubby.io/type`, `off`, or an unknown
/// value) is let through unchanged and counts as skipped.
pub proof fn law_unannotated_pod_untouched(uid: String, p: Pod, imgs: ImageRefs)
    requires
        spec_parse_annotations(annotations_of(p), pod_name_or_default(p)) is None,
    ensures
        spec_handle(Some(AdmissionRequest { uid, object: Ok(p) }), imgs) == allow(uid@, None),
        decision_label(allow(uid@, None)) == "skip"@,
{
}


/// A decoded pod gets a JSON Patch exactly when `stubby.io/type` is
/// `backend` or `frontend` and some container is neither a sidecar nor named
/// in `stubby.io/skip-containers`; its name plays no part, so a pod admitted
/// with only `generateName` is patched like a named one.
pub proof fn law_patched_iff_opted_in_with_a_target(uid: String, p: Pod, imgs: ImageRefs)
    ensures
        ({
            let ann = annotations_of(p);
            let resp = spec_handle(Some(AdmissionRequest { uid, object: Ok(p) }), imgs);
            (resp.patch is Some) <==> {
                &&& ann.contains_key("stubby.io/type"@)
                &&& (ann["stubby.io/type"@] == "backend"@ || ann["stubby.io/type"@] == "frontend"@)
                &&& exists|i: int|
                    0 <= i < pod_containers(p).len() && !is_sidecar_name(#[trigger] pod_containers(p)[i].name@)
                        && !(ann.contains_key("stubby.io/skip-containers"@) && skip_list(
                        ann["stubby.io/skip-containers"@],
                    ).contains(pod_containers(p)[i].name@))
            }
        }),
        spec_handle(Some(AdmissionRequest { uid, object: Ok(p) }), imgs).patch is Some ==> spec_handle(
            Some(AdmissionRequest { uid, object: Ok(p) }),
            imgs,
        ).patch_type == Some("JSONPatch"@),
{
    let ann = annotations_of(p);
    law_inject_iff_known_type(ann, pod_name_or_default(p));
    match spec_parse_annotations(ann, pod_name_or_default(p)) {
        None => {},
        Some(cfg) => {
            let cs = pod_containers(p);
            let listed = |n: Seq<char>|
                ann.contains_key("stubby.io/skip-containers"@) && skip_list(ann["stubby.io/skip-containers"@]).contains(n);
            assert forall|n: Seq<char>| #[trigger] skipped(n, cfg) == (is_sidecar_name(n) || listed(n)) by {}
            if exists|i: int| 0 <= i < cs.len() && !is_sidecar_name(#[trigger] cs[i].name@) && !listed(cs[i].name@) {
                let i = choose|i: int| 0 <= i < cs.len() && !is_sidecar_name(#[trigger] cs[i].name@) && !listed(cs[i].name@);
                assert(!skipped(cs[i].name@, cfg));
                let off = law_container_block(p, cfg, imgs, i);
                let co = container_ops(i as nat, cs[i], cfg, spec_chosen_image(cfg, imgs));
                assert(co.len() >= 4);
            } else {
                assert forall|i: int| 0 <= i < cs.len() implies skipped(#[trigger] cs[i].name@, cfg) by {
                    assert(!(0 <= i < cs.len() && !is_sidecar_name(cs[i].name@) && !listed(cs[i].name@)));
                }
                law_all_skipped_empty_patch(p, cfg, imgs);
            }
        },
    }
}


/// The patch an answer carries is base64 text that decodes to the UTF-8
/// JSON array of the pod's non-empty patch, each operation written as RFC
/// 6902 writes it: `op`, `path`, then `value` for `add` and `replace`.
pub proof fn law_patch_is_the_encoded_operations(uid: String, p: Pod, imgs: ImageRefs)
    ensures
        spec_handle(Some(AdmissionRequest { uid, object: Ok(p) }), imgs).patch matches Some(b) ==> (spec_parse_annotations(
            annotations_of(p),
            pod_name_or_default(p),
        ) matches Some(cfg) && spec_build_patch(p, cfg, imgs).len() > 0 && base64_standard_decode(b) == Some(
            crate::json::utf8_bytes(
                json_text(
                    JsonView::Arr(
                        spec_build_patch(p, cfg, imgs).map_values(
                            |o: PatchOpView|
                                match o {
                                    PatchOpView::Add(path, v) => JsonView::Obj(
                                        seq![
                                            ("op"@, JsonView::Str("add"@)),
                                            ("path"@, JsonView::Str(path)),
                                            ("value"@, v),
                                        ],
                                    ),
                                    PatchOpView::Remove(path) => JsonView::Obj(
                                        seq![("op"@, JsonView::Str("remove"@)), ("path"@, JsonView::Str(path))],
                                    ),
                                    PatchOpView::Replace(path, v) => JsonView::Obj(
                                        seq![
                                            ("op"@, JsonView::Str("replace"@)),
                                            ("path"@, JsonView::Str(path)),
                                            ("value"@, v),
                                        ],
                                    ),
                                },
                        ),
                    ),
                ),
            ),
        )),
{
    if let Some(cfg) = spec_parse_annotations(annotations_of(p), pod_name_or_default(p)) {
        let ops = spec_build_patch(p, cfg, imgs);
        law_base64_decode_reads_back(crate::json::utf8_bytes(patch_document_text(ops)));
        assert(ops.map_values(|o: PatchOpView| op_json(o)) =~= ops.map_values(
            |o: PatchOpView|
                match o {
                    PatchOpView::Add(path, v) => JsonView::Obj(
                        seq![("op"@, JsonView::Str("add"@)), ("path"@, JsonView::Str(path)), ("value"@, v)],
                    ),
                    PatchOpView::Remove(path) => JsonView::Obj(
                        seq![("op"@, JsonView::Str("remove"@)), ("path"@, JsonView::Str(path))],
                    ),
                    PatchOpView::Replace(path, v) => JsonView::Obj(
                        seq![("op"@, JsonView::Str("replace"@)), ("path"@, JsonView::Str(path)), ("value"@, v)],
                    ),
                },
        ));
    }
}

} // verus!
