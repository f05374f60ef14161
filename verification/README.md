# stubby

A Kubernetes mutating admission webhook that swaps pod container images for
ready-to-go dummy backends and frontends, an experimental controller that
rescues pods stuck pulling their image, and the two dummy servers.

`src/` is the verified library, proved with Verus:

- `annotation`, `patch`, `admission`: the webhook's decision. `stubby.io/*`
  annotations become a configuration; the configuration and the pod become an
  RFC 6902 JSON Patch; an AdmissionReview becomes its always-allowed answer.
  `patch_laws` proves what every patch keeps (skipped containers untouched,
  opt-outs honoured, resources only where absent, `replace` only for images).
- `decision`, `reconcile`, `rescue`, `auth`, `imageref`, `registry`: the
  controller's decisions (`reconcile_step` takes a pod and the registry's
  answers to a patch to send and what to count), the merge patches it
  applies, the `original-image` record, and the registry query.
- `frontend`, `backend`: the dummies' pages and documents.
- `pod`, `strmap`, `json`, `text`: the plain-value model of a pod, a
  sorted string map, JSON text, and string helpers.
- `codec`: standard base64 as a specification, proved one to one.
- `jsonparse`, `observability`, and the wrappers in `codec`, `registry`,
  `auth`, `controller_config` and `reconcile`: the calls into `base64`,
  `serde_json`, `metrics-exporter-prometheus`, `oci-client`, `chrono` and std,
  each behind a contract.

`app/` is the I/O around it: the HTTP servers (axum, TLS with certificate
reload), the Kubernetes controller loop (kube), the registry request
(oci-client), metrics recording, and environment reading. Run it as
`stubby webhook`, `stubby controller`, `stubby dummy-backend` or
`stubby dummy-frontend`.
