//! The body of the `GET /metrics` endpoints of the webhook and the controller.
use vstd::prelude::*;
use metrics_exporter_prometheus::PrometheusHandle;

verus! {

/// The handle of an installed Prometheus recorder, carried through opaquely.
#[verifier::external_type_specification]
#[verifier::external_body]
pub struct ExPrometheusHandle(PrometheusHandle);

/// Calls `PrometheusHandle::render`: a snapshot of everything the recorder
/// has seen, in the Prometheus text exposition format. The text depends on
/// what the process has recorded up to the call, so no clause is stated of it.
#[verifier::external_body]
fn snapshot(handle: &PrometheusHandle) -> String {
    handle.render()
}

/// The scrape body: the recorder's snapshot when a recorder was installed,
/// and the empty string otherwise.
pub fn render(handle: Option<&PrometheusHandle>) -> (body: String)
    ensures
        handle is None ==> body@ == Seq::<char>::empty(),
{
    match handle {
        Some(h) => snapshot(h),
        None => String::new(),
    }
}

} // verus!
