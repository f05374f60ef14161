//! Container-name prefixes that stubby never touches.
use vstd::prelude::*;
use crate::text::{to_chars, starts_with, starts_with_chars};

verus! {

/// Container-name prefixes that are never mutated: service-mesh and secret
/// injector sidecars that ship their own image.
pub const ALWAYS_SKIP_PREFIXES: [&'static str; 4] = ["istio-", "linkerd-", "vault-", "cilium-"];

/// Whether `name` begins with one of [`ALWAYS_SKIP_PREFIXES`].
pub open spec fn is_sidecar_name(name: Seq<char>) -> bool {
    exists|i: int| 0 <= i < ALWAYS_SKIP_PREFIXES@.len() && starts_with(name, #[trigger] ALWAYS_SKIP_PREFIXES@[i]@)
}

pub fn is_sidecar(name: &str) -> (b: bool)
    ensures
        b == is_sidecar_name(name@),
{
    let n = to_chars(name);
    let mut i: usize = 0;
    while i < ALWAYS_SKIP_PREFIXES.len()
        invariant
            i <= ALWAYS_SKIP_PREFIXES@.len(),
            n@ == name@,
            forall|k: int| 0 <= k < i ==> !starts_with(name@, #[trigger] ALWAYS_SKIP_PREFIXES@[k]@),
        decreases ALWAYS_SKIP_PREFIXES@.len() - i,
    {
        let p = to_chars(ALWAYS_SKIP_PREFIXES[i]);
        if starts_with_chars(n.as_slice(), p.as_slice()) {
            return true;
        }
        i += 1;
    }
    false
}

} // verus!
