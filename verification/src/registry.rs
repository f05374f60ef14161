//! What the registry availability check asks: the image's reference in the
//! registry client's form, and the credentials it presents.
use vstd::prelude::*;
use oci_client::Reference;
use crate::auth::{credentials_for, credentials_in_configs};
use crate::imageref::{ImageRef, spec_parse_image};

verus! {

/// An image reference as the OCI registry client reads it, carried through
/// opaquely.
#[verifier::external_type_specification]
#[verifier::external_body]
pub struct ExReference(Reference);

/// What `oci_client::Reference`'s `FromStr` gives for `image`: the parsed
/// reference (registry, repository, tag or digest, under the distribution
/// reference grammar with the digest length checked), or `None` when
/// `image` does not parse.
pub uninterp spec fn oci_reference_parse(image: Seq<char>) -> Option<Reference>;

/// `image.parse::<oci_client::Reference>()`, with the error dropped. The
/// result is named; the source rejects the empty string first.
#[verifier::external_body]
fn parse_reference(image: &str) -> (r: Option<Reference>)
    ensures
        r == oci_reference_parse(image@),
        image@.len() == 0 ==> r is None,
{
    image.parse().ok()
}

/// Basic-auth credentials for the registry that hosts `image`, taken from the
/// pod's `.dockerconfigjson` payloads; `None` means the check goes anonymous.
pub fn registry_credentials(image: &str, dockerconfigs: &[Vec<u8>]) -> (r: Option<(String, String)>)
    ensures
        match credentials_in_configs(spec_parse_image(image@).0, dockerconfigs@.map_values(|b: Vec<u8>| b@)) {
            Some((u, p)) => r matches Some(c) && c.0@ == u && c.1@ == p,
            None => r is None,
        },
{
    let parsed = ImageRef::parse(image);
    credentials_for(parsed.registry.as_str(), dockerconfigs)
}

/// The manifest request for `image`: its parsed reference and the
/// credentials to present. `None` when the reference does not parse; the
/// image then counts as not available.
pub fn manifest_query(image: &str, dockerconfigs: &[Vec<u8>]) -> (q: Option<(Reference, Option<(String, String)>)>)
    ensures
        q is Some == oci_reference_parse(image@) is Some,
        q matches Some(x) ==> Some(x.0) == oci_reference_parse(image@),
        q matches Some(x) ==> match credentials_in_configs(
            spec_parse_image(image@).0,
            dockerconfigs@.map_values(|b: Vec<u8>| b@),
        ) {
            Some((u, p)) => x.1 matches Some(c) && c.0@ == u && c.1@ == p,
            None => x.1 is None,
        },
{
    let creds = registry_credentials(image, dockerconfigs);
    match parse_reference(image) {
        Some(r) => Some((r, creds)),
        None => None,
    }
}

} // verus!
