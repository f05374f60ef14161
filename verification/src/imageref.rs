//! A minimal OCI image-reference parser: registry, repository, tag or digest.
//!
//! Docker's defaulting rules, closely enough for availability checks: a bare
//! name is on `docker.io`, a single-segment `docker.io` name gets the
//! `library/` prefix, and a missing tag is `latest`.
use vstd::prelude::*;
use crate::text::{
    to_chars, from_chars, owned, push_str, chars_eq, contains_char, rfind_char, slice_chars,
    split_once, split_once_chars, last_index_of, lemma_last_index_of,
};

verus! {

/// A parsed image reference.
#[derive(Debug, Clone, PartialEq, Eq)]
pub struct ImageRef {
    pub registry: String,
    pub repository: String,
    /// Tag (`v1`) or digest (`sha256:...`).
    pub reference: String,
}

/// A leading path segment names a registry when it looks like a host: it
/// holds a dot or a colon (a port), or is exactly `localhost`.
pub open spec fn is_registry_segment(seg: Seq<char>) -> bool {
    seg == "localhost"@ || seg.contains('.') || seg.contains(':')
}

/// Registry and the rest of the reference.
pub open spec fn split_registry(image: Seq<char>) -> (Seq<char>, Seq<char>) {
    match split_once(image, '/') {
        Some((first, rest)) => if is_registry_segment(first) {
            (first, rest)
        } else {
            ("docker.io"@, image)
        },
        None => ("docker.io"@, image),
    }
}

/// Name and reference: a digest after `@`, else a tag after the last `:`,
/// else `latest`.
pub open spec fn split_reference(rest: Seq<char>) -> (Seq<char>, Seq<char>) {
    match split_once(rest, '@') {
        Some((n, d)) => (n, d),
        None => match last_index_of(rest, ':') {
            Some(i) => (rest.take(i), rest.skip(i + 1)),
            None => (rest, "latest"@),
        },
    }
}

/// Registry, repository and reference of `image`.
pub open spec fn spec_parse_image(image: Seq<char>) -> (Seq<char>, Seq<char>, Seq<char>) {
    let (registry, rest) = split_registry(image);
    let (name, reference) = split_reference(rest);
    let repository = if registry == "docker.io"@ && !name.contains('/') {
        "library/"@ + name
    } else {
        name
    };
    (registry, repository, reference)
}

/// Whether a leading segment names a registry.
pub fn is_registry(segment: &[char]) -> (b: bool)
    ensures
        b == is_registry_segment(segment@),
{
    let localhost = to_chars("localhost");
    chars_eq(segment, localhost.as_slice()) || contains_char(segment, '.') || contains_char(
        segment,
        ':',
    )
}

impl ImageRef {
    /// Parses an image reference, applying Docker's defaults.
    pub fn parse(image: &str) -> (r: ImageRef)
        ensures
            (r.registry@, r.repository@, r.reference@) == spec_parse_image(image@),
    {
        let chars = to_chars(image);
        let (registry, rest): (Vec<char>, Vec<char>) = match split_once_chars(chars.as_slice(), '/') {
            Some((first, rest)) => {
                if is_registry(first.as_slice()) {
                    (first, rest)
                } else {
                    (to_chars("docker.io"), chars.clone())
                }
            },
            None => (to_chars("docker.io"), chars.clone()),
        };
        assert((registry@, rest@) == split_registry(image@));
        let (name, reference): (Vec<char>, Vec<char>) = match split_once_chars(rest.as_slice(), '@') {
            Some((n, d)) => (n, d),
            None => match rfind_char(rest.as_slice(), ':') {
                Some(idx) => {
                    proof {
                        lemma_last_index_of(rest@, ':', idx as int);
                    }
                    let n = slice_chars(rest.as_slice(), 0, idx);
                    let d = slice_chars(rest.as_slice(), idx + 1, rest.len());
                    assert(n@ =~= rest@.take(idx as int));
                    assert(d@ =~= rest@.skip(idx + 1));
                    (n, d)
                },
                None => (rest.clone(), to_chars("latest")),
            },
        };
        assert((name@, reference@) == split_reference(rest@));
        let docker = to_chars("docker.io");
        let repository = if chars_eq(registry.as_slice(), docker.as_slice()) && !contains_char(
            name.as_slice(),
            '/',
        ) {
            let mut s = owned("library/");
            let n = from_chars(name.as_slice());
            push_str(&mut s, n.as_str());
            s
        } else {
            from_chars(name.as_slice())
        };
        ImageRef {
            registry: from_chars(registry.as_slice()),
            repository,
            reference: from_chars(reference.as_slice()),
        }
    }
}

} // verus!
