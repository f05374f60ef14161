//! Registry credentials from `kubernetes.io/dockerconfigjson` payloads.
//!
//! The caller fetches the secret bytes; here they are only read.
use vstd::prelude::*;
use vstd::utf8::{valid_utf8, decode_utf8};
use crate::codec::{base64_decode, base64_standard_decode, base64_standard_encode, lemma_base64_decode_of_encoding, law_base64_decode_reads_back};
use crate::jsonparse::{dockerconfig_auths, dockerconfig_entries, AuthFields, entries_view, fields_view};
use crate::text::{to_chars, from_chars, str_eq, split_once, split_once_chars, lemma_first_index_of};

verus! {

/// The names Docker Hub goes by in a dockerconfig.
pub open spec fn docker_alias(h: Seq<char>) -> bool {
    ||| h == "docker.io"@
    ||| h == "index.docker.io"@
    ||| h == "https://index.docker.io/v1/"@
    ||| h == "registry-1.docker.io"@
}

/// A registry host matches a dockerconfig key when they are equal, or both
/// name Docker Hub.
pub open spec fn spec_host_matches(host: Seq<char>, entry_host: Seq<char>) -> bool {
    host == entry_host || (docker_alias(host) && docker_alias(entry_host))
}

/// The credentials an entry gives: from `auth` (base64 of `user:pass`) when
/// present, else from `username` and `password`.
pub open spec fn entry_credentials(f: (Option<Seq<char>>, Option<Seq<char>>, Option<Seq<char>>)) -> Option<
    (Seq<char>, Seq<char>),
> {
    match f.0 {
        Some(auth) => match base64_standard_decode(auth) {
            None => None,
            Some(bytes) => if valid_utf8(bytes) {
                split_once(decode_utf8(bytes), ':')
            } else {
                None
            },
        },
        None => match (f.1, f.2) {
            (Some(u), Some(p)) => Some((u, p)),
            _ => None,
        },
    }
}

/// The first entry of `es` whose key matches `host` and that yields credentials.
pub open spec fn credentials_in_entries(
    host: Seq<char>,
    es: Seq<(Seq<char>, (Option<Seq<char>>, Option<Seq<char>>, Option<Seq<char>>))>,
) -> Option<(Seq<char>, Seq<char>)>
    decreases es.len(),
{
    if es.len() == 0 {
        None
    } else if spec_host_matches(host, es[0].0) && entry_credentials(es[0].1) is Some {
        entry_credentials(es[0].1)
    } else {
        credentials_in_entries(host, es.drop_first())
    }
}

/// The first credentials for `host` across the documents, skipping malformed ones.
pub open spec fn credentials_in_configs(host: Seq<char>, cs: Seq<Seq<u8>>) -> Option<(Seq<char>, Seq<char>)>
    decreases cs.len(),
{
    if cs.len() == 0 {
        None
    } else {
        match dockerconfig_entries(cs[0]) {
            Some(es) => match credentials_in_entries(host, es) {
                Some(c) => Some(c),
                None => credentials_in_configs(host, cs.drop_first()),
            },
            None => credentials_in_configs(host, cs.drop_first()),
        }
    }
}

/// `String::from_utf8`, with the error mapped to `None`.
#[verifier::external_body]
fn utf8_string(bytes: Vec<u8>) -> (r: Option<String>)
    ensures
        r is Some == valid_utf8(bytes@),
        r matches Some(s) ==> s@ == decode_utf8(bytes@),
{
    String::from_utf8(bytes).ok()
}

fn is_docker_alias(h: &str) -> (b: bool)
    ensures
        b == docker_alias(h@),
{
    str_eq(h, "docker.io") || str_eq(h, "index.docker.io") || str_eq(h, "https://index.docker.io/v1/")
        || str_eq(h, "registry-1.docker.io")
}

/// Whether registry `host` matches dockerconfig key `entry_host`.
pub fn host_matches(host: &str, entry_host: &str) -> (b: bool)
    ensures
        b == spec_host_matches(host@, entry_host@),
{
    if str_eq(host, entry_host) {
        return true;
    }
    is_docker_alias(host) && is_docker_alias(entry_host)
}

/// Decodes one entry: `auth` (base64 of `user:pass`) or `username`/`password`.
fn decode_entry(entry: &AuthFields) -> (r: Option<(String, String)>)
    ensures
        match entry_credentials(fields_view(*entry)) {
            Some((u, p)) => r matches Some(c) && c.0@ == u && c.1@ == p,
            None => r is None,
        },
{
    if let Some(auth) = &entry.0 {
        let bytes = match base64_decode(auth.as_str()) {
            Some(b) => b,
            None => return None,
        };
        proof {
            lemma_base64_decode_of_encoding(bytes@, auth@);
        }
        let s = match utf8_string(bytes) {
            Some(s) => s,
            None => return None,
        };
        let chars = to_chars(s.as_str());
        return match split_once_chars(chars.as_slice(), ':') {
            Some((u, p)) => Some((from_chars(u.as_slice()), from_chars(p.as_slice()))),
            None => None,
        };
    }
    match (&entry.1, &entry.2) {
        (Some(u), Some(p)) => Some((u.clone(), p.clone())),
        _ => None,
    }
}

/// Finds credentials for `host` across the given dockerconfigjson documents:
/// the first match, or `None` when none applies or all are malformed.
pub fn credentials_for(host: &str, dockerconfigs: &[Vec<u8>]) -> (r: Option<(String, String)>)
    ensures
        match credentials_in_configs(host@, dockerconfigs@.map_values(|b: Vec<u8>| b@)) {
            Some((u, p)) => r matches Some(c) && c.0@ == u && c.1@ == p,
            None => r is None,
        },
{
    let ghost cs = dockerconfigs@.map_values(|b: Vec<u8>| b@);
    let mut i: usize = 0;
    assert(cs.skip(0) =~= cs);
    while i < dockerconfigs.len()
        invariant
            i <= dockerconfigs@.len(),
            cs == dockerconfigs@.map_values(|b: Vec<u8>| b@),
            credentials_in_configs(host@, cs) == credentials_in_configs(host@, cs.skip(i as int)),
        decreases dockerconfigs@.len() - i,
    {
        assert(cs.skip(i as int).drop_first() =~= cs.skip(i + 1));
        assert(cs.skip(i as int)[0] == dockerconfigs@[i as int]@);
        if let Some(entries) = dockerconfig_auths(dockerconfigs[i].as_slice()) {
            let ghost es = entries_view(entries@);
            let mut k: usize = 0;
            assert(es.skip(0) =~= es);
            while k < entries.len()
                invariant
                    k <= entries@.len(),
                    es == entries_view(entries@),
                    i < dockerconfigs@.len(),
                    cs == dockerconfigs@.map_values(|b: Vec<u8>| b@),
                    dockerconfig_entries(cs.skip(i as int)[0]) == Some(es),
                    cs.skip(i as int).len() > 0,
                    credentials_in_configs(host@, cs) == credentials_in_configs(host@, cs.skip(i as int)),
                    credentials_in_entries(host@, es) == credentials_in_entries(host@, es.skip(k as int)),
                decreases entries@.len() - k,
            {
                assert(es.skip(k as int).drop_first() =~= es.skip(k + 1));
                assert(es.skip(k as int)[0] == (entries@[k as int].0@, fields_view(entries@[k as int].1)));
                let (entry_host, fields) = &entries[k];
                if host_matches(host, entry_host.as_str()) {
                    if let Some(c) = decode_entry(fields) {
                        assert(credentials_in_entries(host@, es.skip(k as int)) == entry_credentials(
                            es.skip(k as int)[0].1,
                        ));
                        return Some(c);
                    }
                }
                k += 1;
            }
            assert(es.skip(k as int) =~= Seq::empty());
        }
        i += 1;
    }
    assert(cs.skip(i as int) =~= Seq::empty());
    None
}

/// Host matching is symmetric, and credentials stored under any Docker Hub
/// alias serve every other alias.
pub proof fn law_host_matching(a: Seq<char>, b: Seq<char>)
    ensures
        spec_host_matches(a, b) == spec_host_matches(b, a),
        docker_alias(a) && docker_alias(b) ==> spec_host_matches(a, b),
        spec_host_matches(a, a),
{
}


/// Entry `e` of `es` is for `host` and yields credentials.
pub open spec fn entry_serves(
    host: Seq<char>,
    es: Seq<(Seq<char>, (Option<Seq<char>>, Option<Seq<char>>, Option<Seq<char>>))>,
    e: int,
) -> bool {
    0 <= e < es.len() && spec_host_matches(host, es[e].0) && entry_credentials(es[e].1) is Some
}

/// Entry `e` of document `d` of `cs` is for `host` and yields credentials.
pub open spec fn config_serves(host: Seq<char>, cs: Seq<Seq<u8>>, d: int, e: int) -> bool {
    &&& 0 <= d < cs.len()
    &&& dockerconfig_entries(cs[d]) matches Some(es) && entry_serves(host, es, e)
}

#[verifier::spinoff_prover]
#[verifier::rlimit(30)]
proof fn lemma_first_serving_entry(
    host: Seq<char>,
    es: Seq<(Seq<char>, (Option<Seq<char>>, Option<Seq<char>>, Option<Seq<char>>))>,
)
    ensures
        (credentials_in_entries(host, es) is Some) <==> exists|e: int| #[trigger] entry_serves(host, es, e),
        forall|e: int|
            #[trigger] entry_serves(host, es, e) && (forall|e2: int| 0 <= e2 < e ==> !#[trigger] entry_serves(host, es, e2))
                ==> credentials_in_entries(host, es) == entry_credentials(es[e].1),
    decreases es.len(),
{
    if es.len() > 0 {
        let rest = es.drop_first();
        lemma_first_serving_entry(host, rest);
        assert forall|e: int| 1 <= e < es.len() implies #[trigger] entry_serves(host, es, e) == entry_serves(
            host,
            rest,
            e - 1,
        ) by {
            assert(rest[e - 1] == es[e]);
        }
        if entry_serves(host, es, 0) {
        } else {
            if exists|e: int| #[trigger] entry_serves(host, es, e) {
                let e = choose|e: int| #[trigger] entry_serves(host, es, e);
                assert(entry_serves(host, rest, e - 1));
            }
            if exists|e: int| #[trigger] entry_serves(host, rest, e) {
                let e = choose|e: int| #[trigger] entry_serves(host, rest, e);
                assert(entry_serves(host, es, e + 1));
            }
            assert forall|e: int|
                #[trigger] entry_serves(host, es, e) && (forall|e2: int| 0 <= e2 < e ==> !#[trigger] entry_serves(host, es, e2))
                    implies credentials_in_entries(host, es) == entry_credentials(es[e].1) by {
                assert forall|e2: int| 0 <= e2 < e - 1 implies !#[trigger] entry_serves(host, rest, e2) by {
                    assert(!entry_serves(host, es, e2 + 1));
                }
                assert(entry_serves(host, rest, e - 1));
                assert(rest[e - 1] == es[e]);
            }
        }
    }
}

/// Document `d` and all that follow are those of `cs.drop_first()`, one later.
proof fn lemma_serves_shift(host: Seq<char>, cs: Seq<Seq<u8>>)
    requires
        cs.len() > 0,
    ensures
        forall|d: int, e: int| 1 <= d ==> #[trigger] config_serves(host, cs, d, e) == config_serves(
            host,
            cs.drop_first(),
            d - 1,
            e,
        ),
        forall|e: int| #[trigger] config_serves(host, cs, 0, e) == (dockerconfig_entries(cs[0]) matches Some(es)
            && entry_serves(host, es, e)),
{
    let rest = cs.drop_first();
    assert forall|d: int, e: int| 1 <= d implies #[trigger] config_serves(host, cs, d, e) == config_serves(
        host,
        rest,
        d - 1,
        e,
    ) by {
        if d < cs.len() {
            assert(rest[d - 1] == cs[d]);
        }
    }
}

#[verifier::spinoff_prover]
proof fn lemma_some_iff_serving(host: Seq<char>, cs: Seq<Seq<u8>>)
    ensures
        (credentials_in_configs(host, cs) is Some) <==> exists|d: int, e: int| #[trigger] config_serves(host, cs, d, e),
    decreases cs.len(),
{
    if cs.len() > 0 {
        let rest = cs.drop_first();
        lemma_some_iff_serving(host, rest);
        lemma_serves_shift(host, cs);
        if let Some(es) = dockerconfig_entries(cs[0]) {
            lemma_first_serving_entry(host, es);
            if credentials_in_entries(host, es) is Some {
                let e = choose|e: int| #[trigger] entry_serves(host, es, e);
                assert(config_serves(host, cs, 0, e));
            }
        }
        if exists|d: int, e: int| #[trigger] config_serves(host, cs, d, e) {
            let (d, e) = choose|d: int, e: int| #[trigger] config_serves(host, cs, d, e);
            if d > 0 {
                assert(config_serves(host, rest, d - 1, e));
            } else {
                assert(entry_serves(host, dockerconfig_entries(cs[0])->0, e));
            }
        }
        if exists|d: int, e: int| #[trigger] config_serves(host, rest, d, e) {
            let (d, e) = choose|d: int, e: int| #[trigger] config_serves(host, rest, d, e);
            assert(config_serves(host, cs, d + 1, e));
        }
    }
}

#[verifier::spinoff_prover]
proof fn lemma_first_serving_config(host: Seq<char>, cs: Seq<Seq<u8>>, d: int, e: int)
    requires
        config_serves(host, cs, d, e),
        forall|d2: int, e2: int| (d2 < d || (d2 == d && e2 < e)) ==> !#[trigger] config_serves(host, cs, d2, e2),
    ensures
        credentials_in_configs(host, cs) == entry_credentials(dockerconfig_entries(cs[d])->0[e].1),
    decreases cs.len(),
{
    let rest = cs.drop_first();
    lemma_serves_shift(host, cs);
    if d == 0 {
        let es = dockerconfig_entries(cs[0])->0;
        lemma_first_serving_entry(host, es);
        assert forall|e2: int| 0 <= e2 < e implies !#[trigger] entry_serves(host, es, e2) by {
            assert(!config_serves(host, cs, 0, e2));
        }
        assert(entry_serves(host, es, e));
    } else {
        assert forall|d2: int, e2: int| (d2 < d - 1 || (d2 == d - 1 && e2 < e)) implies !#[trigger] config_serves(
            host,
            rest,
            d2,
            e2,
        ) by {
            if 0 <= d2 {
                assert(!config_serves(host, cs, d2 + 1, e2));
            }
        }
        assert(config_serves(host, rest, d - 1, e));
        assert(rest[d - 1] == cs[d]);
        lemma_first_serving_config(host, rest, d - 1, e);
        if let Some(es) = dockerconfig_entries(cs[0]) {
            lemma_first_serving_entry(host, es);
            assert forall|e2: int| !#[trigger] entry_serves(host, es, e2) by {
                assert(!config_serves(host, cs, 0, e2));
            }
        }
    }
}

/// The credentials for `host` come from the first entry, in the order of the
/// documents and then of their entries, that is for `host` (or a Docker Hub
/// alias of it) and yields credentials: there are some exactly when such an
/// entry exists, and an entry for another host, a malformed document or an
/// entry without usable credentials never hides a later one that serves.
pub proof fn law_first_serving_entry_wins(host: Seq<char>, cs: Seq<Seq<u8>>)
    ensures
        (credentials_in_configs(host, cs) is Some) <==> exists|d: int, e: int| #[trigger] config_serves(host, cs, d, e),
        forall|d: int, e: int|
            #[trigger] config_serves(host, cs, d, e) && (forall|d2: int, e2: int|
                (d2 < d || (d2 == d && e2 < e)) ==> !#[trigger] config_serves(host, cs, d2, e2))
                ==> credentials_in_configs(host, cs) == entry_credentials(dockerconfig_entries(cs[d])->0[e].1),
{
    lemma_some_iff_serving(host, cs);
    assert forall|d: int, e: int|
        #[trigger] config_serves(host, cs, d, e) && (forall|d2: int, e2: int|
            (d2 < d || (d2 == d && e2 < e)) ==> !#[trigger] config_serves(host, cs, d2, e2))
            implies credentials_in_configs(host, cs) == entry_credentials(dockerconfig_entries(cs[d])->0[e].1) by {
        lemma_first_serving_config(host, cs, d, e);
    }
}


/// What an entry yields: an `auth` field that is the base64 of the UTF-8 of
/// `user:password`, where the user has no colon, gives exactly that user and
/// password (the password may hold colons); without `auth`, a `username`
/// and a `password` are used as they are.
proof fn lemma_split_at_first_colon(user: Seq<char>, password: Seq<char>)
    requires
        !user.contains(':'),
    ensures
        split_once(user + seq![':'] + password, ':') == Some((user, password)),
{
    let text = user + seq![':'] + password;
    assert forall|k: int| 0 <= k < user.len() implies text[k] != ':' by {
        assert(text[k] == user[k]);
    }
    lemma_first_index_of(text, ':', user.len() as int);
    assert(text.take(user.len() as int) =~= user);
    assert(text.skip(user.len() as int + 1) =~= password);
}

#[verifier::spinoff_prover]
pub proof fn law_entry_credentials(
    user: Seq<char>,
    password: Seq<char>,
    username_field: Option<Seq<char>>,
    password_field: Option<Seq<char>>,
)
    requires
        !user.contains(':'),
    ensures
        entry_credentials(
            (
                Some(base64_standard_encode(vstd::utf8::encode_utf8(user + seq![':'] + password))),
                username_field,
                password_field,
            ),
        ) == Some((user, password)),
        entry_credentials((None, Some(user), Some(password))) == Some((user, password)),
{
    let text = user + seq![':'] + password;
    let bytes = vstd::utf8::encode_utf8(text);
    assert(base64_standard_decode(base64_standard_encode(bytes)) == Some(bytes)) by {
        law_base64_decode_reads_back(bytes);
    }
    assert(valid_utf8(bytes) && decode_utf8(bytes) == text) by {
        vstd::utf8::encode_utf8_valid_utf8(text);
        vstd::utf8::encode_utf8_decode_utf8(text);
    }
    assert(split_once(text, ':') == Some((user, password))) by {
        lemma_split_at_first_colon(user, password);
    }
}

} // verus!
