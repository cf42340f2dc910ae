//! The runner's public URL as pairing publishes it: an HTTPS URL of host,
//! port and base path only, without the default port or trailing slashes.
use vstd::prelude::*;
use crate::challenge::{trim_chars, trimmed};
use crate::game::opt_string;
use crate::hex::{encode_hex, hex_of};
use crate::outside::{
    append_query_pairs, pair_views, parse_url_parts, reserialize_url, url_parse, url_reserialized,
    url_with_query,
};
use crate::protocol::PAIRING_PAYLOAD_VERSION;
use crate::text::{chars_of, decimal, str_eq, string_from_chars, u64_text};

verus! {

/// The parts of a parsed URL the runner reads.
pub struct UrlParts {
    pub scheme: String,
    pub host: Option<String>,
    pub username: String,
    pub password: Option<String>,
    pub query: Option<String>,
    pub fragment: Option<String>,
    pub port: Option<u16>,
    pub path: String,
}

pub open spec fn parts_tuple(p: UrlParts) -> (
    Seq<char>,
    Option<Seq<char>>,
    Seq<char>,
    Option<Seq<char>>,
    Option<Seq<char>>,
    Option<Seq<char>>,
    Option<u16>,
    Seq<char>,
) {
    (
        p.scheme@,
        opt_string(p.host),
        p.username@,
        opt_string(p.password),
        opt_string(p.query),
        opt_string(p.fragment),
        p.port,
        p.path@,
    )
}

pub open spec fn parts_view(p: Option<UrlParts>) -> Option<
    (
        Seq<char>,
        Option<Seq<char>>,
        Seq<char>,
        Option<Seq<char>>,
        Option<Seq<char>>,
        Option<Seq<char>>,
        Option<u16>,
        Seq<char>,
    ),
> {
    match p {
        Some(parts) => Some(parts_tuple(parts)),
        None => None,
    }
}

/// A text without its trailing slashes.
pub open spec fn without_trailing_slashes(s: Seq<char>) -> Seq<char>
    decreases s.len(),
{
    if s.len() > 0 && s.last() == '/' {
        without_trailing_slashes(s.drop_last())
    } else {
        s
    }
}

/// A URL that is HTTPS and has a host and nothing but host, port and path.
pub open spec fn acceptable_public_url(
    p: (
        Seq<char>,
        Option<Seq<char>>,
        Seq<char>,
        Option<Seq<char>>,
        Option<Seq<char>>,
        Option<Seq<char>>,
        Option<u16>,
        Seq<char>,
    ),
) -> bool {
    &&& p.0 == "https"@
    &&& p.1 is Some
    &&& p.2.len() == 0
    &&& p.3 is None
    &&& p.4 is None
    &&& p.5 is None
}

/// The port a public URL keeps: none for the HTTPS default port.
pub open spec fn kept_port(port: Option<u16>) -> Option<u16> {
    if port == Some(443u16) {
        None
    } else {
        port
    }
}

/// The base path a public URL keeps: its path without trailing slashes, or
/// the root.
pub open spec fn kept_path(path: Seq<char>) -> Seq<char> {
    if without_trailing_slashes(path).len() == 0 {
        "/"@
    } else {
        without_trailing_slashes(path)
    }
}

pub open spec fn invalid_url_message() -> Seq<char> {
    "QUEEN_RUNNER_PUBLIC_URL is invalid"@
}

pub open spec fn not_https_base_message() -> Seq<char> {
    "QUEEN_RUNNER_PUBLIC_URL must be HTTPS and contain only host, port, and base path"@
}

pub open spec fn normalize_failed_message() -> Seq<char> {
    "Could not normalize QUEEN_RUNNER_PUBLIC_URL"@
}

/// The canonical public URL of a configured value, in terms of what the
/// URL parser makes of it.
pub open spec fn public_url_spec(value: Seq<char>) -> Result<Seq<char>, Seq<char>> {
    let text = trimmed(value);
    match url_parse(text) {
        None => Err(invalid_url_message()),
        Some(p) => if !acceptable_public_url(p) {
            Err(not_https_base_message())
        } else {
            match url_reserialized(text, kept_port(p.6), kept_path(p.7)) {
                None => Err(normalize_failed_message()),
                Some(s) => Ok(without_trailing_slashes(s)),
            }
        },
    }
}

/// A text without its trailing slashes.
pub fn trim_trailing_slashes(s: &str) -> (t: String)
    ensures
        t@ == without_trailing_slashes(s@),
{
    let chars = chars_of(s);
    let mut n = chars.len();
    proof {
        assert(chars@.subrange(0, n as int) =~= s@);
    }
    while n > 0 && chars[n - 1] == '/'
        invariant
            chars@ == s@,
            n <= chars@.len(),
            without_trailing_slashes(chars@.subrange(0, n as int)) == without_trailing_slashes(s@),
        decreases n,
    {
        proof {
            assert(chars@.subrange(0, n as int).drop_last() =~= chars@.subrange(0, n - 1));
        }
        n = n - 1;
    }
    let ghost kept = chars@.subrange(0, n as int);
    assert(without_trailing_slashes(kept) == kept);
    let mut out: Vec<char> = Vec::new();
    let mut i: usize = 0;
    while i < n
        invariant
            chars@ == s@,
            n <= chars@.len(),
            i <= n,
            out@ == chars@.subrange(0, i as int),
            kept == chars@.subrange(0, n as int),
            without_trailing_slashes(kept) == without_trailing_slashes(s@),
        decreases n - i,
    {
        out.push(chars[i]);
        proof {
            assert(chars@.subrange(0, i + 1) =~= chars@.subrange(0, i as int).push(chars@[i as int]));
        }
        i = i + 1;
    }
    proof {
        assert(out@ =~= kept);
    }
    string_from_chars(&out)
}

/// What a parsed public URL becomes: refused unless it is HTTPS with a host
/// and nothing but host, port and base path; otherwise the port and path
/// it keeps.
pub fn public_url_plan(parts: &UrlParts) -> (plan: Result<(Option<u16>, String), String>)
    ensures
        !acceptable_public_url(parts_tuple(*parts)) ==> (plan matches Err(e) && e@
            == not_https_base_message()),
        acceptable_public_url(parts_tuple(*parts)) ==> (plan matches Ok((port, path)) && port
            == kept_port(parts.port) && path@ == kept_path(parts.path@)),
{
    let acceptable = str_eq(parts.scheme.as_str(), "https") && parts.host.is_some()
        && parts.username.unicode_len() == 0 && parts.password.is_none() && parts.query.is_none()
        && parts.fragment.is_none();
    if !acceptable {
        return Err(
            String::from_str(
                "QUEEN_RUNNER_PUBLIC_URL must be HTTPS and contain only host, port, and base path",
            ),
        );
    }
    let port = if parts.port == Some(443u16) {
        None
    } else {
        parts.port
    };
    let trimmed_path = trim_trailing_slashes(parts.path.as_str());
    let path = if trimmed_path.unicode_len() == 0 {
        String::from_str("/")
    } else {
        trimmed_path
    };
    Ok((port, path))
}

/// The canonical HTTPS URL pairing publishes for the runner.
pub fn canonical_public_url(value: &str) -> (result: Result<String, String>)
    ensures
        match result {
            Ok(url) => public_url_spec(value@) == Ok::<Seq<char>, Seq<char>>(url@),
            Err(e) => public_url_spec(value@) == Err::<Seq<char>, Seq<char>>(e@),
        },
{
    let text = string_from_chars(&trim_chars(value));
    let parts = match parse_url_parts(text.as_str()) {
        Some(p) => p,
        None => return Err(String::from_str("QUEEN_RUNNER_PUBLIC_URL is invalid")),
    };
    let (port, path) = public_url_plan(&parts)?;
    match reserialize_url(text.as_str(), port, path.as_str()) {
        Some(serialized) => Ok(trim_trailing_slashes(serialized.as_str())),
        None => Err(String::from_str("Could not normalize QUEEN_RUNNER_PUBLIC_URL")),
    }
}

/// The query of a pairing payload: its version, the runner's public URL,
/// the certificate fingerprint and the one-time enrollment code.
pub open spec fn pairing_query(url: Seq<char>, fingerprint: Seq<u8>, code: Seq<char>) -> Seq<
    (Seq<char>, Seq<char>),
> {
    seq![
        ("v"@, decimal(PAIRING_PAYLOAD_VERSION as nat)),
        ("url"@, url),
        ("fp"@, hex_of(fingerprint)),
        ("enroll"@, code),
    ]
}

/// The one-time pairing payload a desktop scans: a `queenui://pair` URL
/// carrying the pairing query.
pub fn pairing_payload(public_url: &str, certificate_fingerprint: &[u8; 32], code: &str) -> (payload:
    Result<String, String>)
    ensures
        match payload {
            Ok(p) => url_with_query("queenui://pair"@, pairing_query(public_url@, certificate_fingerprint@, code@))
                == Some(p@),
            Err(e) => url_with_query(
                "queenui://pair"@,
                pairing_query(public_url@, certificate_fingerprint@, code@),
            ) is None && e@ == "Could not construct the pairing payload"@,
        },
{
    let mut pairs: Vec<(String, String)> = Vec::new();
    pairs.push((String::from_str("v"), u64_text(PAIRING_PAYLOAD_VERSION as u64)));
    pairs.push((String::from_str("url"), String::from_str(public_url)));
    pairs.push((String::from_str("fp"), encode_hex(certificate_fingerprint)));
    pairs.push((String::from_str("enroll"), String::from_str(code)));
    proof {
        assert(pair_views(pairs@) =~= pairing_query(public_url@, certificate_fingerprint@, code@));
    }
    match append_query_pairs("queenui://pair", &pairs) {
        Some(p) => Ok(p),
        None => Err(String::from_str("Could not construct the pairing payload")),
    }
}

} // verus!
