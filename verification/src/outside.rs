//! The outside functions the verified library calls, each behind one trusted
//! wrapper whose contract states what the crate's source and documentation
//! promise.
use vstd::prelude::*;
use sha2::Digest;
use subtle::ConstantTimeEq;
use base64::Engine;
use crate::public_url::UrlParts;

verus! {

/// The SHA-256 digest of a byte string, as `sha2::Sha256` computes it.
pub uninterp spec fn sha256(bytes: Seq<u8>) -> Seq<u8>;

/// The unpadded URL-safe base64 text of a byte string, as
/// `base64::engine::general_purpose::URL_SAFE_NO_PAD` encodes it.
pub uninterp spec fn base64_url_no_pad(bytes: Seq<u8>) -> Seq<char>;

#[verifier::external_type_specification]
#[verifier::external_body]
pub struct ExRandomError(getrandom::Error);

/// `sha2::Sha256::digest`: the 32-byte SHA-256 digest of `bytes`. The
/// contract names the result and states its length; nothing else about the
/// hash function is claimed.
#[verifier::external_body]
pub(crate) fn sha256_digest(bytes: &[u8]) -> (digest: [u8; 32])
    ensures
        digest@ == sha256(bytes@),
        digest@.len() == 32,
{
    sha2::Sha256::digest(bytes).into()
}

/// `subtle::ConstantTimeEq::ct_eq` on byte slices, converted to `bool`. Its
/// documentation says the choice is 1 exactly when the slices have the same
/// length and the same bytes.
#[verifier::external_body]
pub(crate) fn constant_time_eq(left: &[u8], right: &[u8]) -> (equal: bool)
    ensures
        equal == (left@ == right@),
{
    bool::from(left.ct_eq(right))
}

/// `getrandom::fill` into a 32-byte buffer. The bytes come from the operating
/// system's CSPRNG, so nothing is claimed about them or about whether the
/// call fails.
#[verifier::external_body]
pub(crate) fn fill_random(bytes: &mut [u8; 32]) -> (result: Result<(), getrandom::Error>)
{
    getrandom::fill(bytes)
}

/// `getrandom::fill` into a 24-byte buffer; as `fill_random`, nothing is
/// claimed about the bytes or the outcome.
#[verifier::external_body]
pub(crate) fn fill_random_24(bytes: &mut [u8; 24]) -> (result: Result<(), getrandom::Error>)
{
    getrandom::fill(bytes)
}

/// `getrandom::fill` into a 16-byte buffer; as `fill_random`, nothing is
/// claimed about the bytes or the outcome.
#[verifier::external_body]
pub(crate) fn fill_random_16(bytes: &mut [u8; 16]) -> (result: Result<(), getrandom::Error>)
{
    getrandom::fill(bytes)
}

/// The `Display` text of a `getrandom::Error`; nothing is claimed about it.
#[verifier::external_body]
pub(crate) fn random_error_text(error: &getrandom::Error) -> (text: String)
{
    format!("{error}")
}

/// `URL_SAFE_NO_PAD.encode(bytes)` from `base64`. The encoder panics only
/// when the encoded length overflows `usize`, which the bound rules out.
#[verifier::external_body]
pub(crate) fn encode_base64_url_no_pad(bytes: &[u8]) -> (text: String)
    requires
        bytes@.len() <= 1024,
    ensures
        text@ == base64_url_no_pad(bytes@),
{
    base64::engine::general_purpose::URL_SAFE_NO_PAD.encode(bytes)
}

/// `rand::random_range(0..=maximum)` on the thread-local generator: a value
/// within the inclusive range, as its documentation states. Which value is a
/// matter of chance.
#[verifier::external_body]
pub(crate) fn random_up_to(maximum: u64) -> (value: u64)
    ensures
        value <= maximum,
{
    rand::random_range(0..=maximum)
}

/// Seconds since the UNIX epoch from `std::time::SystemTime::now`, zero when
/// the clock reads before the epoch. The reading depends on the machine's
/// clock, so no value is claimed.
#[verifier::external_body]
pub(crate) fn epoch_seconds() -> (seconds: i64)
{
    std::time::SystemTime::now()
        .duration_since(std::time::UNIX_EPOCH)
        .unwrap_or_default()
        .as_secs() as i64
}

/// What `url::Url::parse` makes of a text, as (scheme, host, username,
/// password, query, fragment, port, path); `None` when it does not parse.
pub uninterp spec fn url_parse(text: Seq<char>) -> Option<
    (
        Seq<char>,
        Option<Seq<char>>,
        Seq<char>,
        Option<Seq<char>>,
        Option<Seq<char>>,
        Option<Seq<char>>,
        Option<u16>,
        Seq<char>,
    ),
>;

/// The serialization `url::Url::as_str` gives after parsing a text and
/// setting its port and path; `None` when it does not parse or the port
/// cannot be set.
pub uninterp spec fn url_reserialized(text: Seq<char>, port: Option<u16>, path: Seq<char>) -> Option<
    Seq<char>,
>;

/// `url::Url::parse` and the accessors of the parsed URL, copied into plain
/// text. The contract only names the outcome; nothing about URL parsing is
/// claimed.
#[verifier::external_body]
pub(crate) fn parse_url_parts(text: &str) -> (parts: Option<UrlParts>)
    ensures
        crate::public_url::parts_view(parts) == url_parse(text@),
{
    let url = url::Url::parse(text).ok()?;
    Some(UrlParts {
        scheme: url.scheme().to_string(),
        host: url.host_str().map(str::to_string),
        username: url.username().to_string(),
        password: url.password().map(str::to_string),
        query: url.query().map(str::to_string),
        fragment: url.fragment().map(str::to_string),
        port: url.port(),
        path: url.path().to_string(),
    })
}

/// `url::Url::parse`, then `set_port` and `set_path`, then `as_str`. The
/// contract only names the outcome.
#[verifier::external_body]
pub(crate) fn reserialize_url(text: &str, port: Option<u16>, path: &str) -> (serialized: Option<String>)
    ensures
        crate::game::opt_string(serialized) == url_reserialized(text@, port, path@),
{
    let mut url = url::Url::parse(text).ok()?;
    url.set_port(port).ok()?;
    url.set_path(path);
    Some(url.as_str().to_string())
}

/// The text `url::Url` serializes after parsing `base` and appending the
/// form-encoded query pairs; `None` when `base` does not parse.
pub uninterp spec fn url_with_query(base: Seq<char>, pairs: Seq<(Seq<char>, Seq<char>)>) -> Option<
    Seq<char>,
>;

pub open spec fn pair_views(pairs: Seq<(String, String)>) -> Seq<(Seq<char>, Seq<char>)> {
    pairs.map_values(|p: (String, String)| (p.0@, p.1@))
}

/// `url::Url::parse` of `base`, then `query_pairs_mut().extend_pairs` with
/// the pairs in order, then the serialization. The contract only names the
/// outcome.
#[verifier::external_body]
pub(crate) fn append_query_pairs(base: &str, pairs: &Vec<(String, String)>) -> (url: Option<String>)
    ensures
        crate::game::opt_string(url) == url_with_query(base@, pair_views(pairs@)),
{
    let mut url = url::Url::parse(base).ok()?;
    url.query_pairs_mut().extend_pairs(pairs.iter().map(|(key, value)| (key.as_str(), value.as_str())));
    Some(url.as_str().to_string())
}

} // verus!
