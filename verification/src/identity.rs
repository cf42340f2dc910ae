//! The runner's TLS identity: which files make it up, when it is loaded or
//! created, the permission its private key must have, and the fingerprint
//! a paired desktop pins.
use vstd::prelude::*;
use crate::order::views;
use crate::hex::{encode_hex, hex_of};
use crate::outside::{sha256, sha256_digest};
use crate::text::{push_char, push_str};

verus! {

pub const CERTIFICATE_FILE: &'static str = "runner-cert.der";

pub const PRIVATE_KEY_FILE: &'static str = "runner-key.der";

/// The runner's certificate and private key, with the SHA-256 fingerprint
/// of the certificate.
pub struct TlsIdentity {
    pub certificate_der: Vec<u8>,
    pub private_key_der: Vec<u8>,
    pub fingerprint: [u8; 32],
}

/// What to do with the identity files found in the data directory.
#[derive(PartialEq, Eq, Structural, Clone, Copy, Debug)]
pub enum IdentityPlan {
    Load,
    Create,
}

/// Both identity files load the identity, neither creates one, and only
/// one of them is an incomplete identity.
pub fn identity_plan(certificate_exists: bool, private_key_exists: bool) -> (plan: Result<IdentityPlan, String>)
    ensures
        certificate_exists && private_key_exists ==> plan == Ok::<IdentityPlan, String>(
            IdentityPlan::Load,
        ),
        !certificate_exists && !private_key_exists ==> plan == Ok::<IdentityPlan, String>(
            IdentityPlan::Create,
        ),
        certificate_exists != private_key_exists ==> (plan matches Err(e) && e@
            == "Runner TLS identity is incomplete; restore both the certificate and private key or initialize a fresh data directory"@),
{
    if certificate_exists && private_key_exists {
        Ok(IdentityPlan::Load)
    } else if !certificate_exists && !private_key_exists {
        Ok(IdentityPlan::Create)
    } else {
        Err(
            String::from_str(
                "Runner TLS identity is incomplete; restore both the certificate and private key or initialize a fresh data directory",
            ),
        )
    }
}

/// The four-digit octal rendering of a permission mode below 0o10000.
pub open spec fn octal4(mode: u32) -> Seq<char> {
    seq![
        (('0' as u32) + (mode / 512) % 8) as char,
        (('0' as u32) + (mode / 64) % 8) as char,
        (('0' as u32) + (mode / 8) % 8) as char,
        (('0' as u32) + mode % 8) as char,
    ]
}

fn octal_digit(d: u32) -> (c: char)
    requires
        d < 8,
    ensures
        c == (('0' as u32) + d) as char,
{
    (48 + d) as u8 as char
}

/// The private key must be readable and writable by its owner alone: its
/// permission bits must be exactly 0600.
pub fn enforce_private_key_permissions(path: &str, mode: u32) -> (result: Result<(), String>)
    ensures
        (mode & 0o777) == 0o600 <==> result is Ok,
        result matches Err(e) ==> e@ == "Runner private key "@ + path@ + " must have mode 0600 (found "@
            + octal4(mode & 0o777) + ")"@,
{
    let bits = mode & 0o777;
    if bits == 0o600 {
        return Ok(());
    }
    proof {
        assert(bits <= 0o777) by (bit_vector)
            requires
                bits == mode & 0o777,
        ;
    }
    let mut message = String::from_str("Runner private key ");
    push_str(&mut message, path);
    push_str(&mut message, " must have mode 0600 (found ");
    push_char(&mut message, octal_digit((bits / 512) % 8));
    push_char(&mut message, octal_digit((bits / 64) % 8));
    push_char(&mut message, octal_digit((bits / 8) % 8));
    push_char(&mut message, octal_digit(bits % 8));
    push_str(&mut message, ")");
    proof {
        assert(message@ =~= "Runner private key "@ + path@ + " must have mode 0600 (found "@ + octal4(bits)
            + ")"@);
    }
    Err(message)
}

/// How the private key is stored at rest on this platform: as it is.
pub fn protect_private_key(bytes: &[u8]) -> (stored: Result<Vec<u8>, String>)
    ensures
        stored matches Ok(s) && s@ == bytes@,
{
    let mut out: Vec<u8> = Vec::new();
    out.extend_from_slice(bytes);
    proof {
        assert(out@ =~= bytes@);
    }
    Ok(out)
}

/// Reads back a stored private key; the inverse of `protect_private_key`.
pub fn unprotect_private_key(bytes: &[u8]) -> (key: Result<Vec<u8>, String>)
    ensures
        key matches Ok(k) && k@ == bytes@,
{
    let mut out: Vec<u8> = Vec::new();
    out.extend_from_slice(bytes);
    proof {
        assert(out@ =~= bytes@);
    }
    Ok(out)
}

/// The identity made of a certificate and a private key read back from
/// disk; empty files are refused.
pub fn identity_from_parts(certificate_der: Vec<u8>, private_key_der: Vec<u8>) -> (identity: Result<
    TlsIdentity,
    String,
>)
    ensures
        certificate_der@.len() == 0 || private_key_der@.len() == 0 ==> (identity matches Err(e) && e@
            == "Runner TLS identity files must not be empty"@),
        certificate_der@.len() > 0 && private_key_der@.len() > 0 ==> (identity matches Ok(i)
            && i.certificate_der@ == certificate_der@ && i.private_key_der@ == private_key_der@
            && i.fingerprint@ == sha256(certificate_der@)),
{
    if certificate_der.len() == 0 || private_key_der.len() == 0 {
        return Err(String::from_str("Runner TLS identity files must not be empty"));
    }
    let fingerprint = sha256_digest(certificate_der.as_slice());
    Ok(TlsIdentity { certificate_der, private_key_der, fingerprint })
}

/// The lowercase hexadecimal of a certificate fingerprint.
pub fn fingerprint_hex(fingerprint: &[u8; 32]) -> (hex: String)
    ensures
        hex@ == hex_of(fingerprint@),
        hex@.len() == 64,
{
    let h = encode_hex(fingerprint);
    proof {
        crate::hex::lemma_hex_of_index(fingerprint@);
    }
    h
}

/// The subject alternative names a DER certificate is issued for, in
/// order: each DNS name as written, each IP address in its canonical
/// textual form.
pub uninterp spec fn certificate_subject_names(certificate_der: Seq<u8>) -> Seq<Seq<char>>;

/// `rcgen::generate_simple_self_signed` for the runner's loopback names,
/// returning the certificate and the private key as DER bytes, or the
/// error's text. The key pair is random, so nothing is claimed about the
/// bytes beyond what the crate's source shows: `CertificateParams::new`
/// turns each name into one subject alternative name, in order, storing an
/// IP literal as its address. The loopback names are already written
/// canonically, so the certificate's names read back as given; the call is
/// limited to them, since another spelling of an address would not.
#[verifier::external_body]
fn generate_self_signed(subject_names: Vec<String>) -> (generated: Result<(Vec<u8>, Vec<u8>), String>)
    requires
        views(subject_names@) == loopback_names(),
    ensures
        generated matches Ok(pair) ==> certificate_subject_names(pair.0@) == views(subject_names@),
{
    match rcgen::generate_simple_self_signed(subject_names) {
        Ok(key) => Ok((key.cert.der().as_ref().to_vec(), key.signing_key.serialize_der())),
        Err(error) => Err(error.to_string()),
    }
}

/// The identity made of a freshly generated certificate and private key,
/// or the generation failure reported as such.
pub fn identity_from_generated(generated: Result<(Vec<u8>, Vec<u8>), String>) -> (identity: Result<
    TlsIdentity,
    String,
>)
    ensures
        match generated {
            Ok((certificate_der, private_key_der)) => identity matches Ok(i) && i.certificate_der@
                == certificate_der@ && i.private_key_der@ == private_key_der@ && i.fingerprint@
                == sha256(certificate_der@),
            Err(detail) => identity matches Err(e) && e@
                == "Could not generate the runner TLS identity: "@ + detail@,
        },
{
    match generated {
        Ok((certificate_der, private_key_der)) => {
            let fingerprint = sha256_digest(certificate_der.as_slice());
            Ok(TlsIdentity { certificate_der, private_key_der, fingerprint })
        },
        Err(detail) => {
            let mut message = String::from_str("Could not generate the runner TLS identity: ");
            push_str(&mut message, detail.as_str());
            Err(message)
        },
    }
}

/// The names the runner's certificate is issued for: its loopback names.
pub open spec fn loopback_names() -> Seq<Seq<char>> {
    seq!["localhost"@, "127.0.0.1"@, "::1"@]
}

/// The runner's loopback names, in the order they are certified.
pub fn loopback_subject_names() -> (names: Vec<String>)
    ensures
        views(names@) == loopback_names(),
{
    let mut names: Vec<String> = Vec::new();
    names.push(String::from_str("localhost"));
    names.push(String::from_str("127.0.0.1"));
    names.push(String::from_str("::1"));
    proof {
        assert(views(names@) =~= loopback_names());
    }
    names
}

/// A fresh self-signed identity for the runner's loopback names
/// (`localhost`, `127.0.0.1`, `::1`), with the fingerprint of its
/// certificate. Key generation is random and may fail; a failure is
/// reported as such.
pub fn generate_identity() -> (identity: Result<TlsIdentity, String>)
    ensures
        match identity {
            Ok(i) => i.fingerprint@ == sha256(i.certificate_der@) && certificate_subject_names(
                i.certificate_der@,
            ) == loopback_names(),
            Err(e) => exists|detail: Seq<char>|
                e@ == "Could not generate the runner TLS identity: "@ + detail,
        },
{
    let names = loopback_subject_names();
    identity_from_generated(generate_self_signed(names))
}

} // verus!
