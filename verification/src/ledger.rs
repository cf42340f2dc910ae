//! The runner's durable credential and idempotency ledger: pairing codes,
//! the single active bearer generation, and exactly-once command outcomes.
//!
//! The ledger holds the rows of the runner database as plain values; every
//! state change is a verified transition over them, and the host commits the
//! resulting rows in one transaction.
use vstd::prelude::*;
use crate::outside::{
    base64_url_no_pad, constant_time_eq, encode_base64_url_no_pad, epoch_seconds, fill_random,
    random_error_text, sha256, sha256_digest,
};
use crate::protocol::{CommandResponse, IDEMPOTENCY_TTL_SECONDS, PROTOCOL_VERSION};
use crate::text::push_str;

verus! {

pub const ENROLLMENT_LIFETIME_SECONDS: i64 = 600;

pub const MAX_ENROLLMENT_FAILURES: u32 = 5;

pub const MAX_IDEMPOTENCY_ROWS: usize = 10000;

pub const MAX_IDEMPOTENCY_BYTES: u64 = 67108864;

pub const MAX_STORED_RESPONSE_BYTES: usize = 262144;

pub const MAX_NEW_KEYS_PER_MINUTE: usize = 240;

/// The single outstanding pairing code, stored only as its hash.
pub struct EnrollmentRow {
    pub secret_hash: Vec<u8>,
    pub runner_id: u128,
    pub cert_fp: Vec<u8>,
    pub purpose: String,
    pub expires_at: i64,
    pub failed_attempts: u32,
    pub rotate: bool,
}

pub struct EnrollmentView {
    pub secret_hash: Seq<u8>,
    pub runner_id: u128,
    pub cert_fp: Seq<u8>,
    pub purpose: Seq<char>,
    pub expires_at: i64,
    pub failed_attempts: u32,
    pub rotate: bool,
}

impl View for EnrollmentRow {
    type V = EnrollmentView;

    open spec fn view(&self) -> EnrollmentView {
        EnrollmentView {
            secret_hash: self.secret_hash@,
            runner_id: self.runner_id,
            cert_fp: self.cert_fp@,
            purpose: self.purpose@,
            expires_at: self.expires_at,
            failed_attempts: self.failed_attempts,
            rotate: self.rotate,
        }
    }
}

/// The one active bearer credential, stored only as its hash.
pub struct CredentialRow {
    pub generation: u64,
    pub bearer_hash: Vec<u8>,
    pub created_at: i64,
}

pub struct CredentialView {
    pub generation: u64,
    pub bearer_hash: Seq<u8>,
    pub created_at: i64,
}

impl View for CredentialRow {
    type V = CredentialView;

    open spec fn view(&self) -> CredentialView {
        CredentialView {
            generation: self.generation,
            bearer_hash: self.bearer_hash@,
            created_at: self.created_at,
        }
    }
}

#[derive(PartialEq, Eq, Structural, Clone, Copy, Debug)]
pub enum RowState {
    Pending,
    Done,
    FailedDeterministic,
    AmbiguousCrash,
}

/// One idempotency key's durable record.
pub struct IdempotencyRow {
    pub request_key: u128,
    pub credential_generation: u64,
    pub protocol_version: u32,
    pub method: String,
    pub path: String,
    pub body_digest: [u8; 32],
    pub state: RowState,
    pub response: Option<Vec<u8>>,
    pub command_kind: String,
    pub reconciliation: String,
    pub created_at: i64,
    pub updated_at: i64,
}

pub struct RowView {
    pub key: u128,
    pub generation: u64,
    pub version: u32,
    pub method: Seq<char>,
    pub path: Seq<char>,
    pub digest: Seq<u8>,
    pub state: RowState,
    pub response: Option<Seq<u8>>,
    pub command_kind: Seq<char>,
    pub reconciliation: Seq<char>,
    pub created_at: i64,
    pub updated_at: i64,
}

pub open spec fn response_view(response: Option<Vec<u8>>) -> Option<Seq<u8>> {
    match response {
        Some(bytes) => Some(bytes@),
        None => None,
    }
}

impl View for IdempotencyRow {
    type V = RowView;

    open spec fn view(&self) -> RowView {
        RowView {
            key: self.request_key,
            generation: self.credential_generation,
            version: self.protocol_version,
            method: self.method@,
            path: self.path@,
            digest: self.body_digest@,
            state: self.state,
            response: response_view(self.response),
            command_kind: self.command_kind@,
            reconciliation: self.reconciliation@,
            created_at: self.created_at,
            updated_at: self.updated_at,
        }
    }
}

/// What binds an idempotency key to one exact request.
#[derive(Debug)]
pub struct IdempotencyBinding {
    pub key: u128,
    pub credential_generation: u64,
    pub protocol_version: u32,
    pub method: &'static str,
    pub normalized_path: &'static str,
    pub body_digest: [u8; 32],
    pub command_kind: &'static str,
    pub reconciliation: &'static str,
}

pub struct MintedEnrollment {
    pub code: String,
    pub expires_at: i64,
    pub rotate: bool,
}

pub struct RedeemedBearer {
    pub bearer: String,
    pub generation: u64,
}

#[derive(PartialEq, Eq, Structural, Clone, Copy, Debug)]
pub enum RedeemError {
    Unavailable,
    Expired,
    Rejected { attempts_remaining: u32 },
    Revoked,
    IdentityMismatch,
}

/// What a reservation attempt tells the command handler to do. A replay
/// carries the stored serialized response.
pub enum Reservation {
    Execute,
    Replay(Vec<u8>),
    Pending,
    Conflict,
}

pub enum ReservationView {
    Execute,
    Replay(Seq<u8>),
    Pending,
    Conflict,
}

impl View for Reservation {
    type V = ReservationView;

    open spec fn view(&self) -> ReservationView {
        match self {
            Reservation::Execute => ReservationView::Execute,
            Reservation::Replay(bytes) => ReservationView::Replay(bytes@),
            Reservation::Pending => ReservationView::Pending,
            Reservation::Conflict => ReservationView::Conflict,
        }
    }
}

#[derive(PartialEq, Eq, Structural, Clone, Copy, Debug)]
pub enum CompletionState {
    Done,
    FailedDeterministic,
    FailedTransient,
}

/// The abstract contents of the ledger.
pub struct LedgerView {
    pub runner_id: u128,
    pub cert_fp: Seq<u8>,
    pub enrollment: Option<EnrollmentView>,
    pub credential: Option<CredentialView>,
    pub rows: Seq<RowView>,
}

/// The in-memory image of the runner database.
pub struct RunnerDatabase {
    runner_id: u128,
    certificate_fingerprint: [u8; 32],
    enrollment: Option<EnrollmentRow>,
    credential: Option<CredentialRow>,
    idempotency: Vec<IdempotencyRow>,
}

pub open spec fn enrollment_view(e: Option<EnrollmentRow>) -> Option<EnrollmentView> {
    match e {
        Some(row) => Some(row@),
        None => None,
    }
}

pub open spec fn credential_view(c: Option<CredentialRow>) -> Option<CredentialView> {
    match c {
        Some(row) => Some(row@),
        None => None,
    }
}

impl View for RunnerDatabase {
    type V = LedgerView;

    closed spec fn view(&self) -> LedgerView {
        LedgerView {
            runner_id: self.runner_id,
            cert_fp: self.certificate_fingerprint@,
            enrollment: enrollment_view(self.enrollment),
            credential: credential_view(self.credential),
            rows: self.idempotency@.map_values(|r: IdempotencyRow| r@),
        }
    }
}

/// No two idempotency rows share a key and credential generation.
pub open spec fn unique_keys(rows: Seq<RowView>) -> bool {
    forall|i: int, j: int|
        0 <= i < rows.len() && 0 <= j < rows.len() && i != j ==> !(rows[i].key == rows[j].key
            && rows[i].generation == rows[j].generation)
}

pub open spec fn ledger_wf(l: LedgerView) -> bool {
    unique_keys(l.rows)
}

// ---------------------------------------------------------------- pairing

pub open spec fn sat_add_u32(a: u32, b: u32) -> u32 {
    if a + b > u32::MAX {
        u32::MAX
    } else {
        (a + b) as u32
    }
}

pub open spec fn sat_add_u64(a: u64, b: u64) -> u64 {
    if a + b > u64::MAX {
        u64::MAX
    } else {
        (a + b) as u64
    }
}

pub open spec fn sat_sub_i64(a: i64, b: i64) -> i64 {
    if a - b < i64::MIN {
        i64::MIN
    } else if a - b > i64::MAX {
        i64::MAX
    } else {
        (a - b) as i64
    }
}

/// `i64::saturating_sub`.
pub fn saturating_sub_i64(a: i64, b: i64) -> (r: i64)
    ensures
        r == sat_sub_i64(a, b),
{
    if b >= 0 {
        if a < i64::MIN + b {
            i64::MIN
        } else {
            a - b
        }
    } else {
        if a > i64::MAX + b {
            i64::MAX
        } else {
            a - b
        }
    }
}

/// The hash under which a secret (pairing code or bearer) is stored.
pub open spec fn secret_hash_of(secret: Seq<char>) -> Seq<u8> {
    sha256(vstd::utf8::encode_utf8(secret))
}

/// Minting a pairing code with hash `code_hash` at `now`: either the ledger
/// with its enrollment replaced, or the refusal message.
pub open spec fn mint_step(l: LedgerView, rotate: bool, now: i64, code_hash: Seq<u8>) -> Result<
    LedgerView,
    Seq<char>,
> {
    if now + ENROLLMENT_LIFETIME_SECONDS > i64::MAX {
        Err("Enrollment expiry overflowed"@)
    } else if rotate && l.credential is None {
        Err("Cannot rotate before the runner has been paired"@)
    } else if !rotate && l.credential is Some {
        Err("Runner is already paired; use pair --rotate for a hard cutover"@)
    } else {
        Ok(
            LedgerView {
                enrollment: Some(
                    EnrollmentView {
                        secret_hash: code_hash,
                        runner_id: l.runner_id,
                        cert_fp: l.cert_fp,
                        purpose: "pair"@,
                        expires_at: (now + ENROLLMENT_LIFETIME_SECONDS) as i64,
                        failed_attempts: 0,
                        rotate,
                    },
                ),
                ..l
            },
        )
    }
}

/// Redeeming a code whose hash is `candidate` at `now`, minting a bearer
/// whose hash is `bearer_hash` on success: the next ledger and the outcome
/// (the new generation, or the refusal).
pub open spec fn redeem_step(
    l: LedgerView,
    candidate: Seq<u8>,
    now: i64,
    bearer_hash: Seq<u8>,
) -> (LedgerView, Result<u64, RedeemError>) {
    match l.enrollment {
        None => (l, Err(RedeemError::Unavailable)),
        Some(e) => if e.expires_at <= now {
            (LedgerView { enrollment: None, ..l }, Err(RedeemError::Expired))
        } else if e.runner_id != l.runner_id || e.cert_fp != l.cert_fp || e.purpose != "pair"@ {
            (LedgerView { enrollment: None, ..l }, Err(RedeemError::IdentityMismatch))
        } else if e.secret_hash.len() != 32 || e.secret_hash != candidate {
            let failures = sat_add_u32(e.failed_attempts, 1);
            if failures >= MAX_ENROLLMENT_FAILURES {
                (LedgerView { enrollment: None, ..l }, Err(RedeemError::Revoked))
            } else {
                (
                    LedgerView {
                        enrollment: Some(EnrollmentView { failed_attempts: failures, ..e }),
                        ..l
                    },
                    Err(
                        RedeemError::Rejected {
                            attempts_remaining: (MAX_ENROLLMENT_FAILURES - failures) as u32,
                        },
                    ),
                )
            }
        } else if e.rotate != (l.credential is Some) {
            (LedgerView { enrollment: None, ..l }, Err(RedeemError::Unavailable))
        } else {
            let generation = match l.credential {
                Some(c) => sat_add_u64(c.generation, 1),
                None => 1u64,
            };
            (
                LedgerView {
                    enrollment: None,
                    credential: Some(
                        CredentialView { generation, bearer_hash, created_at: now },
                    ),
                    ..l
                },
                Ok(generation),
            )
        },
    }
}

/// The generation a bearer whose hash is `candidate` authenticates as.
pub open spec fn authenticate_spec(l: LedgerView, candidate: Seq<u8>) -> Option<u64> {
    match l.credential {
        Some(c) => if c.bearer_hash.len() == 32 && c.bearer_hash == candidate {
            Some(c.generation)
        } else {
            None
        },
        None => None,
    }
}

impl RunnerDatabase {
    /// An empty ledger for a runner identity and certificate.
    pub fn new(runner_id: u128, certificate_fingerprint: [u8; 32]) -> (ledger: Self)
        ensures
            ledger@ == (LedgerView {
                runner_id,
                cert_fp: certificate_fingerprint@,
                enrollment: None,
                credential: None,
                rows: Seq::empty(),
            }),
            ledger_wf(ledger@),
    {
        let ledger = RunnerDatabase {
            runner_id,
            certificate_fingerprint,
            enrollment: None,
            credential: None,
            idempotency: Vec::new(),
        };
        assert(ledger@.rows =~= Seq::empty());
        ledger
    }

    pub fn runner_id(&self) -> (id: u128)
        ensures
            id == self@.runner_id,
    {
        self.runner_id
    }

    pub fn enrollment(&self) -> (e: &Option<EnrollmentRow>)
        ensures
            enrollment_view(*e) == self@.enrollment,
    {
        &self.enrollment
    }

    pub fn credential(&self) -> (c: &Option<CredentialRow>)
        ensures
            credential_view(*c) == self@.credential,
    {
        &self.credential
    }

    pub fn idempotency_rows(&self) -> (rows: &Vec<IdempotencyRow>)
        ensures
            rows@.map_values(|r: IdempotencyRow| r@) == self@.rows,
    {
        &self.idempotency
    }

    /// Rebuilds the ledger from its stored rows; rows that bind one key and
    /// credential generation twice are refused.
    pub fn restore(
        runner_id: u128,
        certificate_fingerprint: [u8; 32],
        enrollment: Option<EnrollmentRow>,
        credential: Option<CredentialRow>,
        rows: Vec<IdempotencyRow>,
    ) -> (result: Result<Self, String>)
        ensures
            unique_keys(rows@.map_values(|r: IdempotencyRow| r@)) <==> result is Ok,
            result matches Ok(ledger) ==> ledger@ == (LedgerView {
                runner_id,
                cert_fp: certificate_fingerprint@,
                enrollment: enrollment_view(enrollment),
                credential: credential_view(credential),
                rows: rows@.map_values(|r: IdempotencyRow| r@),
            }) && ledger_wf(ledger@),
            result matches Err(e) ==> e@ == "The runner database binds an idempotency key twice"@,
    {
        let ghost views = rows@.map_values(|r: IdempotencyRow| r@);
        let n = rows.len();
        let mut i: usize = 0;
        while i < n
            invariant
                n == rows@.len(),
                views == rows@.map_values(|r: IdempotencyRow| r@),
                i <= n,
                forall|a: int, b: int|
                    0 <= a < i && 0 <= b < i && a != b ==> !(#[trigger] views[a].key == #[trigger] views[b].key
                        && views[a].generation == views[b].generation),
            decreases n - i,
        {
            let mut j: usize = 0;
            while j < i
                invariant
                    n == rows@.len(),
                    views == rows@.map_values(|r: IdempotencyRow| r@),
                    i < n,
                    j <= i,
                    forall|b: int| 0 <= b < j ==> !(views[i as int].key == #[trigger] views[b].key
                        && views[i as int].generation == views[b].generation),
                decreases i - j,
            {
                if rows[i].request_key == rows[j].request_key && rows[i].credential_generation
                    == rows[j].credential_generation {
                    proof {
                        assert(views[i as int].key == views[j as int].key);
                        assert(!unique_keys(views));
                    }
                    return Err(String::from_str("The runner database binds an idempotency key twice"));
                }
                j = j + 1;
            }
            i = i + 1;
        }
        let ledger = RunnerDatabase {
            runner_id,
            certificate_fingerprint,
            enrollment,
            credential,
            idempotency: rows,
        };
        Ok(ledger)
    }

    /// Mints a fresh pairing code and makes it the only outstanding one.
    /// The code comes from the operating system's CSPRNG; whatever it yields,
    /// an `Ok` carries a code whose hash is now the stored enrollment hash.
    pub fn mint_enrollment(&mut self, rotate: bool, now: i64) -> (result: Result<
        MintedEnrollment,
        String,
    >)
        requires
            ledger_wf(old(self)@),
        ensures
            ledger_wf(final(self)@),
            match result {
                Ok(minted) => mint_step(old(self)@, rotate, now, secret_hash_of(minted.code@))
                    == Ok::<LedgerView, Seq<char>>(final(self)@) && minted.rotate == rotate
                    && minted.expires_at == now + ENROLLMENT_LIFETIME_SECONDS && exists|bytes: Seq<u8>|
                    bytes.len() == 32 && minted.code@ == base64_url_no_pad(bytes),
                Err(e) => final(self)@ == old(self)@ && ((exists|detail: Seq<char>|
                    e@ == "The operating system CSPRNG failed: "@ + detail) || mint_step(
                    old(self)@,
                    rotate,
                    now,
                    Seq::empty(),
                ) == Err::<LedgerView, Seq<char>>(e@)),
            },
            mint_step(old(self)@, rotate, now, Seq::empty()) is Err ==> result is Err,
    {
        let code = random_secret()?;
        self.mint_enrollment_with_code(rotate, now, code)
    }

    /// Installs `code` as the only outstanding pairing code, superseding any
    /// earlier one, exactly as `mint_step` describes.
    pub fn mint_enrollment_with_code(&mut self, rotate: bool, now: i64, code: String) -> (result:
        Result<MintedEnrollment, String>)
        requires
            ledger_wf(old(self)@),
        ensures
            ledger_wf(final(self)@),
            match mint_step(old(self)@, rotate, now, secret_hash_of(code@)) {
                Ok(next) => final(self)@ == next && (result matches Ok(minted) && minted.code@
                    == code@ && minted.rotate == rotate && minted.expires_at == now
                    + ENROLLMENT_LIFETIME_SECONDS),
                Err(message) => final(self)@ == old(self)@ && (result matches Err(e) && e@
                    == message),
            },
    {
        let code_hash = secret_hash(code.as_str());
        if now > i64::MAX - ENROLLMENT_LIFETIME_SECONDS {
            return Err(String::from_str("Enrollment expiry overflowed"));
        }
        let expires_at = now + ENROLLMENT_LIFETIME_SECONDS;
        let has_credential = self.credential.is_some();
        if rotate && !has_credential {
            return Err(String::from_str("Cannot rotate before the runner has been paired"));
        }
        if !rotate && has_credential {
            return Err(
                String::from_str("Runner is already paired; use pair --rotate for a hard cutover"),
            );
        }
        let mut cert_fp: Vec<u8> = Vec::new();
        cert_fp.extend_from_slice(&self.certificate_fingerprint);
        let mut stored_hash: Vec<u8> = Vec::new();
        stored_hash.extend_from_slice(&code_hash);
        self.enrollment = Some(
            EnrollmentRow {
                secret_hash: stored_hash,
                runner_id: self.runner_id,
                cert_fp,
                purpose: String::from_str("pair"),
                expires_at,
                failed_attempts: 0,
                rotate,
            },
        );
        proof {
            assert(self.enrollment.unwrap().cert_fp@ =~= self.certificate_fingerprint@);
            assert(self.enrollment.unwrap().secret_hash@ =~= code_hash@);
        }
        Ok(MintedEnrollment { code, expires_at, rotate })
    }

    /// Redeems a pairing code, minting a fresh bearer from the operating
    /// system's CSPRNG. Whatever the CSPRNG yields, the outcome is the one
    /// `redeem_step` gives for the new bearer; when it fails, the ledger is
    /// unchanged and the answer is `Unavailable`.
    pub fn redeem(&mut self, code: &str, now: i64) -> (result: Result<RedeemedBearer, RedeemError>)
        requires
            ledger_wf(old(self)@),
        ensures
            ledger_wf(final(self)@),
            (final(self)@ == old(self)@ && result == Err::<RedeemedBearer, RedeemError>(
                RedeemError::Unavailable,
            )) || exists|bearer: Seq<char>|
                redeem_step(old(self)@, secret_hash_of(code@), now, secret_hash_of(bearer))
                    == (final(self)@, redeem_outcome(result)) && (result matches Ok(r) ==> r.bearer@
                    == bearer),
    {
        let bearer = match random_secret() {
            Ok(bearer) => bearer,
            Err(_) => return Err(RedeemError::Unavailable),
        };
        let ghost chosen = bearer@;
        let result = self.redeem_with_bearer(code, now, bearer);
        assert(redeem_step(old(self)@, secret_hash_of(code@), now, secret_hash_of(chosen)) == (
        self@, redeem_outcome(result)));
        result
    }

    /// Redeems a pairing code, issuing `new_bearer` on success, exactly as
    /// `redeem_step` describes.
    pub fn redeem_with_bearer(&mut self, code: &str, now: i64, new_bearer: String) -> (result:
        Result<RedeemedBearer, RedeemError>)
        requires
            ledger_wf(old(self)@),
        ensures
            ledger_wf(final(self)@),
            redeem_step(old(self)@, secret_hash_of(code@), now, secret_hash_of(new_bearer@)) == (
            final(self)@, redeem_outcome(result)),
            result matches Ok(r) ==> r.bearer@ == new_bearer@,
    {
        let candidate = secret_hash(code);
        let new_hash = secret_hash(new_bearer.as_str());
        let enrollment = match self.enrollment.take() {
            None => return Err(RedeemError::Unavailable),
            Some(e) => e,
        };
        if enrollment.expires_at <= now {
            return Err(RedeemError::Expired);
        }
        let purpose_is_pair = crate::text::str_eq(enrollment.purpose.as_str(), "pair");
        if enrollment.runner_id != self.runner_id || !constant_time_eq(
            enrollment.cert_fp.as_slice(),
            &self.certificate_fingerprint,
        ) || !purpose_is_pair {
            return Err(RedeemError::IdentityMismatch);
        }
        if enrollment.secret_hash.len() != 32 || !constant_time_eq(
            enrollment.secret_hash.as_slice(),
            &candidate,
        ) {
            let failures = enrollment.failed_attempts.saturating_add(1);
            if failures >= MAX_ENROLLMENT_FAILURES {
                return Err(RedeemError::Revoked);
            }
            let remaining = MAX_ENROLLMENT_FAILURES - failures;
            self.enrollment = Some(EnrollmentRow { failed_attempts: failures, ..enrollment });
            return Err(RedeemError::Rejected { attempts_remaining: remaining });
        }
        let current_generation: Option<u64> = match &self.credential {
            Some(c) => Some(c.generation),
            None => None,
        };
        if enrollment.rotate != current_generation.is_some() {
            return Err(RedeemError::Unavailable);
        }
        let generation = match current_generation {
            Some(g) => g.saturating_add(1),
            None => 1,
        };
        let mut bearer_hash: Vec<u8> = Vec::new();
        bearer_hash.extend_from_slice(&new_hash);
        self.credential = Some(CredentialRow { generation, bearer_hash, created_at: now });
        proof {
            assert(self.credential.unwrap().bearer_hash@ =~= new_hash@);
        }
        Ok(RedeemedBearer { bearer: new_bearer, generation })
    }

    /// The credential generation that `bearer` authenticates as, if any.
    pub fn authenticate(&self, bearer: &str) -> (generation: Option<u64>)
        ensures
            generation == authenticate_spec(self@, secret_hash_of(bearer@)),
    {
        let candidate = secret_hash(bearer);
        match &self.credential {
            Some(c) => {
                if c.bearer_hash.len() == 32 && constant_time_eq(c.bearer_hash.as_slice(), &candidate) {
                    Some(c.generation)
                } else {
                    None
                }
            },
            None => None,
        }
    }
}

/// The outcome of a redemption in the terms of `redeem_step`.
pub open spec fn redeem_outcome(result: Result<RedeemedBearer, RedeemError>) -> Result<
    u64,
    RedeemError,
> {
    match result {
        Ok(r) => Ok(r.generation),
        Err(e) => Err(e),
    }
}

/// The SHA-256 digest of a secret's UTF-8 bytes.
pub fn secret_hash(value: &str) -> (digest: [u8; 32])
    ensures
        digest@ == secret_hash_of(value@),
        digest@.len() == 32,
{
    sha256_digest(value.as_bytes())
}

/// A fresh 256-bit secret from the operating system's CSPRNG, rendered as
/// unpadded URL-safe base64. On success the text is the encoding of some 32
/// random bytes; when the CSPRNG fails the error says so.
pub fn random_secret() -> (result: Result<String, String>)
    ensures
        match result {
            Ok(secret) => exists|bytes: Seq<u8>|
                bytes.len() == 32 && secret@ == base64_url_no_pad(bytes),
            Err(message) => exists|detail: Seq<char>|
                message@ == "The operating system CSPRNG failed: "@ + detail,
        },
{
    let mut bytes = [0u8; 32];
    match fill_random(&mut bytes) {
        Ok(()) => {
            let text = encode_base64_url_no_pad(&bytes);
            Ok(text)
        },
        Err(error) => {
            let mut message = String::from_str("The operating system CSPRNG failed: ");
            let detail = random_error_text(&error);
            push_str(&mut message, detail.as_str());
            Err(message)
        },
    }
}

// ------------------------------------------------------------ idempotency

pub struct BindingView {
    pub key: u128,
    pub generation: u64,
    pub version: u32,
    pub method: Seq<char>,
    pub path: Seq<char>,
    pub digest: Seq<u8>,
    pub command_kind: Seq<char>,
    pub reconciliation: Seq<char>,
}

impl View for IdempotencyBinding {
    type V = BindingView;

    open spec fn view(&self) -> BindingView {
        BindingView {
            key: self.key,
            generation: self.credential_generation,
            version: self.protocol_version,
            method: self.method@,
            path: self.normalized_path@,
            digest: self.body_digest@,
            command_kind: self.command_kind@,
            reconciliation: self.reconciliation@,
        }
    }
}

/// A row older than the idempotency lifetime at `now`.
pub open spec fn expired(r: RowView, now: i64) -> bool {
    r.created_at <= sat_sub_i64(now, IDEMPOTENCY_TTL_SECONDS)
}

/// The rows that survive expiry at `now`, in order.
pub open spec fn live_rows(rows: Seq<RowView>, now: i64) -> Seq<RowView>
    decreases rows.len(),
{
    if rows.len() == 0 {
        Seq::empty()
    } else {
        let prev = live_rows(rows.drop_last(), now);
        if expired(rows.last(), now) {
            prev
        } else {
            prev.push(rows.last())
        }
    }
}

pub open spec fn same_key(r: RowView, key: u128, generation: u64) -> bool {
    r.key == key && r.generation == generation
}

/// The last row bound to `(key, generation)`.
pub open spec fn last_match(rows: Seq<RowView>, key: u128, generation: u64) -> Option<RowView>
    decreases rows.len(),
{
    if rows.len() == 0 {
        None
    } else if same_key(rows.last(), key, generation) {
        Some(rows.last())
    } else {
        last_match(rows.drop_last(), key, generation)
    }
}

/// The bytes a row counts against the durable quota: its response, or a full
/// response allowance while it is still unanswered.
pub open spec fn row_weight(r: RowView) -> int {
    match r.response {
        Some(bytes) => bytes.len() as int,
        None => MAX_STORED_RESPONSE_BYTES as int,
    }
}

pub open spec fn stored_bytes(rows: Seq<RowView>) -> int
    decreases rows.len(),
{
    if rows.len() == 0 {
        0
    } else {
        stored_bytes(rows.drop_last()) + row_weight(rows.last())
    }
}

/// Rows of credential generation `generation` created within the last minute.
pub open spec fn recent_count(rows: Seq<RowView>, generation: u64, now: i64) -> nat
    decreases rows.len(),
{
    if rows.len() == 0 {
        0
    } else {
        recent_count(rows.drop_last(), generation, now) + if rows.last().generation == generation
            && rows.last().created_at > sat_sub_i64(now, 60) {
            1nat
        } else {
            0nat
        }
    }
}

/// The pending row a fresh reservation installs.
pub open spec fn new_row(b: BindingView, now: i64) -> RowView {
    RowView {
        key: b.key,
        generation: b.generation,
        version: b.version,
        method: b.method,
        path: b.path,
        digest: b.digest,
        state: RowState::Pending,
        response: None,
        command_kind: b.command_kind,
        reconciliation: b.reconciliation,
        created_at: now,
        updated_at: now,
    }
}

/// A reservation attempt at `now`: the rows it commits and its answer.
/// Only a fresh reservation commits anything, the expiry sweep included.
pub open spec fn reserve_step(rows: Seq<RowView>, b: BindingView, now: i64) -> (
    Seq<RowView>,
    Result<ReservationView, Seq<char>>,
) {
    let live = live_rows(rows, now);
    match last_match(live, b.key, b.generation) {
        Some(r) => if r.version != b.version || r.method != b.method || r.path != b.path
            || r.digest != b.digest {
            (rows, Ok(ReservationView::Conflict))
        } else {
            match r.state {
                RowState::Done | RowState::FailedDeterministic => match r.response {
                    Some(bytes) => (rows, Ok(ReservationView::Replay(bytes))),
                    None => (rows, Err("Idempotency terminal row has no response"@)),
                },
                _ => (rows, Ok(ReservationView::Pending)),
            }
        },
        None => if live.len() >= MAX_IDEMPOTENCY_ROWS {
            (rows, Err("quota: the durable idempotency row quota is full"@))
        } else if stored_bytes(live) + MAX_STORED_RESPONSE_BYTES > MAX_IDEMPOTENCY_BYTES {
            (rows, Err("quota: the durable idempotency byte quota is full"@))
        } else if recent_count(live, b.generation, now) >= MAX_NEW_KEYS_PER_MINUTE {
            (rows, Err("rate: too many new idempotency keys for this credential"@))
        } else {
            (live.push(new_row(b, now)), Ok(ReservationView::Execute))
        },
    }
}

/// The rows without the one bound to `(key, generation)`.
pub open spec fn without_key(rows: Seq<RowView>, key: u128, generation: u64) -> Seq<RowView>
    decreases rows.len(),
{
    if rows.len() == 0 {
        Seq::empty()
    } else {
        let prev = without_key(rows.drop_last(), key, generation);
        if same_key(rows.last(), key, generation) {
            prev
        } else {
            prev.push(rows.last())
        }
    }
}

pub open spec fn pending_match(r: RowView, key: u128, generation: u64) -> bool {
    same_key(r, key, generation) && r.state == RowState::Pending
}

pub open spec fn completed_row(r: RowView, state: RowState, bytes: Seq<u8>, now: i64) -> RowView {
    RowView { state, response: Some(bytes), updated_at: now, ..r }
}

pub open spec fn stored_state(state: CompletionState) -> RowState {
    match state {
        CompletionState::Done => RowState::Done,
        _ => RowState::FailedDeterministic,
    }
}

/// Recording a command's outcome at `now`. A transient failure releases the
/// key; a terminal outcome is stored for replay on the pending row.
pub open spec fn complete_step(
    rows: Seq<RowView>,
    key: u128,
    generation: u64,
    state: CompletionState,
    bytes: Seq<u8>,
    now: i64,
) -> (Seq<RowView>, Result<(), Seq<char>>) {
    if state == CompletionState::FailedTransient {
        (without_key(rows, key, generation), Ok(()))
    } else if bytes.len() > MAX_STORED_RESPONSE_BYTES {
        (rows, Err("The command response exceeds the durable replay limit"@))
    } else if exists|i: int| 0 <= i < rows.len() && pending_match(rows[i], key, generation) {
        (
            Seq::new(
                rows.len(),
                |i: int|
                    if pending_match(rows[i], key, generation) {
                        completed_row(rows[i], stored_state(state), bytes, now)
                    } else {
                        rows[i]
                    },
            ),
            Ok(()),
        )
    } else {
        (rows, Err("The idempotency reservation was not pending"@))
    }
}

/// Startup phase one: every interrupted execution becomes explicit.
pub open spec fn mark_step(rows: Seq<RowView>, now: i64) -> Seq<RowView> {
    Seq::new(
        rows.len(),
        |i: int|
            if rows[i].state == RowState::Pending {
                RowView { state: RowState::AmbiguousCrash, updated_at: now, ..rows[i] }
            } else {
                rows[i]
            },
    )
}

pub open spec fn pending_count(rows: Seq<RowView>) -> nat
    decreases rows.len(),
{
    if rows.len() == 0 {
        0
    } else {
        pending_count(rows.drop_last()) + if rows.last().state == RowState::Pending {
            1nat
        } else {
            0nat
        }
    }
}

/// The failure text recorded for an interrupted execution that could not be
/// proven complete.
pub open spec fn ambiguous_message(command_kind: Seq<char>, reconciliation: Seq<char>) -> Seq<char> {
    "The interrupted "@ + command_kind + " operation was reconciled against "@ + reconciliation
        + "; completion could not be proven"@
}

/// How many executions are awaiting settlement as ambiguous crashes.
pub open spec fn ambiguous_count(rows: Seq<RowView>) -> nat
    decreases rows.len(),
{
    if rows.len() == 0 {
        0
    } else {
        ambiguous_count(rows.drop_last()) + if rows.last().state == RowState::AmbiguousCrash {
            1nat
        } else {
            0nat
        }
    }
}

pub open spec fn byte_views(v: Seq<Vec<u8>>) -> Seq<Seq<u8>> {
    v.map_values(|b: Vec<u8>| b@)
}

/// Settles every ambiguous execution, in row order, with the matching
/// serialized failure response: each becomes a deterministic failure that
/// is replayed under its key.
pub open spec fn reconcile_step(rows: Seq<RowView>, responses: Seq<Seq<u8>>, now: i64) -> Seq<RowView> {
    Seq::new(
        rows.len(),
        |i: int|
            if rows[i].state == RowState::AmbiguousCrash {
                completed_row(
                    rows[i],
                    RowState::FailedDeterministic,
                    responses[ambiguous_count(rows.subrange(0, i)) as int],
                    now,
                )
            } else {
                rows[i]
            },
    )
}

pub proof fn lemma_ambiguous_count_prefix(rows: Seq<RowView>, i: int)
    requires
        0 <= i <= rows.len(),
    ensures
        ambiguous_count(rows.subrange(0, i)) <= ambiguous_count(rows),
        i < rows.len() && rows[i].state == RowState::AmbiguousCrash ==> ambiguous_count(
            rows.subrange(0, i),
        ) < ambiguous_count(rows),
    decreases rows.len() - i,
{
    if i < rows.len() {
        lemma_ambiguous_count_prefix(rows, i + 1);
        assert(rows.subrange(0, i + 1).drop_last() =~= rows.subrange(0, i));
        assert(rows.subrange(0, i + 1).last() == rows[i]);
    } else {
        assert(rows.subrange(0, i) =~= rows);
    }
}

/// The interrupted executions of `rows`, in order, with their failure texts.
pub open spec fn ambiguous_list(rows: Seq<RowView>) -> Seq<(u128, u64, Seq<char>)>
    decreases rows.len(),
{
    if rows.len() == 0 {
        Seq::empty()
    } else {
        let prev = ambiguous_list(rows.drop_last());
        let r = rows.last();
        if r.state == RowState::AmbiguousCrash {
            prev.push((r.key, r.generation, ambiguous_message(r.command_kind, r.reconciliation)))
        } else {
            prev
        }
    }
}

/// An interrupted execution and the failure text it is settled with.
pub struct AmbiguousOutcome {
    pub key: u128,
    pub generation: u64,
    pub message: String,
}

pub proof fn lemma_stored_bytes_nonneg(rows: Seq<RowView>)
    ensures
        stored_bytes(rows) >= 0,
    decreases rows.len(),
{
    if rows.len() > 0 {
        lemma_stored_bytes_nonneg(rows.drop_last());
    }
}

pub proof fn lemma_last_match_none(rows: Seq<RowView>, key: u128, generation: u64)
    requires
        last_match(rows, key, generation) is None,
    ensures
        forall|i: int| 0 <= i < rows.len() ==> !same_key(#[trigger] rows[i], key, generation),
    decreases rows.len(),
{
    if rows.len() > 0 {
        lemma_last_match_none(rows.drop_last(), key, generation);
        assert forall|i: int| 0 <= i < rows.len() implies !same_key(#[trigger] rows[i], key, generation) by {
            if i < rows.len() - 1 {
                assert(rows[i] == rows.drop_last()[i]);
            }
        }
    }
}

impl RunnerDatabase {
    /// Reserves an idempotency key at the current time.
    pub fn reserve(&mut self, binding: &IdempotencyBinding) -> (result: Result<Reservation, String>)
        requires
            ledger_wf(old(self)@),
        ensures
            ledger_wf(final(self)@),
            exists|now: i64|
                reserve_step(old(self)@.rows, binding@, now) == (final(self)@.rows,
                reservation_outcome(result)),
            final(self)@.enrollment == old(self)@.enrollment,
            final(self)@.credential == old(self)@.credential,
    {
        let now = epoch_seconds();
        self.reserve_at(binding, now)
    }

    /// Reserves an idempotency key at `now`, exactly as `reserve_step`
    /// describes.
    pub fn reserve_at(&mut self, binding: &IdempotencyBinding, now: i64) -> (result: Result<
        Reservation,
        String,
    >)
        requires
            ledger_wf(old(self)@),
        ensures
            ledger_wf(final(self)@),
            reserve_step(old(self)@.rows, binding@, now) == (final(self)@.rows,
            reservation_outcome(result)),
            final(self)@.enrollment == old(self)@.enrollment,
            final(self)@.credential == old(self)@.credential,
            final(self)@.runner_id == old(self)@.runner_id,
            final(self)@.cert_fp == old(self)@.cert_fp,
    {
        let ghost rows = self@.rows;
        let ghost b = binding@;
        let cutoff = saturating_sub_i64(now, IDEMPOTENCY_TTL_SECONDS);
        let recent_cutoff = saturating_sub_i64(now, 60);
        let byte_limit: u64 = MAX_IDEMPOTENCY_BYTES - MAX_STORED_RESPONSE_BYTES as u64;
        let mut found: Option<usize> = None;
        let mut live: usize = 0;
        let mut bytes: u64 = 0;
        let mut recent: usize = 0;
        let mut i: usize = 0;
        let n = self.idempotency.len();
        while i < n
            invariant
                n == self.idempotency@.len(),
                rows == self@.rows,
                b == binding@,
                cutoff == sat_sub_i64(now, IDEMPOTENCY_TTL_SECONDS),
                recent_cutoff == sat_sub_i64(now, 60),
                byte_limit == MAX_IDEMPOTENCY_BYTES - MAX_STORED_RESPONSE_BYTES,
                i <= n,
                live == live_rows(rows.subrange(0, i as int), now).len(),
                live <= i,
                bytes <= byte_limit + 1,
                bytes == if stored_bytes(live_rows(rows.subrange(0, i as int), now)) > byte_limit {
                    byte_limit + 1
                } else {
                    stored_bytes(live_rows(rows.subrange(0, i as int), now))
                },
                recent == recent_count(live_rows(rows.subrange(0, i as int), now), b.generation, now),
                recent <= i,
                match found {
                    Some(k) => k < i && last_match(live_rows(rows.subrange(0, i as int), now), b.key,
                        b.generation) == Some(rows[k as int]),
                    None => last_match(live_rows(rows.subrange(0, i as int), now), b.key, b.generation)
                        is None,
                },
            decreases n - i,
        {
            let row = &self.idempotency[i];
            let ghost prefix = rows.subrange(0, i as int);
            let ghost next = rows.subrange(0, i + 1);
            proof {
                assert(next.drop_last() =~= prefix);
                assert(next.last() == rows[i as int]);
                assert(rows[i as int] == row@);
                lemma_stored_bytes_nonneg(live_rows(prefix, now));
            }
            if row.created_at > cutoff {
                live = live + 1;
                let weight: u64 = match &row.response {
                    Some(r) => if r.len() as u64 > byte_limit {
                        byte_limit + 1
                    } else {
                        r.len() as u64
                    },
                    None => MAX_STORED_RESPONSE_BYTES as u64,
                };
                if bytes + weight > byte_limit {
                    bytes = byte_limit + 1;
                } else {
                    bytes = bytes + weight;
                }
                if row.credential_generation == binding.credential_generation && row.created_at
                    > recent_cutoff {
                    recent = recent + 1;
                }
                if row.request_key == binding.key && row.credential_generation
                    == binding.credential_generation {
                    found = Some(i);
                }
                proof {
                    let lp = live_rows(prefix, now);
                    assert(live_rows(next, now) == lp.push(row@));
                    assert(lp.push(row@).drop_last() =~= lp);
                }
            } else {
                proof {
                    assert(live_rows(next, now) == live_rows(prefix, now));
                }
            }
            i = i + 1;
        }
        proof {
            assert(rows.subrange(0, n as int) =~= rows);
        }
        let ghost live_seq = live_rows(rows, now);
        match found {
            Some(k) => {
                let row = &self.idempotency[k];
                if row.protocol_version != binding.protocol_version || !crate::text::str_eq(
                    row.method.as_str(),
                    binding.method,
                ) || !crate::text::str_eq(row.path.as_str(), binding.normalized_path)
                    || !constant_time_eq(&row.body_digest, &binding.body_digest) {
                    return Ok(Reservation::Conflict);
                }
                match row.state {
                    RowState::Done | RowState::FailedDeterministic => {
                        match &row.response {
                            Some(r) => {
                                let copy = r.clone();
                                assert(copy@ =~= r@);
                                return Ok(Reservation::Replay(copy));
                            },
                            None => {
                                return Err(
                                    String::from_str("Idempotency terminal row has no response"),
                                );
                            },
                        }
                    },
                    _ => {
                        return Ok(Reservation::Pending);
                    },
                }
            },
            None => {},
        }
        if live >= MAX_IDEMPOTENCY_ROWS {
            return Err(String::from_str("quota: the durable idempotency row quota is full"));
        }
        if bytes > byte_limit {
            return Err(String::from_str("quota: the durable idempotency byte quota is full"));
        }
        if recent >= MAX_NEW_KEYS_PER_MINUTE {
            return Err(
                String::from_str("rate: too many new idempotency keys for this credential"),
            );
        }
        self.sweep_expired(now);
        let mut method = String::from_str(binding.method);
        let row = IdempotencyRow {
            request_key: binding.key,
            credential_generation: binding.credential_generation,
            protocol_version: binding.protocol_version,
            method,
            path: String::from_str(binding.normalized_path),
            body_digest: binding.body_digest,
            state: RowState::Pending,
            response: None,
            command_kind: String::from_str(binding.command_kind),
            reconciliation: String::from_str(binding.reconciliation),
            created_at: now,
            updated_at: now,
        };
        assert(row@ == new_row(b, now));
        let ghost before = self.idempotency@;
        self.idempotency.push(row);
        proof {
            let live_seq = live_rows(rows, now);
            let pushed = live_seq.push(new_row(b, now));
            assert(self.idempotency@.map_values(|r: IdempotencyRow| r@) =~= pushed);
            lemma_last_match_none(live_seq, b.key, b.generation);
            assert forall|x: int, y: int|
                0 <= x < pushed.len() && 0 <= y < pushed.len() && x != y implies !(pushed[x].key
                == pushed[y].key && pushed[x].generation == pushed[y].generation) by {
                if x < live_seq.len() && y < live_seq.len() {
                    assert(pushed[x] == live_seq[x]);
                    assert(pushed[y] == live_seq[y]);
                } else if x < live_seq.len() {
                    assert(pushed[x] == live_seq[x]);
                    assert(!same_key(live_seq[x], b.key, b.generation));
                } else {
                    assert(pushed[y] == live_seq[y]);
                    assert(!same_key(live_seq[y], b.key, b.generation));
                }
            }
        }
        Ok(Reservation::Execute)
    }
}

impl RunnerDatabase {
    /// Drops every row that has expired at `now`, keeping the others in order.
    fn sweep_expired(&mut self, now: i64)
        requires
            ledger_wf(old(self)@),
        ensures
            ledger_wf(final(self)@),
            final(self)@.rows == live_rows(old(self)@.rows, now),
            final(self)@.enrollment == old(self)@.enrollment,
            final(self)@.credential == old(self)@.credential,
            final(self)@.runner_id == old(self)@.runner_id,
            final(self)@.cert_fp == old(self)@.cert_fp,
    {
        let ghost orig = self@.rows;
        let cutoff = saturating_sub_i64(now, IDEMPOTENCY_TTL_SECONDS);
        let mut pending: Vec<IdempotencyRow> = Vec::new();
        core::mem::swap(&mut pending, &mut self.idempotency);
        let ghost orig_rows = pending@;
        assert(orig =~= orig_rows.map_values(|r: IdempotencyRow| r@));
        let n = pending.len();
        let mut i: usize = 0;
        let ghost mut idx: Seq<int> = Seq::empty();
        while i < n
            invariant
                n == orig.len(),
                orig == orig_rows.map_values(|r: IdempotencyRow| r@),
                unique_keys(orig),
                cutoff == sat_sub_i64(now, IDEMPOTENCY_TTL_SECONDS),
                i <= n,
                pending@ == orig_rows.subrange(i as int, n as int),
                self.idempotency@.map_values(|r: IdempotencyRow| r@) == live_rows(
                    orig.subrange(0, i as int),
                    now,
                ),
                idx.len() == self.idempotency@.len(),
                forall|a: int| 0 <= a < idx.len() ==> 0 <= #[trigger] idx[a] < i && orig[idx[a]]
                    == self.idempotency@[a]@,
                forall|a: int, c: int| 0 <= a < c < idx.len() ==> idx[a] < idx[c],
                self.runner_id == old(self).runner_id,
                self.certificate_fingerprint == old(self).certificate_fingerprint,
                enrollment_view(self.enrollment) == enrollment_view(old(self).enrollment),
                credential_view(self.credential) == credential_view(old(self).credential),
            decreases n - i,
        {
            let row = pending.remove(0);
            let ghost prefix = orig.subrange(0, i as int);
            let ghost next = orig.subrange(0, i + 1);
            proof {
                assert(next.drop_last() =~= prefix);
                assert(row == orig_rows[i as int]);
                assert(next.last() == row@);
                assert(pending@ =~= orig_rows.subrange(i + 1, n as int));
            }
            if row.created_at > cutoff {
                let ghost before = self.idempotency@;
                self.idempotency.push(row);
                proof {
                    idx = idx.push(i as int);
                    assert(self.idempotency@.map_values(|r: IdempotencyRow| r@) =~= before.map_values(
                        |r: IdempotencyRow| r@,
                    ).push(row@));
                }
            }
            i = i + 1;
        }
        proof {
            assert(orig.subrange(0, n as int) =~= orig);
            let kept = self.idempotency@.map_values(|r: IdempotencyRow| r@);
            assert forall|a: int, c: int|
                0 <= a < kept.len() && 0 <= c < kept.len() && a != c implies !(kept[a].key
                == kept[c].key && kept[a].generation == kept[c].generation) by {
                assert(kept[a] == orig[idx[a]]);
                assert(kept[c] == orig[idx[c]]);
                if a < c {
                    assert(idx[a] < idx[c]);
                } else {
                    assert(idx[c] < idx[a]);
                }
            }
        }
    }
}

impl RunnerDatabase {
    /// Drops the row bound to `(key, generation)`, keeping the others in order.
    fn remove_key(&mut self, key: u128, generation: u64)
        requires
            ledger_wf(old(self)@),
        ensures
            ledger_wf(final(self)@),
            final(self)@.rows == without_key(old(self)@.rows, key, generation),
            final(self)@.enrollment == old(self)@.enrollment,
            final(self)@.credential == old(self)@.credential,
            final(self)@.runner_id == old(self)@.runner_id,
            final(self)@.cert_fp == old(self)@.cert_fp,
    {
        let ghost orig = self@.rows;
        let mut pending: Vec<IdempotencyRow> = Vec::new();
        core::mem::swap(&mut pending, &mut self.idempotency);
        let ghost orig_rows = pending@;
        assert(orig =~= orig_rows.map_values(|r: IdempotencyRow| r@));
        let n = pending.len();
        let mut i: usize = 0;
        let ghost mut idx: Seq<int> = Seq::empty();
        while i < n
            invariant
                n == orig.len(),
                orig == orig_rows.map_values(|r: IdempotencyRow| r@),
                unique_keys(orig),
                i <= n,
                pending@ == orig_rows.subrange(i as int, n as int),
                self.idempotency@.map_values(|r: IdempotencyRow| r@) == without_key(
                    orig.subrange(0, i as int),
                    key,
                    generation,
                ),
                idx.len() == self.idempotency@.len(),
                forall|a: int| 0 <= a < idx.len() ==> 0 <= #[trigger] idx[a] < i && orig[idx[a]]
                    == self.idempotency@[a]@,
                forall|a: int, c: int| 0 <= a < c < idx.len() ==> idx[a] < idx[c],
                self.runner_id == old(self).runner_id,
                self.certificate_fingerprint == old(self).certificate_fingerprint,
                enrollment_view(self.enrollment) == enrollment_view(old(self).enrollment),
                credential_view(self.credential) == credential_view(old(self).credential),
            decreases n - i,
        {
            let row = pending.remove(0);
            let ghost prefix = orig.subrange(0, i as int);
            let ghost next = orig.subrange(0, i + 1);
            proof {
                assert(next.drop_last() =~= prefix);
                assert(row == orig_rows[i as int]);
                assert(next.last() == row@);
                assert(pending@ =~= orig_rows.subrange(i + 1, n as int));
            }
            if !(row.request_key == key && row.credential_generation == generation) {
                let ghost before = self.idempotency@;
                self.idempotency.push(row);
                proof {
                    idx = idx.push(i as int);
                    assert(self.idempotency@.map_values(|r: IdempotencyRow| r@) =~= before.map_values(
                        |r: IdempotencyRow| r@,
                    ).push(row@));
                }
            }
            i = i + 1;
        }
        proof {
            assert(orig.subrange(0, n as int) =~= orig);
            let kept = self.idempotency@.map_values(|r: IdempotencyRow| r@);
            assert forall|a: int, c: int|
                0 <= a < kept.len() && 0 <= c < kept.len() && a != c implies !(kept[a].key
                == kept[c].key && kept[a].generation == kept[c].generation) by {
                assert(kept[a] == orig[idx[a]]);
                assert(kept[c] == orig[idx[c]]);
                if a < c {
                    assert(idx[a] < idx[c]);
                } else {
                    assert(idx[c] < idx[a]);
                }
            }
        }
    }

    /// Records a command's serialized outcome at the current time.
    pub fn complete(
        &mut self,
        binding: &IdempotencyBinding,
        state: CompletionState,
        response: &[u8],
    ) -> (result: Result<(), String>)
        requires
            ledger_wf(old(self)@),
        ensures
            ledger_wf(final(self)@),
            exists|now: i64|
                complete_step(
                    old(self)@.rows,
                    binding.key,
                    binding.credential_generation,
                    state,
                    response@,
                    now,
                ) == (final(self)@.rows, completion_outcome(result)),
            final(self)@.enrollment == old(self)@.enrollment,
            final(self)@.credential == old(self)@.credential,
    {
        let now = epoch_seconds();
        self.complete_at(binding, state, response, now)
    }

    /// Records a command's serialized outcome at `now`, exactly as
    /// `complete_step` describes.
    pub fn complete_at(
        &mut self,
        binding: &IdempotencyBinding,
        state: CompletionState,
        response: &[u8],
        now: i64,
    ) -> (result: Result<(), String>)
        requires
            ledger_wf(old(self)@),
        ensures
            ledger_wf(final(self)@),
            complete_step(
                old(self)@.rows,
                binding.key,
                binding.credential_generation,
                state,
                response@,
                now,
            ) == (final(self)@.rows, completion_outcome(result)),
            final(self)@.enrollment == old(self)@.enrollment,
            final(self)@.credential == old(self)@.credential,
            final(self)@.runner_id == old(self)@.runner_id,
            final(self)@.cert_fp == old(self)@.cert_fp,
    {
        let key = binding.key;
        let generation = binding.credential_generation;
        if state == CompletionState::FailedTransient {
            self.remove_key(key, generation);
            return Ok(());
        }
        if response.len() > MAX_STORED_RESPONSE_BYTES {
            return Err(String::from_str("The command response exceeds the durable replay limit"));
        }
        let ghost rows = self@.rows;
        let n = self.idempotency.len();
        let mut i: usize = 0;
        while i < n
            invariant
                n == self.idempotency@.len(),
                rows == self@.rows,
                rows == old(self)@.rows,
                unique_keys(rows),
                state != CompletionState::FailedTransient,
                response@.len() <= MAX_STORED_RESPONSE_BYTES,
                key == binding.key,
                generation == binding.credential_generation,
                i <= n,
                forall|j: int| 0 <= j < i ==> !pending_match(rows[j], key, generation),
                self.runner_id == old(self).runner_id,
                self.certificate_fingerprint == old(self).certificate_fingerprint,
                enrollment_view(self.enrollment) == enrollment_view(old(self).enrollment),
                credential_view(self.credential) == credential_view(old(self).credential),
            decreases n - i,
        {
            let row = &self.idempotency[i];
            assert(rows[i as int] == row@);
            if row.request_key == key && row.credential_generation == generation && row.state
                == RowState::Pending {
                let old_row = self.idempotency.remove(i);
                let stored = match state {
                    CompletionState::Done => RowState::Done,
                    _ => RowState::FailedDeterministic,
                };
                let mut bytes: Vec<u8> = Vec::new();
                bytes.extend_from_slice(response);
                let updated = IdempotencyRow {
                    state: stored,
                    response: Some(bytes),
                    updated_at: now,
                    ..old_row
                };
                proof {
                    assert(bytes@ =~= response@);
                    assert(updated@ == completed_row(rows[i as int], stored_state(state), response@, now));
                    assert(pending_match(rows[i as int], key, generation));
                }
                self.idempotency.insert(i, updated);
                proof {
                    let target = Seq::new(
                        rows.len(),
                        |j: int|
                            if pending_match(rows[j], key, generation) {
                                completed_row(rows[j], stored_state(state), response@, now)
                            } else {
                                rows[j]
                            },
                    );
                    let now_rows = self.idempotency@.map_values(|r: IdempotencyRow| r@);
                    assert forall|j: int| 0 <= j < rows.len() implies now_rows[j] == target[j] by {
                        if j != i {
                            assert(!(rows[j].key == rows[i as int].key && rows[j].generation
                                == rows[i as int].generation));
                        }
                    }
                    assert(now_rows =~= target);
                    assert(complete_step(rows, key, generation, state, response@, now).0 =~= target);
                    assert forall|x: int, y: int|
                        0 <= x < now_rows.len() && 0 <= y < now_rows.len() && x != y implies !(
                        now_rows[x].key == now_rows[y].key && now_rows[x].generation
                            == now_rows[y].generation) by {
                        assert(now_rows[x].key == rows[x].key && now_rows[x].generation
                            == rows[x].generation);
                        assert(now_rows[y].key == rows[y].key && now_rows[y].generation
                            == rows[y].generation);
                    }
                }
                return Ok(());
            }
            i = i + 1;
        }
        Err(String::from_str("The idempotency reservation was not pending"))
    }

    /// Startup phase one: every pending execution becomes an explicit
    /// ambiguous crash, stamped with the current time. Returns how many.
    pub fn mark_interrupted_pending(&mut self) -> (count: usize)
        requires
            ledger_wf(old(self)@),
        ensures
            ledger_wf(final(self)@),
            exists|now: i64| final(self)@.rows == mark_step(old(self)@.rows, now),
            count == pending_count(old(self)@.rows),
            final(self)@.enrollment == old(self)@.enrollment,
            final(self)@.credential == old(self)@.credential,
    {
        let now = epoch_seconds();
        self.mark_interrupted_pending_at(now)
    }

    /// Marks every pending execution as an ambiguous crash at `now`.
    pub fn mark_interrupted_pending_at(&mut self, now: i64) -> (count: usize)
        requires
            ledger_wf(old(self)@),
        ensures
            ledger_wf(final(self)@),
            final(self)@.rows == mark_step(old(self)@.rows, now),
            count == pending_count(old(self)@.rows),
            final(self)@.enrollment == old(self)@.enrollment,
            final(self)@.credential == old(self)@.credential,
            final(self)@.runner_id == old(self)@.runner_id,
            final(self)@.cert_fp == old(self)@.cert_fp,
    {
        let ghost rows = self@.rows;
        let n = self.idempotency.len();
        let mut i: usize = 0;
        let mut count: usize = 0;
        while i < n
            invariant
                n == rows.len(),
                n == self.idempotency@.len(),
                i <= n,
                count == pending_count(rows.subrange(0, i as int)),
                count <= i,
                forall|j: int| 0 <= j < i ==> self.idempotency@[j]@ == mark_step(rows, now)[j],
                forall|j: int| i <= j < n ==> self.idempotency@[j]@ == rows[j],
                self.runner_id == old(self).runner_id,
                self.certificate_fingerprint == old(self).certificate_fingerprint,
                enrollment_view(self.enrollment) == enrollment_view(old(self).enrollment),
                credential_view(self.credential) == credential_view(old(self).credential),
            decreases n - i,
        {
            proof {
                assert(rows.subrange(0, i + 1).drop_last() =~= rows.subrange(0, i as int));
            }
            if self.idempotency[i].state == RowState::Pending {
                let old_row = self.idempotency.remove(i);
                let updated = IdempotencyRow {
                    state: RowState::AmbiguousCrash,
                    updated_at: now,
                    ..old_row
                };
                self.idempotency.insert(i, updated);
                count = count + 1;
            }
            i = i + 1;
        }
        proof {
            assert(rows.subrange(0, n as int) =~= rows);
            let now_rows = self.idempotency@.map_values(|r: IdempotencyRow| r@);
            assert(now_rows =~= mark_step(rows, now));
        }
        count
    }

    /// Startup phase two: settles every ambiguous execution with its
    /// serialized failure response (one per outcome of
    /// `ambiguous_outcomes`, in that order). Returns how many were settled.
    pub fn reconcile_ambiguous(&mut self, responses: &Vec<Vec<u8>>) -> (result: Result<usize, String>)
        requires
            ledger_wf(old(self)@),
        ensures
            ledger_wf(final(self)@),
            responses@.len() != ambiguous_count(old(self)@.rows) ==> (result matches Err(e) && e@
                == "The reconciliation outcomes do not match the ambiguous executions"@
                && final(self)@ == old(self)@),
            responses@.len() == ambiguous_count(old(self)@.rows) ==> (result matches Ok(n) && n
                == ambiguous_count(old(self)@.rows) && exists|now: i64|
                final(self)@.rows == reconcile_step(old(self)@.rows, byte_views(responses@), now)),
            final(self)@.enrollment == old(self)@.enrollment,
            final(self)@.credential == old(self)@.credential,
    {
        let mut count: usize = 0;
        let mut i: usize = 0;
        let ghost rows = self@.rows;
        while i < self.idempotency.len()
            invariant
                rows == self@.rows,
                i <= rows.len(),
                count == ambiguous_count(rows.subrange(0, i as int)),
                count <= i,
            decreases self.idempotency.len() - i,
        {
            proof {
                assert(rows.subrange(0, i + 1).drop_last() =~= rows.subrange(0, i as int));
                assert(rows.subrange(0, i + 1).last() == self.idempotency@[i as int]@);
            }
            if self.idempotency[i].state == RowState::AmbiguousCrash {
                count = count + 1;
            }
            i = i + 1;
        }
        proof {
            assert(rows.subrange(0, rows.len() as int) =~= rows);
        }
        if responses.len() != count {
            return Err(String::from_str("The reconciliation outcomes do not match the ambiguous executions"));
        }
        let now = epoch_seconds();
        let settled = self.reconcile_ambiguous_at(responses, now);
        Ok(settled)
    }

    /// Settles every ambiguous execution at `now`.
    pub fn reconcile_ambiguous_at(&mut self, responses: &Vec<Vec<u8>>, now: i64) -> (count: usize)
        requires
            ledger_wf(old(self)@),
            responses@.len() == ambiguous_count(old(self)@.rows),
        ensures
            ledger_wf(final(self)@),
            final(self)@.rows == reconcile_step(old(self)@.rows, byte_views(responses@), now),
            count == ambiguous_count(old(self)@.rows),
            final(self)@.enrollment == old(self)@.enrollment,
            final(self)@.credential == old(self)@.credential,
            final(self)@.runner_id == old(self)@.runner_id,
            final(self)@.cert_fp == old(self)@.cert_fp,
    {
        let ghost rows = self@.rows;
        let ghost bodies = byte_views(responses@);
        let n = self.idempotency.len();
        let mut i: usize = 0;
        let mut count: usize = 0;
        while i < n
            invariant
                n == rows.len(),
                n == self.idempotency@.len(),
                bodies == byte_views(responses@),
                responses@.len() == ambiguous_count(rows),
                i <= n,
                count == ambiguous_count(rows.subrange(0, i as int)),
                count <= i,
                forall|j: int| 0 <= j < i ==> self.idempotency@[j]@ == reconcile_step(rows, bodies, now)[j],
                forall|j: int| i <= j < n ==> self.idempotency@[j]@ == rows[j],
                self.runner_id == old(self).runner_id,
                self.certificate_fingerprint == old(self).certificate_fingerprint,
                enrollment_view(self.enrollment) == enrollment_view(old(self).enrollment),
                credential_view(self.credential) == credential_view(old(self).credential),
            decreases n - i,
        {
            proof {
                assert(rows.subrange(0, i + 1).drop_last() =~= rows.subrange(0, i as int));
                assert(rows.subrange(0, i + 1).last() == rows[i as int]);
                lemma_ambiguous_count_prefix(rows, i as int);
            }
            if self.idempotency[i].state == RowState::AmbiguousCrash {
                let old_row = self.idempotency.remove(i);
                let mut bytes: Vec<u8> = Vec::new();
                bytes.extend_from_slice(responses[count].as_slice());
                proof {
                    assert(bytes@ =~= bodies[count as int]);
                }
                let updated = IdempotencyRow {
                    state: RowState::FailedDeterministic,
                    response: Some(bytes),
                    updated_at: now,
                    ..old_row
                };
                self.idempotency.insert(i, updated);
                count = count + 1;
            }
            i = i + 1;
        }
        proof {
            assert(rows.subrange(0, n as int) =~= rows);
            let now_rows = self.idempotency@.map_values(|r: IdempotencyRow| r@);
            assert(now_rows =~= reconcile_step(rows, bodies, now));
        }
        count
    }

    /// The interrupted executions awaiting settlement, each with the failure
    /// text it is to be settled with, in row order.
    pub fn ambiguous_outcomes(&self) -> (outcomes: Vec<AmbiguousOutcome>)
        ensures
            outcomes@.map_values(|o: AmbiguousOutcome| (o.key, o.generation, o.message@))
                == ambiguous_list(self@.rows),
    {
        let ghost rows = self@.rows;
        let mut outcomes: Vec<AmbiguousOutcome> = Vec::new();
        let n = self.idempotency.len();
        let mut i: usize = 0;
        while i < n
            invariant
                n == rows.len(),
                rows == self@.rows,
                i <= n,
                outcomes@.map_values(|o: AmbiguousOutcome| (o.key, o.generation, o.message@))
                    == ambiguous_list(rows.subrange(0, i as int)),
            decreases n - i,
        {
            let row = &self.idempotency[i];
            proof {
                assert(rows[i as int] == row@);
                assert(rows.subrange(0, i + 1).drop_last() =~= rows.subrange(0, i as int));
            }
            if row.state == RowState::AmbiguousCrash {
                let mut message = String::from_str("The interrupted ");
                push_str(&mut message, row.command_kind.as_str());
                push_str(&mut message, " operation was reconciled against ");
                push_str(&mut message, row.reconciliation.as_str());
                push_str(&mut message, "; completion could not be proven");
                let ghost before = outcomes@;
                outcomes.push(
                    AmbiguousOutcome {
                        key: row.request_key,
                        generation: row.credential_generation,
                        message,
                    },
                );
                proof {
                    assert(outcomes@.map_values(|o: AmbiguousOutcome| (o.key, o.generation, o.message@))
                        =~= before.map_values(|o: AmbiguousOutcome| (o.key, o.generation, o.message@)).push(
                        (row.request_key, row.credential_generation, ambiguous_message(
                            row.command_kind@,
                            row.reconciliation@,
                        )),
                    ));
                }
            }
            i = i + 1;
        }
        proof {
            assert(rows.subrange(0, n as int) =~= rows);
        }
        outcomes
    }

    /// The answers the interrupted executions are settled with, in row
    /// order: each a failure of its request with the code
    /// `ambiguous_crash_reconciled` and its reconciliation text. Their
    /// serialized forms are what `reconcile_ambiguous` stores, so a replay of
    /// such a request answers with them.
    pub fn reconciliation_responses(&self) -> (responses: Vec<CommandResponse>)
        ensures
            responses@.len() == ambiguous_list(self@.rows).len(),
            forall|i: int|
                0 <= i < responses@.len() ==> {
                    let r = #[trigger] responses@[i];
                    &&& r.protocol_version == PROTOCOL_VERSION
                    &&& r.request_id == ambiguous_list(self@.rows)[i].0
                    &&& !r.ok
                    &&& r.result is None
                    &&& r.error matches Some(e) && e.code@ == "ambiguous_crash_reconciled"@ && e.message@
                        == ambiguous_list(self@.rows)[i].2
                },
    {
        let outcomes = self.ambiguous_outcomes();
        let ghost list = ambiguous_list(self@.rows);
        let mut responses: Vec<CommandResponse> = Vec::new();
        let mut i: usize = 0;
        while i < outcomes.len()
            invariant
                list == ambiguous_list(self@.rows),
                outcomes@.map_values(|o: AmbiguousOutcome| (o.key, o.generation, o.message@)) == list,
                i <= outcomes@.len(),
                responses@.len() == i,
                forall|j: int|
                    0 <= j < i ==> {
                        let r = #[trigger] responses@[j];
                        &&& r.protocol_version == PROTOCOL_VERSION
                        &&& r.request_id == list[j].0
                        &&& !r.ok
                        &&& r.result is None
                        &&& r.error matches Some(e) && e.code@ == "ambiguous_crash_reconciled"@ && e.message@
                            == list[j].2
                    },
            decreases outcomes.len() - i,
        {
            proof {
                assert(list[i as int] == (outcomes@[i as int].key, outcomes@[i as int].generation, outcomes@[
                    i as int].message@));
            }
            let response = CommandResponse::failure(
                outcomes[i].key,
                "ambiguous_crash_reconciled",
                outcomes[i].message.as_str(),
            );
            responses.push(response);
            i = i + 1;
        }
        proof {
            assert(outcomes@.len() == list.len());
        }
        responses
    }
}

/// The answer of a completion in the terms of `complete_step`.
pub open spec fn completion_outcome(result: Result<(), String>) -> Result<(), Seq<char>> {
    match result {
        Ok(()) => Ok(()),
        Err(e) => Err(e@),
    }
}

/// The answer of a reservation attempt in the terms of `reserve_step`.
pub open spec fn reservation_outcome(result: Result<Reservation, String>) -> Result<
    ReservationView,
    Seq<char>,
> {
    match result {
        Ok(r) => Ok(r@),
        Err(e) => Err(e@),
    }
}

} // verus!
