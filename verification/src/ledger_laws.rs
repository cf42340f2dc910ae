//! What the pairing and idempotency transitions guarantee across calls.
use vstd::prelude::*;
use crate::ledger::{
    ambiguous_count, authenticate_spec, complete_step, completed_row, expired, last_match,
    lemma_last_match_none, live_rows, mark_step, mint_step, new_row, reconcile_step, redeem_step,
    reserve_step, same_key, sat_sub_i64, stored_state, unique_keys, without_key, BindingView,
    CompletionState, LedgerView, RedeemError, ReservationView, RowState, RowView,
    ENROLLMENT_LIFETIME_SECONDS,
};
use crate::protocol::IDEMPOTENCY_TTL_SECONDS;

verus! {

/// A pairing code that is presented after its expiry is refused as expired
/// and consumed: any later attempt, with any code, finds nothing to redeem.
pub proof fn law_expired_code_is_consumed(
    l: LedgerView,
    candidate: Seq<u8>,
    now: i64,
    bearer_hash: Seq<u8>,
    later_candidate: Seq<u8>,
    later: i64,
    later_bearer_hash: Seq<u8>,
)
    requires
        l.enrollment matches Some(e) && e.expires_at <= now,
    ensures
        redeem_step(l, candidate, now, bearer_hash).1 == Err::<u64, RedeemError>(
            RedeemError::Expired,
        ),
        redeem_step(redeem_step(l, candidate, now, bearer_hash).0, later_candidate, later, later_bearer_hash).1
            == Err::<u64, RedeemError>(RedeemError::Unavailable),
{
}

/// A successful redemption consumes the pairing code: of two redemptions of
/// one code, at most one wins.
pub proof fn law_redemption_has_one_winner(
    l: LedgerView,
    candidate: Seq<u8>,
    now: i64,
    bearer_hash: Seq<u8>,
    second_candidate: Seq<u8>,
    second_now: i64,
    second_bearer_hash: Seq<u8>,
)
    requires
        redeem_step(l, candidate, now, bearer_hash).1 is Ok,
    ensures
        redeem_step(redeem_step(l, candidate, now, bearer_hash).0, second_candidate, second_now, second_bearer_hash)
            == (redeem_step(l, candidate, now, bearer_hash).0, Err::<u64, RedeemError>(
            RedeemError::Unavailable,
        )),
{
}

/// A refused redemption never touches the active credential: a failed
/// rotation attempt leaves the current bearer valid.
pub proof fn law_refusal_keeps_the_bearer(
    l: LedgerView,
    candidate: Seq<u8>,
    now: i64,
    bearer_hash: Seq<u8>,
    presented: Seq<u8>,
)
    requires
        redeem_step(l, candidate, now, bearer_hash).1 is Err,
    ensures
        redeem_step(l, candidate, now, bearer_hash).0.credential == l.credential,
        authenticate_spec(redeem_step(l, candidate, now, bearer_hash).0, presented)
            == authenticate_spec(l, presented),
{
}

/// The fifth wrong code revokes a pairing code: four wrong attempts are
/// answered with 4, 3, 2 and 1 attempts remaining, the fifth with
/// revocation, and the right code is then refused as unavailable.
pub proof fn law_fifth_failure_revokes(
    l: LedgerView,
    rotate: bool,
    minted_at: i64,
    code_hash: Seq<u8>,
    wrong: Seq<u8>,
    now: i64,
    bearer_hash: Seq<u8>,
)
    requires
        mint_step(l, rotate, minted_at, code_hash) is Ok,
        code_hash.len() == 32,
        wrong != code_hash,
        now < minted_at + ENROLLMENT_LIFETIME_SECONDS,
    ensures
        ({
            let s0 = mint_step(l, rotate, minted_at, code_hash)->Ok_0;
            let r1 = redeem_step(s0, wrong, now, bearer_hash);
            let r2 = redeem_step(r1.0, wrong, now, bearer_hash);
            let r3 = redeem_step(r2.0, wrong, now, bearer_hash);
            let r4 = redeem_step(r3.0, wrong, now, bearer_hash);
            let r5 = redeem_step(r4.0, wrong, now, bearer_hash);
            let r6 = redeem_step(r5.0, code_hash, now, bearer_hash);
            &&& r1.1 == Err::<u64, RedeemError>(RedeemError::Rejected { attempts_remaining: 4 })
            &&& r2.1 == Err::<u64, RedeemError>(RedeemError::Rejected { attempts_remaining: 3 })
            &&& r3.1 == Err::<u64, RedeemError>(RedeemError::Rejected { attempts_remaining: 2 })
            &&& r4.1 == Err::<u64, RedeemError>(RedeemError::Rejected { attempts_remaining: 1 })
            &&& r5.1 == Err::<u64, RedeemError>(RedeemError::Revoked)
            &&& r6.1 == Err::<u64, RedeemError>(RedeemError::Unavailable)
            &&& r6.0.credential == l.credential
        }),
{
}

/// Rotation is a hard cutover: redeeming a rotation code issues generation
/// n + 1, after which exactly the new bearer authenticates; the old bearer
/// does only if its hash equals the new one.
pub proof fn law_rotation_is_a_hard_cutover(
    l: LedgerView,
    candidate: Seq<u8>,
    now: i64,
    bearer_hash: Seq<u8>,
    presented: Seq<u8>,
)
    requires
        l.credential is Some,
        l.credential->0.generation < u64::MAX,
        bearer_hash.len() == 32,
        redeem_step(l, candidate, now, bearer_hash).1 is Ok,
    ensures
        redeem_step(l, candidate, now, bearer_hash).1 == Ok::<u64, RedeemError>(
            (l.credential->0.generation + 1) as u64,
        ),
        authenticate_spec(redeem_step(l, candidate, now, bearer_hash).0, presented) == if presented
            == bearer_hash {
            Some((l.credential->0.generation + 1) as u64)
        } else {
            None
        },
{
}

/// Minting supersedes: the fresh code is the only one outstanding, with a
/// full allowance of attempts, so a code minted earlier is refused unless it
/// hashes alike.
pub proof fn law_new_code_supersedes_the_old(
    l: LedgerView,
    rotate: bool,
    minted_at: i64,
    code_hash: Seq<u8>,
    old_code_hash: Seq<u8>,
    now: i64,
    bearer_hash: Seq<u8>,
)
    requires
        mint_step(l, rotate, minted_at, code_hash) is Ok,
        code_hash.len() == 32,
        old_code_hash != code_hash,
        now < minted_at + ENROLLMENT_LIFETIME_SECONDS,
    ensures
        redeem_step(mint_step(l, rotate, minted_at, code_hash)->Ok_0, old_code_hash, now, bearer_hash).1
            == Err::<u64, RedeemError>(RedeemError::Rejected { attempts_remaining: 4 }),
{
}

pub proof fn lemma_live_rows_push(rows: Seq<RowView>, r: RowView, now: i64)
    ensures
        live_rows(rows.push(r), now) == if expired(r, now) {
            live_rows(rows, now)
        } else {
            live_rows(rows, now).push(r)
        },
{
    assert(rows.push(r).drop_last() =~= rows);
}

pub proof fn lemma_last_match_push(rows: Seq<RowView>, r: RowView, key: u128, generation: u64)
    ensures
        last_match(rows.push(r), key, generation) == if same_key(r, key, generation) {
            Some(r)
        } else {
            last_match(rows, key, generation)
        },
{
    assert(rows.push(r).drop_last() =~= rows);
}

/// Reserving twice: once a key is reserved for execution, the same request
/// at the same moment waits on the pending execution instead of running a
/// second copy.
pub proof fn law_reservation_has_one_executor(rows: Seq<RowView>, b: BindingView, now: i64)
    requires
        now > i64::MIN + IDEMPOTENCY_TTL_SECONDS,
        reserve_step(rows, b, now).1 == Ok::<ReservationView, Seq<char>>(ReservationView::Execute),
    ensures
        reserve_step(reserve_step(rows, b, now).0, b, now) == (reserve_step(rows, b, now).0, Ok::<
            ReservationView,
            Seq<char>,
        >(ReservationView::Pending)),
{
    let live = live_rows(rows, now);
    let r1 = reserve_step(rows, b, now).0;
    assert(r1 == live.push(new_row(b, now)));
    lemma_live_rows_push(live, new_row(b, now), now);
    lemma_last_match_push(live_rows(live, now), new_row(b, now), b.key, b.generation);
}

/// A key rebound to a different request (protocol version, method, path or
/// body digest) is refused as a conflict while its row lives.
pub proof fn law_rebinding_a_key_conflicts(
    rows: Seq<RowView>,
    b: BindingView,
    other: BindingView,
    now: i64,
)
    requires
        now > i64::MIN + IDEMPOTENCY_TTL_SECONDS,
        reserve_step(rows, b, now).1 == Ok::<ReservationView, Seq<char>>(ReservationView::Execute),
        other.key == b.key,
        other.generation == b.generation,
        other.version != b.version || other.method != b.method || other.path != b.path
            || other.digest != b.digest,
    ensures
        reserve_step(reserve_step(rows, b, now).0, other, now).1 == Ok::<ReservationView, Seq<char>>(
            ReservationView::Conflict,
        ),
{
    let live = live_rows(rows, now);
    lemma_live_rows_push(live, new_row(b, now), now);
    lemma_last_match_push(live_rows(live, now), new_row(b, now), b.key, b.generation);
}

/// Exactly-once replay: after a reservation executes and its terminal
/// outcome is recorded, the same request within the idempotency lifetime is
/// answered with the stored response, byte for byte.
pub proof fn law_terminal_outcome_replays(
    rows: Seq<RowView>,
    b: BindingView,
    now: i64,
    state: CompletionState,
    bytes: Seq<u8>,
    completed_at: i64,
    later: i64,
)
    requires
        unique_keys(rows),
        now > i64::MIN + IDEMPOTENCY_TTL_SECONDS,
        now > sat_sub_i64(later, IDEMPOTENCY_TTL_SECONDS),
        state != CompletionState::FailedTransient,
        reserve_step(rows, b, now).1 == Ok::<ReservationView, Seq<char>>(ReservationView::Execute),
        complete_step(reserve_step(rows, b, now).0, b.key, b.generation, state, bytes, completed_at).1
            == Ok::<(), Seq<char>>(()),
    ensures
        ({
            let r2 = complete_step(
                reserve_step(rows, b, now).0,
                b.key,
                b.generation,
                state,
                bytes,
                completed_at,
            ).0;
            reserve_step(r2, b, later) == (r2, Ok::<ReservationView, Seq<char>>(
                ReservationView::Replay(bytes),
            ))
        }),
{
    let live = live_rows(rows, now);
    let r1 = reserve_step(rows, b, now).0;
    assert(r1 == live.push(new_row(b, now)));
    lemma_last_match_none(live, b.key, b.generation);
    let r2 = complete_step(r1, b.key, b.generation, state, bytes, completed_at).0;
    let done = completed_row(new_row(b, now), stored_state(state), bytes, completed_at);
    assert(r2.len() == r1.len());
    assert(r2.last() == done);
    assert(r2 =~= r2.drop_last().push(done));
    lemma_live_rows_push(r2.drop_last(), done, later);
    lemma_last_match_push(live_rows(r2.drop_last(), later), done, b.key, b.generation);
}

/// A transient failure releases the key: afterwards no row is bound to it,
/// so the same request is a fresh reservation (subject only to the quotas).
pub proof fn law_transient_failure_releases_the_key(
    rows: Seq<RowView>,
    b: BindingView,
    bytes: Seq<u8>,
    completed_at: i64,
    later: i64,
)
    ensures
        ({
            let r2 = complete_step(
                rows,
                b.key,
                b.generation,
                CompletionState::FailedTransient,
                bytes,
                completed_at,
            ).0;
            &&& forall|i: int| 0 <= i < r2.len() ==> !same_key(#[trigger] r2[i], b.key, b.generation)
            &&& reserve_step(r2, b, later).1 matches Ok(r) ==> r == ReservationView::Execute
        }),
{
    lemma_without_key(rows, b.key, b.generation);
    let r2 = without_key(rows, b.key, b.generation);
    lemma_live_none(r2, later, b.key, b.generation);
}

pub proof fn lemma_without_key(rows: Seq<RowView>, key: u128, generation: u64)
    ensures
        forall|i: int|
            0 <= i < without_key(rows, key, generation).len() ==> !same_key(
                #[trigger] without_key(rows, key, generation)[i],
                key,
                generation,
            ),
    decreases rows.len(),
{
    if rows.len() > 0 {
        let prev = without_key(rows.drop_last(), key, generation);
        lemma_without_key(rows.drop_last(), key, generation);
        if !same_key(rows.last(), key, generation) {
            assert forall|i: int| 0 <= i < prev.push(rows.last()).len() implies !same_key(
                #[trigger] prev.push(rows.last())[i],
                key,
                generation,
            ) by {
                if i < prev.len() {
                    assert(prev.push(rows.last())[i] == prev[i]);
                }
            }
        }
    }
}

pub proof fn lemma_live_none(rows: Seq<RowView>, now: i64, key: u128, generation: u64)
    requires
        forall|i: int| 0 <= i < rows.len() ==> !same_key(#[trigger] rows[i], key, generation),
    ensures
        last_match(live_rows(rows, now), key, generation) is None,
    decreases rows.len(),
{
    if rows.len() > 0 {
        let prev = rows.drop_last();
        assert forall|i: int| 0 <= i < prev.len() implies !same_key(#[trigger] prev[i], key, generation) by {
            assert(prev[i] == rows[i]);
        }
        lemma_live_none(prev, now, key, generation);
        assert(!same_key(rows[rows.len() - 1], key, generation));
        lemma_last_match_push(live_rows(prev, now), rows.last(), key, generation);
    }
}

/// An expired key is a new request: once every row bound to a key has
/// outlived the idempotency lifetime, its request reserves afresh (subject
/// only to the quotas).
pub proof fn law_expired_key_is_a_new_request(rows: Seq<RowView>, b: BindingView, now: i64)
    requires
        forall|i: int| 0 <= i < rows.len() && same_key(#[trigger] rows[i], b.key, b.generation)
            ==> expired(rows[i], now),
    ensures
        reserve_step(rows, b, now).1 matches Ok(r) ==> r == ReservationView::Execute,
{
    lemma_live_of_expired(rows, now, b.key, b.generation);
}

pub proof fn lemma_live_of_expired(rows: Seq<RowView>, now: i64, key: u128, generation: u64)
    requires
        forall|i: int| 0 <= i < rows.len() && same_key(#[trigger] rows[i], key, generation)
            ==> expired(rows[i], now),
    ensures
        last_match(live_rows(rows, now), key, generation) is None,
    decreases rows.len(),
{
    if rows.len() > 0 {
        let prev = rows.drop_last();
        assert forall|i: int| 0 <= i < prev.len() && same_key(#[trigger] prev[i], key, generation)
            implies expired(prev[i], now) by {
            assert(prev[i] == rows[i]);
        }
        lemma_live_of_expired(prev, now, key, generation);
        assert(same_key(rows[rows.len() - 1], key, generation) ==> expired(rows[rows.len() - 1], now));
        lemma_last_match_push(live_rows(prev, now), rows.last(), key, generation);
    }
}

/// An execution a crash interrupted is never run twice: once startup has
/// marked it, the same request within the idempotency lifetime waits
/// instead of executing, and once it is reconciled the request is answered
/// with the reconciliation's response.
pub proof fn law_interrupted_execution_is_not_rerun(
    rows: Seq<RowView>,
    b: BindingView,
    now: i64,
    marked_at: i64,
    responses: Seq<Seq<u8>>,
    reconciled_at: i64,
    later: i64,
)
    requires
        now > i64::MIN + IDEMPOTENCY_TTL_SECONDS,
        now > sat_sub_i64(later, IDEMPOTENCY_TTL_SECONDS),
        reserve_step(rows, b, now).1 == Ok::<ReservationView, Seq<char>>(ReservationView::Execute),
        responses.len() == ambiguous_count(mark_step(reserve_step(rows, b, now).0, marked_at)),
    ensures
        ({
            let marked = mark_step(reserve_step(rows, b, now).0, marked_at);
            let settled = reconcile_step(marked, responses, reconciled_at);
            &&& reserve_step(marked, b, later) == (marked, Ok::<ReservationView, Seq<char>>(
                ReservationView::Pending,
            ))
            &&& reserve_step(settled, b, later) == (settled, Ok::<ReservationView, Seq<char>>(
                ReservationView::Replay(responses[ambiguous_count(marked.drop_last()) as int]),
            ))
        }),
{
    let live = live_rows(rows, now);
    let r1 = reserve_step(rows, b, now).0;
    assert(r1 == live.push(new_row(b, now)));
    let marked = mark_step(r1, marked_at);
    let n = r1.len() as int;
    let crashed = RowView { state: RowState::AmbiguousCrash, updated_at: marked_at, ..new_row(b, now) };
    assert(marked.len() == n);
    assert(marked[n - 1] == crashed);
    assert(marked =~= marked.drop_last().push(crashed));
    lemma_live_rows_push(marked.drop_last(), crashed, later);
    lemma_last_match_push(live_rows(marked.drop_last(), later), crashed, b.key, b.generation);

    let k = ambiguous_count(marked.drop_last());
    assert(ambiguous_count(marked) == k + 1);
    let settled = reconcile_step(marked, responses, reconciled_at);
    assert(marked.subrange(0, n - 1) =~= marked.drop_last());
    let done = completed_row(crashed, RowState::FailedDeterministic, responses[k as int], reconciled_at);
    assert(settled.len() == n);
    assert(settled[n - 1] == done);
    assert(settled =~= settled.drop_last().push(done));
    lemma_live_rows_push(settled.drop_last(), done, later);
    lemma_last_match_push(live_rows(settled.drop_last(), later), done, b.key, b.generation);
}

} // verus!
