//! Properties of the contract that span its entry points, proved over the
//! specifications that the entry points' own `ensures` use.

use vstd::prelude::*;
use soroban_sdk::Address;
use crate::circle::{
    cancel_result, claim_admissible, claim_decision, claim_result, external_nullifier_of, fits_i128,
    fund_result, new_circle, next_id, round_refusal, CircleView, Error,
};
use crate::fee::{div_trunc, fee_of};
use crate::groth16::{ProofView, VerificationKeyView};

verus! {

/// On the documented domain (`amount >= 0`, `fee_bps <= 10_000`) the fee split
/// is defined (nothing overflows) and the fee lies between 0 and `amount`.
pub proof fn lemma_fee_defined_on_valid_range(fee_bps: u32, amount: i128)
    requires
        0 <= amount,
        fee_bps <= 10_000,
    ensures
        fits_i128(fee_of(fee_bps, amount)),
        fits_i128(amount - fee_of(fee_bps, amount)),
        0 <= fee_of(fee_bps, amount) <= amount,
{
    let p = fee_bps * amount;
    assert(0 <= p <= 10_000 * amount) by (nonlinear_arith)
        requires
            0 <= amount,
            0 <= fee_bps <= 10_000,
            p == fee_bps * amount,
    ;
    assert(div_trunc(p, 10_000) == p / 10_000);
    assert(p / 10_000 <= amount) by {
        vstd::arithmetic::div_mod::lemma_div_is_ordered(p, 10_000 * amount, 10_000);
        vstd::arithmetic::div_mod::lemma_div_multiples_vanish(amount as int, 10_000);
    }
    assert(p / 10_000 >= 0) by {
        vstd::arithmetic::div_mod::lemma_div_pos_is_pos(p, 10_000);
    }
}

/// A newly created circle is well formed.
pub proof fn lemma_new_circle_well_formed(
    admin: Address,
    token: Address,
    root: Seq<u8>,
    contribution: i128,
    size: u32,
    vk: VerificationKeyView,
)
    ensures
        new_circle(admin, token, root, contribution, size, vk).well_formed(),
{
}

/// A deposit keeps a circle well formed, adds exactly one contribution to the
/// pot, records the depositor last, and never takes the pot past its target.
pub proof fn lemma_fund_keeps_well_formed(c: CircleView, from: Address)
    requires
        c.well_formed(),
        fund_result(Some(c), from) is Ok,
    ensures
        fund_result(Some(c), from)->Ok_0.well_formed(),
        fund_result(Some(c), from)->Ok_0.pot == c.pot + c.contribution,
        fund_result(Some(c), from)->Ok_0.contributors == c.contributors.push(from),
        fund_result(Some(c), from)->Ok_0.pot <= c.target(),
{
    let n = c.contributors.len();
    let k = c.contribution;
    let s = c.size;
    assert(c.contribution * (n + 1) == c.contribution * n + c.contribution) by (nonlinear_arith);
    assert(n + 1 <= s && k * (n + 1) <= k * s) by (nonlinear_arith)
        requires
            k * n < k * s,
            n <= s,
            0 <= n,
    ;
}

/// A successful claim pays out exactly `contribution * size` and leaves a well
/// formed circle with an empty pot, no contributors and the next round.
pub proof fn lemma_claim_keeps_well_formed(
    c: CircleView,
    nullifier: Seq<u8>,
    external: Seq<u8>,
    expected: Seq<u8>,
    proof_ok: bool,
)
    requires
        c.well_formed(),
        c.round < u32::MAX,
        claim_decision(Some(c), nullifier, external, expected, proof_ok) is Ok,
    ensures
        ({
            let (after, payout) = claim_decision(Some(c), nullifier, external, expected, proof_ok)->Ok_0;
            &&& after.well_formed()
            &&& payout == c.target()
            &&& after.pot == 0
            &&& after.round == c.round + 1
            &&& after.contributors.len() == 0
        }),
{
    let size = c.size as int;
    assert(c.contribution * 0 == 0) by (nonlinear_arith);
}

/// Cancelling refunds every current contributor exactly one contribution, in
/// the order they deposited, and the refunds add up to the pot. The circle is
/// left closed, empty and well formed.
pub proof fn lemma_cancel_refunds_the_pot(c: CircleView)
    requires
        c.well_formed(),
        cancel_result(Some(c)) is Ok,
    ensures
        ({
            let (after, refund_to, amount) = cancel_result(Some(c))->Ok_0;
            &&& refund_to == c.contributors
            &&& amount == c.contribution
            &&& refund_to.len() * amount == c.pot
            &&& after.cancelled
            &&& after.pot == 0
            &&& after.well_formed()
        }),
{
    assert(c.contributors.len() * c.contribution == c.contribution * c.contributors.len())
        by (nonlinear_arith);
    assert(c.contribution * 0 == 0) by (nonlinear_arith);
}

/// A cancelled circle refuses every further deposit, claim and cancellation
/// with `CircleCancelled`, whatever the tag, the nullifier and the proof.
pub proof fn lemma_cancelled_circle_is_closed(
    circle_id: u64,
    c: CircleView,
    from: Address,
    nullifier: Seq<u8>,
    external: Seq<u8>,
    proof: ProofView,
)
    requires
        c.cancelled,
    ensures
        fund_result(Some(c), from) == Err::<CircleView, Error>(Error::CircleCancelled),
        claim_result(circle_id, Some(c), nullifier, external, proof) == Err::<
            (CircleView, i128),
            Error,
        >(Error::CircleCancelled),
        claim_admissible(circle_id, Some(c), nullifier, external, proof),
        cancel_result(Some(c)) == Err::<(CircleView, Seq<Address>, i128), Error>(
            Error::CircleCancelled,
        ),
{
}

/// Nullifiers are never forgotten: a deposit and a cancellation keep the list
/// as it is, and a claim appends its own nullifier.
pub proof fn lemma_nullifiers_persist(
    c: CircleView,
    from: Address,
    nullifier: Seq<u8>,
    external: Seq<u8>,
    expected: Seq<u8>,
    proof_ok: bool,
)
    ensures
        fund_result(Some(c), from) is Ok ==> fund_result(Some(c), from)->Ok_0.nullifiers
            == c.nullifiers,
        cancel_result(Some(c)) is Ok ==> cancel_result(Some(c))->Ok_0.0.nullifiers
            == c.nullifiers,
        claim_decision(Some(c), nullifier, external, expected, proof_ok) is Ok ==> claim_decision(
            Some(c),
            nullifier,
            external,
            expected,
            proof_ok,
        )->Ok_0.0.nullifiers == c.nullifiers.push(nullifier),
{
}

/// A nullifier recorded on a circle never pays again, whatever the tag and the
/// proof: the claim is refused, with `AlreadyClaimed` once the round is ready
/// and the tag matches.
pub proof fn lemma_spent_nullifier_never_pays(
    c: CircleView,
    nullifier: Seq<u8>,
    external: Seq<u8>,
    expected: Seq<u8>,
    proof_ok: bool,
)
    requires
        c.has_nullifier(nullifier),
    ensures
        claim_decision(Some(c), nullifier, external, expected, proof_ok) is Err,
        round_refusal(c) is None && external == expected ==> claim_decision(
            Some(c),
            nullifier,
            external,
            expected,
            proof_ok,
        ) == Err::<(CircleView, i128), Error>(Error::AlreadyClaimed),
{
}

/// After a successful claim the nullifier is recorded, so the same nullifier
/// can never claim on that circle again.
pub proof fn lemma_claim_spends_nullifier(
    c: CircleView,
    nullifier: Seq<u8>,
    external: Seq<u8>,
    expected: Seq<u8>,
    proof_ok: bool,
    external2: Seq<u8>,
    expected2: Seq<u8>,
    proof_ok2: bool,
)
    requires
        claim_decision(Some(c), nullifier, external, expected, proof_ok) is Ok,
    ensures
        ({
            let after = claim_decision(Some(c), nullifier, external, expected, proof_ok)->Ok_0.0;
            &&& after.has_nullifier(nullifier)
            &&& claim_decision(Some(after), nullifier, external2, expected2, proof_ok2) is Err
        }),
{
    let after = claim_decision(Some(c), nullifier, external, expected, proof_ok)->Ok_0.0;
    assert(after.nullifiers[after.nullifiers.len() - 1] == nullifier);
}

/// `has_claimed` answers exactly the nullifier check of `claim`: on a circle
/// whose round is ready, with the tag of its circle and round, a claim is
/// refused with `AlreadyClaimed` precisely when the nullifier is recorded,
/// whatever the proof; and a recorded nullifier never reaches the proof, so
/// such a claim always runs to that answer.
pub proof fn lemma_has_claimed_matches_claim_check(
    circle_id: u64,
    c: CircleView,
    nullifier: Seq<u8>,
    proof: ProofView,
)
    requires
        round_refusal(c) is None,
    ensures
        ({
            let external = external_nullifier_of(circle_id, c.round);
            &&& (claim_result(circle_id, Some(c), nullifier, external, proof) == Err::<
                (CircleView, i128),
                Error,
            >(Error::AlreadyClaimed)) <==> c.has_nullifier(nullifier)
            &&& c.has_nullifier(nullifier) ==> claim_admissible(
                circle_id,
                Some(c),
                nullifier,
                external,
                proof,
            )
        }),
{
}

/// A claim only succeeds with the external nullifier of its own circle and
/// current round; it then moves the circle to the next round, whose tag is
/// that of `(circle_id, round + 1)`.
pub proof fn lemma_claim_bound_to_round(
    circle_id: u64,
    c: CircleView,
    nullifier: Seq<u8>,
    external: Seq<u8>,
    proof: ProofView,
)
    requires
        c.round < u32::MAX,
        claim_result(circle_id, Some(c), nullifier, external, proof) is Ok,
    ensures
        external == external_nullifier_of(circle_id, c.round),
        claim_result(circle_id, Some(c), nullifier, external, proof)->Ok_0.0.round == c.round + 1,
{
}

/// After a payout the next round starts empty: unless its target is zero, a
/// claim right away is refused with `RoundNotFunded`.
pub proof fn lemma_claimed_round_needs_new_funding(
    c: CircleView,
    nullifier: Seq<u8>,
    external: Seq<u8>,
    expected: Seq<u8>,
    proof_ok: bool,
    nullifier2: Seq<u8>,
    external2: Seq<u8>,
    expected2: Seq<u8>,
    proof_ok2: bool,
)
    requires
        claim_decision(Some(c), nullifier, external, expected, proof_ok) is Ok,
        c.target() != 0,
    ensures
        claim_decision(
            Some(claim_decision(Some(c), nullifier, external, expected, proof_ok)->Ok_0.0),
            nullifier2,
            external2,
            expected2,
            proof_ok2,
        ) == Err::<(CircleView, i128), Error>(Error::RoundNotFunded),
{
}

/// A deposit on a round whose pot already holds the target is refused with
/// `RoundFull` and changes nothing, so the pot can never exceed the target.
pub proof fn lemma_full_round_refuses_deposits(c: CircleView, from: Address)
    requires
        !c.cancelled,
        fits_i128(c.target()),
        c.pot >= c.target(),
    ensures
        fund_result(Some(c), from) == Err::<CircleView, Error>(Error::RoundFull),
{
}

/// Circle ids are handed out in sequence: creating a circle assigns the
/// current count as its id, and the count read afterwards is one more, so no
/// two creations share an id.
pub proof fn lemma_ids_are_sequential(counter: Option<u64>)
    requires
        next_id(counter) < u64::MAX,
    ensures
        next_id(Some((next_id(counter) + 1) as u64)) == next_id(counter) + 1,
        next_id(Some((next_id(counter) + 1) as u64)) != next_id(counter),
{
}

} // verus!
