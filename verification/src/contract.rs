//! The contract's entry points as functions from the stored state and the
//! call's arguments to the new state and the token movements to make.
//!
//! Reading and writing storage, checking authorization and moving tokens are
//! the caller's part; every decision is here.

use vstd::prelude::*;
use soroban_sdk::{Address, Env};
use crate::circle::{
    cancel_result, claim_admissible, claim_decision, claim_inputs, claim_result,
    external_nullifier_of, fund_result, new_circle, next_id, pot_target, round_refusal, settled,
    stored_view, Circle, CircleView, Error,
};
use crate::encoding::round_tag_preimage;
use crate::groth16::{Proof, VerificationKey};
use crate::host::{address_list, empty_address_list, push_address, sha256};
use crate::scalar::{contains_scalar, scalar_views, Scalar};

verus! {

/// The contribution-circle contract.
///
/// Lifecycle: `create_circle` commits a member root, a fixed contribution and
/// size, and a Groth16 key; `fund` deposits one contribution at a time until
/// the pot holds `contribution * size`; `claim` pays the whole pot to the
/// holder of a valid membership proof and advances the round;
/// `cancel_circle` refunds the current round and closes the circle.
pub struct Contract;

/// The views of `(circle, x)` pairs of a result.
pub open spec fn paired_view<T>(r: Result<(Circle, T), Error>) -> Result<(CircleView, T), Error> {
    match r {
        Ok((c, x)) => Ok((c@, x)),
        Err(e) => Err(e),
    }
}

/// The view of a circle result.
pub open spec fn circle_view(r: Result<Circle, Error>) -> Result<CircleView, Error> {
    match r {
        Ok(c) => Ok(c@),
        Err(e) => Err(e),
    }
}

impl Contract {
    /// Creates a circle. Given the stored id counter, returns the id assigned
    /// (the counter, or 0 when none is stored), the circle to store under it,
    /// and the new counter value.
    pub fn create_circle(
        env: &Env,
        next_circle_id: Option<u64>,
        admin: Address,
        token: Address,
        root: Scalar,
        contribution: i128,
        size: u32,
        vk: VerificationKey,
    ) -> (created: (u64, Circle, u64))
        requires
            next_id(next_circle_id) < u64::MAX,
        ensures
            created.0 == next_id(next_circle_id),
            created.1@ == new_circle(admin, token, root@, contribution, size, vk@),
            created.2 == created.0 + 1,
    {
        let circle_id: u64 = match next_circle_id {
            Some(n) => n,
            None => 0,
        };
        let circle = Circle {
            admin,
            token,
            root,
            contribution,
            size,
            round: 0,
            pot: 0,
            vk,
            contributors: empty_address_list(env),
            nullifiers: Vec::new(),
            cancelled: false,
        };
        assert(circle@ =~= new_circle(circle.admin, circle.token, root@, contribution, size, circle.vk@));
        (circle_id, circle, circle_id + 1)
    }

    /// Deposits one contribution from `from` into the stored circle's pot.
    /// On success, the circle to store; the caller moves `contribution` tokens
    /// from `from` to the contract.
    pub fn fund(stored: Option<Circle>, from: Address) -> (result: Result<Circle, Error>)
        ensures
            circle_view(result) == fund_result(stored_view(stored), from),
    {
        let mut c = match stored {
            None => return Err(Error::CircleNotFound),
            Some(c) => c,
        };
        if c.cancelled {
            return Err(Error::CircleCancelled);
        }
        let target = match pot_target(&c) {
            Ok(t) => t,
            Err(e) => return Err(e),
        };
        if c.pot >= target {
            return Err(Error::RoundFull);
        }
        let pot = match c.pot.checked_add(c.contribution) {
            Some(p) => p,
            None => return Err(Error::Overflow),
        };
        let ghost old_c = c@;
        c.pot = pot;
        push_address(&mut c.contributors, from);
        assert(c@ =~= CircleView { pot: pot, contributors: old_c.contributors.push(from), ..old_c });
        Ok(c)
    }

    /// The checks of a claim that need neither the expected external nullifier
    /// nor the proof: the circle is open and its round fully funded.
    fn round_claimable(c: &Circle) -> (r: Result<(), Error>)
        ensures
            r == match round_refusal(c@) {
                Some(e) => Err::<(), Error>(e),
                None => Ok(()),
            },
    {
        if c.cancelled {
            return Err(Error::CircleCancelled);
        }
        let target = match pot_target(c) {
            Ok(t) => t,
            Err(e) => return Err(e),
        };
        if c.pot != target {
            return Err(Error::RoundNotFunded);
        }
        Ok(())
    }

    /// The external nullifier of `(circle_id, round)`:
    /// `Fr(SHA-256(circle_id.to_be_bytes() || round.to_be_bytes()))`, the
    /// digest reduced modulo the group order.
    pub fn compute_external_nullifier(env: &Env, circle_id: u64, round: u32) -> (tag: Scalar)
        ensures
            tag@ == external_nullifier_of(circle_id, round),
    {
        let preimage = round_tag_preimage(circle_id, round);
        let digest = sha256(env, &preimage);
        Scalar::from_be_bytes(env, &digest)
    }

    /// The circle after a successful claim, and the payout.
    fn settle(env: &Env, c: Circle, nullifier_hash: Scalar) -> (r: (Circle, i128))
        requires
            c.round < u32::MAX,
        ensures
            r.0@ == settled(c@, nullifier_hash@),
            r.1 == c.pot,
    {
        let mut c = c;
        let ghost old_c = c@;
        let payout = c.pot;
        c.pot = 0;
        c.round = c.round + 1;
        c.contributors = empty_address_list(env);
        c.nullifiers.push(nullifier_hash);
        assert(scalar_views(c.nullifiers@) =~= old_c.nullifiers.push(nullifier_hash@));
        assert(c@ =~= settled(old_c, nullifier_hash@));
        (c, payout)
    }

    /// Decides a claim given the external nullifier expected for the circle's
    /// round and the outcome of the proof. On success, the circle to store and
    /// the payout; the caller moves the payout from the contract to the recipient.
    pub fn decide_claim(
        env: &Env,
        stored: Option<Circle>,
        nullifier_hash: Scalar,
        external_nullifier: Scalar,
        expected_external_nullifier: Scalar,
        proof_verifies: bool,
    ) -> (result: Result<(Circle, i128), Error>)
        requires
            claim_decision(
                stored_view(stored),
                nullifier_hash@,
                external_nullifier@,
                expected_external_nullifier@,
                proof_verifies,
            ) is Ok ==> stored->Some_0.round < u32::MAX,
        ensures
            paired_view(result) == claim_decision(
                stored_view(stored),
                nullifier_hash@,
                external_nullifier@,
                expected_external_nullifier@,
                proof_verifies,
            ),
    {
        let c = match stored {
            None => return Err(Error::CircleNotFound),
            Some(c) => c,
        };
        if let Err(e) = Self::round_claimable(&c) {
            return Err(e);
        }
        if !external_nullifier.equals(&expected_external_nullifier) {
            return Err(Error::WrongRoundTag);
        }
        if contains_scalar(&c.nullifiers, &nullifier_hash) {
            return Err(Error::AlreadyClaimed);
        }
        if !proof_verifies {
            return Err(Error::InvalidProof);
        }
        Ok(Self::settle(env, c, nullifier_hash))
    }

    /// Zero-knowledge payout. Checks, in order: the circle exists and is open,
    /// its round is fully funded, `external_nullifier` is the one of this
    /// circle and round, `nullifier_hash` was not used on this circle, and the
    /// proof verifies against the circle's key with public inputs
    /// `(nullifier_hash, root, external_nullifier)`. On success, the circle to
    /// store and the payout (the whole pot).
    pub fn claim(
        env: &Env,
        stored: Option<Circle>,
        circle_id: u64,
        nullifier_hash: Scalar,
        external_nullifier: Scalar,
        proof: Proof,
    ) -> (result: Result<(Circle, i128), Error>)
        requires
            claim_admissible(
                circle_id,
                stored_view(stored),
                nullifier_hash@,
                external_nullifier@,
                proof@,
            ),
        ensures
            paired_view(result) == claim_result(
                circle_id,
                stored_view(stored),
                nullifier_hash@,
                external_nullifier@,
                proof@,
            ),
    {
        let c = match stored {
            None => return Err(Error::CircleNotFound),
            Some(c) => c,
        };
        if let Err(e) = Self::round_claimable(&c) {
            return Err(e);
        }
        let expected = Self::compute_external_nullifier(env, circle_id, c.round);
        if !external_nullifier.equals(&expected) {
            return Err(Error::WrongRoundTag);
        }
        if contains_scalar(&c.nullifiers, &nullifier_hash) {
            return Err(Error::AlreadyClaimed);
        }
        let mut inputs: Vec<Scalar> = Vec::new();
        inputs.push(nullifier_hash);
        inputs.push(c.root);
        inputs.push(external_nullifier);
        assert(scalar_views(inputs@) =~= claim_inputs(c@, nullifier_hash@, external_nullifier@));
        if !Self::verify_groth16(env, &c.vk, &proof, &inputs) {
            return Err(Error::InvalidProof);
        }
        Ok(Self::settle(env, c, nullifier_hash))
    }

    /// `claim` where it runs to an answer, `None` where it cannot: when the
    /// claim gets as far as the proof and a point of the key or the proof is
    /// not a valid subgroup point (the host would trap), or when the proof
    /// verifies while the round counter is at its maximum (advancing it would
    /// overflow).
    pub fn try_claim(
        env: &Env,
        stored: Option<Circle>,
        circle_id: u64,
        nullifier_hash: Scalar,
        external_nullifier: Scalar,
        proof: Proof,
    ) -> (result: Option<Result<(Circle, i128), Error>>)
        ensures
            result is None <==> !claim_admissible(
                circle_id,
                stored_view(stored),
                nullifier_hash@,
                external_nullifier@,
                proof@,
            ),
            result matches Some(r) ==> paired_view(r) == claim_result(
                circle_id,
                stored_view(stored),
                nullifier_hash@,
                external_nullifier@,
                proof@,
            ),
    {
        if let Some(c) = &stored {
            if Self::round_claimable(c).is_ok() {
                let expected = Self::compute_external_nullifier(env, circle_id, c.round);
                if external_nullifier.equals(&expected) && !contains_scalar(
                    &c.nullifiers,
                    &nullifier_hash,
                ) {
                    let mut inputs: Vec<Scalar> = Vec::new();
                    inputs.push(nullifier_hash);
                    inputs.push(c.root);
                    inputs.push(external_nullifier);
                    assert(scalar_views(inputs@) =~= claim_inputs(
                        c@,
                        nullifier_hash@,
                        external_nullifier@,
                    ));
                    if c.vk.ic.len() == 4 && !Self::groth16_points_valid(env, &c.vk, &proof) {
                        return None;
                    }
                    if c.round == u32::MAX && Self::verify_groth16(env, &c.vk, &proof, &inputs) {
                        return None;
                    }
                }
            }
        }
        Some(Self::claim(env, stored, circle_id, nullifier_hash, external_nullifier, proof))
    }

    /// The stored circle, or `CircleNotFound`.
    pub fn get_circle(stored: Option<Circle>) -> (result: Result<Circle, Error>)
        ensures
            match stored {
                Some(c) => result == Ok::<Circle, Error>(c),
                None => result == Err::<Circle, Error>(Error::CircleNotFound),
            },
    {
        match stored {
            Some(c) => Ok(c),
            None => Err(Error::CircleNotFound),
        }
    }

    /// How many circles were ever created: the stored counter, or 0.
    pub fn get_circle_count(stored: Option<u64>) -> (count: u64)
        ensures
            count == next_id(stored),
    {
        match stored {
            Some(n) => n,
            None => 0,
        }
    }

    /// Whether `nullifier_hash` was used in a claim on the stored circle;
    /// false when no circle is stored.
    pub fn has_claimed(stored: &Option<Circle>, nullifier_hash: &Scalar) -> (used: bool)
        ensures
            used == (stored_view(*stored) matches Some(c) && c.has_nullifier(nullifier_hash@)),
    {
        match stored {
            Some(c) => contains_scalar(&c.nullifiers, nullifier_hash),
            None => false,
        }
    }

    /// Cancels the stored circle: empties the pot, clears the contributors and
    /// closes the circle for good. On success, the circle to store, the
    /// addresses to refund in order, and the amount each receives; the caller
    /// moves that amount from the contract to each of them.
    pub fn cancel_circle(env: &Env, stored: Option<Circle>) -> (result: Result<
        (Circle, soroban_sdk::Vec<Address>, i128),
        Error,
    >)
        ensures
            match result {
                Ok((c, refund_to, amount)) => cancel_result(stored_view(stored)) == Ok::<
                    (CircleView, Seq<Address>, i128),
                    Error,
                >((c@, address_list(refund_to), amount)),
                Err(e) => cancel_result(stored_view(stored)) == Err::<
                    (CircleView, Seq<Address>, i128),
                    Error,
                >(e),
            },
    {
        let c = match stored {
            None => return Err(Error::CircleNotFound),
            Some(c) => c,
        };
        if c.cancelled {
            return Err(Error::CircleCancelled);
        }
        let ghost old_c = c@;
        let Circle {
            admin,
            token,
            root,
            contribution,
            size,
            round,
            pot: _,
            vk,
            contributors,
            nullifiers,
            cancelled: _,
        } = c;
        let closed = Circle {
            admin,
            token,
            root,
            contribution,
            size,
            round,
            pot: 0,
            vk,
            contributors: empty_address_list(env),
            nullifiers,
            cancelled: true,
        };
        assert(closed@ =~= CircleView { pot: 0, cancelled: true, contributors: Seq::empty(), ..old_c });
        Ok((closed, contributors, contribution))
    }
}

} // verus!
