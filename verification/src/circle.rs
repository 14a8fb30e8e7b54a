//! A contribution circle: its state, its errors, and what each entry point
//! does to it, stated over the circle's view.

use vstd::prelude::*;
use soroban_sdk::Address;
use crate::encoding::round_tag_preimage_spec;
use crate::field::fr_canonical;
use crate::groth16::{groth16_accepts, groth16_runs, ProofView, VerificationKey, VerificationKeyView};
use crate::scalar::{scalar_views, Scalar};
use crate::host::{address_list, sha256_digest};

verus! {

/// Why an entry point refuses a call. `code` gives the number under which the
/// contract reports each one.
#[derive(Clone, Copy, Debug, PartialEq, Eq, PartialOrd, Ord, Structural)]
pub enum Error {
    /// No circle is stored at the requested id.
    CircleNotFound,
    /// `claim` before the pot reached `contribution * size`.
    RoundNotFunded,
    /// The proof's external nullifier is not the one of this circle and round.
    WrongRoundTag,
    /// The nullifier was already used in a claim on this circle.
    AlreadyClaimed,
    /// The Groth16 pairing check failed.
    InvalidProof,
    /// The pot already holds `contribution * size`.
    RoundFull,
    /// `contribution * size`, or the pot after a deposit, does not fit in `i128`.
    Overflow,
    /// The circle was cancelled.
    CircleCancelled,
}

/// The number under which the contract reports `e`.
pub open spec fn error_code(e: Error) -> u32 {
    match e {
        Error::CircleNotFound => 1,
        Error::RoundNotFunded => 2,
        Error::WrongRoundTag => 3,
        Error::AlreadyClaimed => 4,
        Error::InvalidProof => 5,
        Error::RoundFull => 6,
        Error::Overflow => 7,
        Error::CircleCancelled => 8,
    }
}

impl Error {
    /// The number under which the contract reports this error.
    pub fn code(&self) -> (code: u32)
        ensures
            code == error_code(*self),
    {
        match self {
            Error::CircleNotFound => 1,
            Error::RoundNotFunded => 2,
            Error::WrongRoundTag => 3,
            Error::AlreadyClaimed => 4,
            Error::InvalidProof => 5,
            Error::RoundFull => 6,
            Error::Overflow => 7,
            Error::CircleCancelled => 8,
        }
    }
}

/// Keys of the contract's storage.
#[derive(Clone, Copy, Debug)]
pub enum DataKey {
    /// Instance-stored counter: the id the next circle gets.
    NextCircleId,
    /// Persistent-stored circle, by id.
    Circle(u64),
    /// Marker for a `(circle_id, nullifier_hash)` pair used in a claim.
    Nullifier(u64, Scalar),
}

/// One contribution circle: a fixed ring of members who each put
/// `contribution` into the pot per round; once the pot holds
/// `contribution * size`, one member takes it with a zero-knowledge proof of
/// membership, and the round advances.
#[derive(Debug)]
pub struct Circle {
    /// May cancel the circle; has no power over funding or claiming.
    pub admin: Address,
    /// The token contract used for deposits and payouts.
    pub token: Address,
    /// Merkle root of the member commitments.
    pub root: Scalar,
    /// What each deposit adds to the pot.
    pub contribution: i128,
    /// Deposits needed to fill a round.
    pub size: u32,
    /// The current round; advances by one with each claim.
    pub round: u32,
    /// Tokens deposited in the current round.
    pub pot: i128,
    /// The key every claim's proof is checked against.
    pub vk: VerificationKey,
    /// Who deposited in the current round, in order.
    pub contributors: soroban_sdk::Vec<Address>,
    /// Nullifier hashes of every successful claim on this circle.
    pub nullifiers: Vec<Scalar>,
    /// Set by `cancel_circle`; a cancelled circle takes no more calls.
    pub cancelled: bool,
}

/// A circle as values.
#[verifier::ext_equal]
pub struct CircleView {
    pub admin: Address,
    pub token: Address,
    pub root: Seq<u8>,
    pub contribution: i128,
    pub size: u32,
    pub round: u32,
    pub pot: i128,
    pub vk: VerificationKeyView,
    pub contributors: Seq<Address>,
    pub nullifiers: Seq<Seq<u8>>,
    pub cancelled: bool,
}

impl View for Circle {
    type V = CircleView;

    open spec fn view(&self) -> CircleView {
        CircleView {
            admin: self.admin,
            token: self.token,
            root: self.root@,
            contribution: self.contribution,
            size: self.size,
            round: self.round,
            pot: self.pot,
            vk: self.vk@,
            contributors: address_list(self.contributors),
            nullifiers: scalar_views(self.nullifiers@),
            cancelled: self.cancelled,
        }
    }
}

/// The view of a stored circle, if any.
pub open spec fn stored_view(stored: Option<Circle>) -> Option<CircleView> {
    match stored {
        Some(c) => Some(c@),
        None => None,
    }
}

pub open spec fn fits_i128(x: int) -> bool {
    i128::MIN <= x <= i128::MAX
}

impl CircleView {
    /// `contribution * size`: what the pot must hold for the round to be claimed.
    pub open spec fn target(self) -> int {
        self.contribution * self.size
    }

    /// The pot is one contribution per recorded contributor, and no round has
    /// more contributors than the circle's size.
    pub open spec fn well_formed(self) -> bool {
        &&& self.pot == self.contribution * self.contributors.len()
        &&& self.contributors.len() <= self.size
    }

    /// Whether `nullifier` was used in a claim on this circle.
    pub open spec fn has_nullifier(self, nullifier: Seq<u8>) -> bool {
        self.nullifiers.contains(nullifier)
    }
}

/// The circle that `create_circle` stores.
pub open spec fn new_circle(
    admin: Address,
    token: Address,
    root: Seq<u8>,
    contribution: i128,
    size: u32,
    vk: VerificationKeyView,
) -> CircleView {
    CircleView {
        admin,
        token,
        root,
        contribution,
        size,
        round: 0,
        pot: 0,
        vk,
        contributors: Seq::empty(),
        nullifiers: Seq::empty(),
        cancelled: false,
    }
}

/// The id that `create_circle` assigns given the stored counter.
pub open spec fn next_id(counter: Option<u64>) -> u64 {
    match counter {
        Some(n) => n,
        None => 0,
    }
}

/// What `fund` makes of the stored circle when `from` deposits.
pub open spec fn fund_result(stored: Option<CircleView>, from: Address) -> Result<CircleView, Error> {
    match stored {
        None => Err(Error::CircleNotFound),
        Some(c) => if c.cancelled {
            Err(Error::CircleCancelled)
        } else if !fits_i128(c.target()) {
            Err(Error::Overflow)
        } else if c.pot >= c.target() {
            Err(Error::RoundFull)
        } else if !fits_i128(c.pot + c.contribution) {
            Err(Error::Overflow)
        } else {
            Ok(
                CircleView {
                    pot: (c.pot + c.contribution) as i128,
                    contributors: c.contributors.push(from),
                    ..c
                },
            )
        },
    }
}

/// The external nullifier that binds a proof to `(circle_id, round)`: the
/// SHA-256 digest of the round-tag preimage, reduced into `Fr`.
pub open spec fn external_nullifier_of(circle_id: u64, round: u32) -> Seq<u8> {
    fr_canonical(sha256_digest(round_tag_preimage_spec(circle_id, round)))
}

/// The public inputs of a claim's proof: `(nullifier_hash, root, external_nullifier)`.
pub open spec fn claim_inputs(c: CircleView, nullifier: Seq<u8>, external: Seq<u8>) -> Seq<Seq<u8>> {
    seq![nullifier, c.root, external]
}

/// The circle after a successful claim with `nullifier`: pot emptied, round
/// advanced, contributors cleared, nullifier recorded.
pub open spec fn settled(c: CircleView, nullifier: Seq<u8>) -> CircleView {
    CircleView {
        pot: 0,
        round: (c.round + 1) as u32,
        contributors: Seq::empty(),
        nullifiers: c.nullifiers.push(nullifier),
        ..c
    }
}

/// The checks of a claim that depend on the circle alone, in order: it is
/// open, its target fits in `i128`, and its pot holds exactly the target.
pub open spec fn round_refusal(c: CircleView) -> Option<Error> {
    if c.cancelled {
        Some(Error::CircleCancelled)
    } else if !fits_i128(c.target()) {
        Some(Error::Overflow)
    } else if c.pot != c.target() {
        Some(Error::RoundNotFunded)
    } else {
        None
    }
}

/// The checks of a claim, in order, given the external nullifier expected for
/// the circle's round and the outcome of the proof; on success, the settled
/// circle and the payout (the whole pot).
pub open spec fn claim_decision(
    stored: Option<CircleView>,
    nullifier: Seq<u8>,
    external: Seq<u8>,
    expected: Seq<u8>,
    proof_ok: bool,
) -> Result<(CircleView, i128), Error> {
    match stored {
        None => Err(Error::CircleNotFound),
        Some(c) => if let Some(e) = round_refusal(c) {
            Err(e)
        } else if external != expected {
            Err(Error::WrongRoundTag)
        } else if c.has_nullifier(nullifier) {
            Err(Error::AlreadyClaimed)
        } else if !proof_ok {
            Err(Error::InvalidProof)
        } else {
            Ok((settled(c, nullifier), c.pot))
        },
    }
}

/// What `claim` does on circle `circle_id`: the checks of `claim_decision`,
/// with the expected external nullifier of the circle's round and the Groth16
/// outcome on the public inputs.
pub open spec fn claim_result(
    circle_id: u64,
    stored: Option<CircleView>,
    nullifier: Seq<u8>,
    external: Seq<u8>,
    proof: ProofView,
) -> Result<(CircleView, i128), Error> {
    match stored {
        None => Err(Error::CircleNotFound),
        Some(c) => claim_decision(
            stored,
            nullifier,
            external,
            external_nullifier_of(circle_id, c.round),
            groth16_accepts(c.vk, proof, claim_inputs(c, nullifier, external)),
        ),
    }
}

/// Whether a claim on circle `circle_id` gets as far as the proof: the round
/// is ready, the tag is the one of this circle and round, and the nullifier is
/// unused.
pub open spec fn claim_reaches_proof(
    circle_id: u64,
    c: CircleView,
    nullifier: Seq<u8>,
    external: Seq<u8>,
) -> bool {
    &&& round_refusal(c) is None
    &&& external == external_nullifier_of(circle_id, c.round)
    &&& !c.has_nullifier(nullifier)
}

/// The inputs on which `claim` runs to an answer: where a claim gets as far
/// as the proof, its points are valid subgroup points (when the key's shape
/// matches), and a proof that verifies finds the round counter below its
/// maximum.
pub open spec fn claim_admissible(
    circle_id: u64,
    stored: Option<CircleView>,
    nullifier: Seq<u8>,
    external: Seq<u8>,
    proof: ProofView,
) -> bool {
    match stored {
        None => true,
        Some(c) => claim_reaches_proof(circle_id, c, nullifier, external) ==> {
            &&& groth16_runs(c.vk, proof, claim_inputs(c, nullifier, external))
            &&& groth16_accepts(c.vk, proof, claim_inputs(c, nullifier, external)) ==> c.round
                < u32::MAX
        },
    }
}

/// What `cancel_circle` does: the closed circle, the addresses to refund in
/// order (the current round's contributors), and the amount each receives.
pub open spec fn cancel_result(stored: Option<CircleView>) -> Result<(CircleView, Seq<Address>, i128), Error> {
    match stored {
        None => Err(Error::CircleNotFound),
        Some(c) => if c.cancelled {
            Err(Error::CircleCancelled)
        } else {
            Ok(
                (
                    CircleView { pot: 0, cancelled: true, contributors: Seq::empty(), ..c },
                    c.contributors,
                    c.contribution,
                ),
            )
        },
    }
}

/// `contribution * size` for the circle's round, or `Overflow`.
pub fn pot_target(circle: &Circle) -> (target: Result<i128, Error>)
    ensures
        match target {
            Ok(t) => fits_i128(circle@.target()) && t == circle@.target(),
            Err(e) => !fits_i128(circle@.target()) && e == Error::Overflow,
        },
{
    match circle.contribution.checked_mul(circle.size as i128) {
        Some(t) => Ok(t),
        None => Err(Error::Overflow),
    }
}

} // verus!
