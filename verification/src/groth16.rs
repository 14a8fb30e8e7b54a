//! Groth16 verification over BLS12-381: the verification key, the proof, and
//! the pairing check that decides whether a proof attests to given public inputs.

use vstd::prelude::*;
use soroban_sdk::Env;
use crate::contract::Contract;
use crate::scalar::{scalar_views, Scalar};
use crate::field::{fr_canonical, g1_encoding_is_valid, g1_negation, g2_encoding_is_valid, lemma_valid_g1_negatable};
use crate::host::{
    g1_add, g1_group_point, g1_is_in_subgroup, g1_is_on_curve, g1_mul, g1_neg, g1_scaled, g1_sum,
    g2_group_point, g2_is_in_subgroup, g2_is_on_curve, multi_pairing_holds, pairing_check,
};

verus! {

/// Groth16 verification key over BLS12-381, committed when a circle is created.
///
/// Points are held as their uncompressed encodings: G1 in 96 bytes, G2 in 192.
#[derive(Debug)]
pub struct VerificationKey {
    /// `[α]·G1`.
    pub alpha: [u8; 96],
    /// `[β]·G2`.
    pub beta: [u8; 192],
    /// `[γ]·G2`, the public-input gate.
    pub gamma: [u8; 192],
    /// `[δ]·G2`, the private-witness gate.
    pub delta: [u8; 192],
    /// The `vk_x` basis: `vk_x = ic[0] + Σ input_i · ic[i+1]`; its length is the
    /// number of public inputs plus one.
    pub ic: Vec<[u8; 96]>,
}

/// A verification key as byte strings.
#[verifier::ext_equal]
pub struct VerificationKeyView {
    pub alpha: Seq<u8>,
    pub beta: Seq<u8>,
    pub gamma: Seq<u8>,
    pub delta: Seq<u8>,
    pub ic: Seq<Seq<u8>>,
}

impl View for VerificationKey {
    type V = VerificationKeyView;

    open spec fn view(&self) -> VerificationKeyView {
        VerificationKeyView {
            alpha: self.alpha@,
            beta: self.beta@,
            gamma: self.gamma@,
            delta: self.delta@,
            ic: self.ic@.map_values(|p: [u8; 96]| p@),
        }
    }
}

/// A Groth16 proof `(A, B, C)` over BLS12-381.
#[derive(Clone, Copy, Debug)]
pub struct Proof {
    /// `A`, in G1.
    pub a: [u8; 96],
    /// `B`, in G2.
    pub b: [u8; 192],
    /// `C`, in G1.
    pub c: [u8; 96],
}

/// A proof as byte strings.
#[verifier::ext_equal]
pub struct ProofView {
    pub a: Seq<u8>,
    pub b: Seq<u8>,
    pub c: Seq<u8>,
}

impl View for Proof {
    type V = ProofView;

    open spec fn view(&self) -> ProofView {
        ProofView { a: self.a@, b: self.b@, c: self.c@ }
    }
}

/// `ic[0] + Σ_{i < n} inputs[i] · ic[i+1]`, accumulated left to right.
pub open spec fn vk_x(ic: Seq<Seq<u8>>, inputs: Seq<Seq<u8>>, n: nat) -> Seq<u8>
    decreases n,
{
    if n == 0 {
        ic[0]
    } else {
        g1_sum(
            vk_x(ic, inputs, (n - 1) as nat),
            g1_scaled(ic[n as int], fr_canonical(inputs[n - 1])),
        )
    }
}

/// The Groth16 outcome: the key has one basis point per public input plus one,
/// and the product `e(-A, B) e(alpha, beta) e(vk_x, gamma) e(C, delta)` is one.
pub open spec fn groth16_accepts(
    vk: VerificationKeyView,
    proof: ProofView,
    inputs: Seq<Seq<u8>>,
) -> bool {
    &&& inputs.len() + 1 == vk.ic.len()
    &&& multi_pairing_holds(
        seq![g1_negation(proof.a), vk.alpha, vk_x(vk.ic, inputs, inputs.len()), proof.c],
        seq![proof.b, vk.beta, vk.gamma, vk.delta],
    )
}

/// Every point of the key and of the proof is a well-formed encoding of a
/// point of the prime-order subgroup (G1 or G2 as its place requires).
pub open spec fn groth16_points_ok(vk: VerificationKeyView, proof: ProofView) -> bool {
    &&& g1_group_point(vk.alpha)
    &&& g2_group_point(vk.beta)
    &&& g2_group_point(vk.gamma)
    &&& g2_group_point(vk.delta)
    &&& forall|i: int| 0 <= i < vk.ic.len() ==> g1_group_point(#[trigger] vk.ic[i])
    &&& g1_group_point(proof.a)
    &&& g2_group_point(proof.b)
    &&& g1_group_point(proof.c)
}

/// What the check needs of its inputs to run without a host trap: when the
/// key's shape matches the inputs, every point is a subgroup point.
pub open spec fn groth16_runs(
    vk: VerificationKeyView,
    proof: ProofView,
    inputs: Seq<Seq<u8>>,
) -> bool {
    inputs.len() + 1 == vk.ic.len() ==> groth16_points_ok(vk, proof)
}

/// Whether `p` is a well-formed encoding of a G1 subgroup point. Each host
/// check runs only once the previous one has passed, so none traps.
fn g1_point_is_valid(env: &Env, p: &[u8; 96]) -> (r: bool)
    ensures
        r == g1_group_point(p@),
{
    g1_encoding_is_valid(p) && g1_is_on_curve(env, p) && g1_is_in_subgroup(env, p)
}

/// Whether `p` is a well-formed encoding of a G2 subgroup point.
fn g2_point_is_valid(env: &Env, p: &[u8; 192]) -> (r: bool)
    ensures
        r == g2_group_point(p@),
{
    g2_encoding_is_valid(p) && g2_is_on_curve(env, p) && g2_is_in_subgroup(env, p)
}

impl Contract {
    /// Whether every point of `vk` and `proof` is a well-formed encoding of a
    /// point of the prime-order subgroup, checked with the host's on-curve and
    /// subgroup tests.
    pub fn groth16_points_valid(env: &Env, vk: &VerificationKey, proof: &Proof) -> (ok: bool)
        ensures
            ok == groth16_points_ok(vk@, proof@),
    {
        if !(g1_point_is_valid(env, &vk.alpha) && g2_point_is_valid(env, &vk.beta)
            && g2_point_is_valid(env, &vk.gamma) && g2_point_is_valid(env, &vk.delta)
            && g1_point_is_valid(env, &proof.a) && g2_point_is_valid(env, &proof.b)
            && g1_point_is_valid(env, &proof.c)) {
            return false;
        }
        let mut i: usize = 0;
        while i < vk.ic.len()
            invariant
                i <= vk.ic@.len(),
                forall|j: int| 0 <= j < i ==> g1_group_point(#[trigger] vk@.ic[j]),
            decreases vk.ic@.len() - i,
        {
            if !g1_point_is_valid(env, &vk.ic[i]) {
                assert(!g1_group_point(vk@.ic[i as int]));
                return false;
            }
            i = i + 1;
        }
        true
    }

    /// Groth16 verification with the host's BLS12-381 operations: builds `vk_x`
    /// from the public inputs and checks
    /// `e(-A, B) · e(α, β) · e(vk_x, γ) · e(C, δ) = 1`.
    /// A key whose basis length is not the number of inputs plus one is rejected.
    pub fn verify_groth16(
        env: &Env,
        vk: &VerificationKey,
        proof: &Proof,
        public_inputs: &Vec<Scalar>,
    ) -> (ok: bool)
        requires
            groth16_runs(vk@, proof@, scalar_views(public_inputs@)),
        ensures
            ok == groth16_accepts(vk@, proof@, scalar_views(public_inputs@)),
    {
        let ghost inputs = scalar_views(public_inputs@);
        let ghost ic = vk@.ic;
        if vk.ic.len() == 0 || public_inputs.len() != vk.ic.len() - 1 {
            return false;
        }
        let mut acc: [u8; 96] = vk.ic[0];
        assert(g1_group_point(ic[0]));
        let n = public_inputs.len();
        let mut i: usize = 0;
        while i < n
            invariant
                n == public_inputs@.len(),
                n + 1 == vk.ic@.len(),
                i <= n,
                inputs == scalar_views(public_inputs@),
                ic == vk@.ic,
                acc@ == vk_x(ic, inputs, i as nat),
                forall|j: int| 0 <= j < ic.len() ==> g1_group_point(#[trigger] ic[j]),
                g1_group_point(acc@),
            decreases n - i,
        {
            assert(vk.ic@[i + 1]@ == ic[i + 1]);
            assert(g1_group_point(ic[i + 1]));
            let scalar = public_inputs[i].to_be_bytes();
            let term = g1_mul(env, &vk.ic[i + 1], &scalar);
            acc = g1_add(env, &acc, &term);
            i = i + 1;
        }
        proof {
            lemma_valid_g1_negatable(proof.a@);
        }
        let neg_a = g1_neg(env, &proof.a);
        let g1s: [[u8; 96]; 4] = [neg_a, vk.alpha, acc, proof.c];
        let g2s: [[u8; 192]; 4] = [proof.b, vk.beta, vk.gamma, vk.delta];
        proof {
            assert(g1s@.map_values(|a: [u8; 96]| a@) =~= seq![
                g1_negation(proof.a@),
                vk.alpha@,
                vk_x(ic, inputs, inputs.len()),
                proof.c@,
            ]);
            assert(g2s@.map_values(|a: [u8; 192]| a@) =~= seq![
                proof.b@,
                vk.beta@,
                vk.gamma@,
                vk.delta@,
            ]);
        }
        pairing_check(env, &g1s, &g2s)
    }
}

} // verus!
