//! The Soroban host as this library uses it: the environment and account
//! address types, and the cryptographic host functions (SHA-256 and the
//! BLS12-381 operations) that the claim path calls.
//!
//! Points and scalars cross this boundary as their byte encodings: a G1 point
//! as 96 bytes (`x || y`), a G2 point as 192 bytes, a scalar of `Fr` as 32
//! big-endian bytes.

use vstd::prelude::*;
use soroban_sdk::crypto::bls12_381::{Bls12381Fr, Bls12381G1Affine, Bls12381G2Affine};
use soroban_sdk::{Bytes, BytesN, Env};
use crate::field::{fr_canonical, g1_encoding_valid, g1_negatable, g1_negation, g2_encoding_valid};

verus! {

/// The Soroban environment: the handle through which host functions are called.
#[verifier::external_type_specification]
#[verifier::external_body]
pub struct ExEnv(soroban_sdk::Env);

/// A Soroban account or contract address. The library only carries
/// addresses; it never looks inside one.
#[verifier::external_type_specification]
#[verifier::external_body]
pub struct ExAddress(soroban_sdk::Address);

/// A vector of host values, held by the host; the library keeps the
/// depositors of a round in one.
#[verifier::external_type_specification]
#[verifier::external_body]
#[verifier::reject_recursive_types(T)]
pub struct ExVec<T>(soroban_sdk::Vec<T>);

/// The addresses a host vector holds, in order.
pub uninterp spec fn address_list(v: soroban_sdk::Vec<soroban_sdk::Address>) -> Seq<soroban_sdk::Address>;

/// Calls `Vec::new`. Claimed: the vector is empty.
#[verifier::external_body]
pub(crate) fn empty_address_list(env: &Env) -> (v: soroban_sdk::Vec<soroban_sdk::Address>)
    ensures
        address_list(v) == Seq::<soroban_sdk::Address>::empty(),
{
    soroban_sdk::Vec::new(env)
}

/// Calls `Vec::push_back`. Claimed: the vector afterwards holds what it held
/// before followed by `a`.
#[verifier::external_body]
pub(crate) fn push_address(v: &mut soroban_sdk::Vec<soroban_sdk::Address>, a: soroban_sdk::Address)
    ensures
        address_list(*final(v)) == address_list(*old(v)).push(a),
{
    v.push_back(a)
}

/// The SHA-256 digest of `data`, as computed by the host.
pub uninterp spec fn sha256_digest(data: Seq<u8>) -> Seq<u8>;

/// The encoding of the sum of the G1 points encoded by `p` and `q`.
pub uninterp spec fn g1_sum(p: Seq<u8>, q: Seq<u8>) -> Seq<u8>;

/// The encoding of `s * P`, for the G1 point `P` encoded by `p` and the
/// canonical scalar bytes `s`.
pub uninterp spec fn g1_scaled(p: Seq<u8>, s: Seq<u8>) -> Seq<u8>;

/// Whether the well-formed G1 encoding `p` is a point on the curve.
pub uninterp spec fn g1_on_curve(p: Seq<u8>) -> bool;

/// Whether the G1 curve point encoded by `p` lies in the prime-order subgroup.
pub uninterp spec fn g1_in_subgroup(p: Seq<u8>) -> bool;

/// Whether the well-formed G2 encoding `p` is a point on the twist curve.
pub uninterp spec fn g2_on_curve(p: Seq<u8>) -> bool;

/// Whether the G2 curve point encoded by `p` lies in the prime-order subgroup.
pub uninterp spec fn g2_in_subgroup(p: Seq<u8>) -> bool;

/// A well-formed G1 encoding of a point on the curve: what `g1_add` accepts.
pub open spec fn g1_curve_point(p: Seq<u8>) -> bool {
    g1_encoding_valid(p) && g1_on_curve(p)
}

/// A well-formed G1 encoding of a point of the prime-order subgroup: what
/// `g1_mul` and the pairing accept.
pub open spec fn g1_group_point(p: Seq<u8>) -> bool {
    g1_curve_point(p) && g1_in_subgroup(p)
}

/// A well-formed G2 encoding of a point of the prime-order subgroup: what the
/// pairing accepts.
pub open spec fn g2_group_point(p: Seq<u8>) -> bool {
    g2_encoding_valid(p) && g2_on_curve(p) && g2_in_subgroup(p)
}

/// Whether the product of the pairings `e(g1[i], g2[i])` is the identity of
/// the target group.
pub uninterp spec fn multi_pairing_holds(g1: Seq<Seq<u8>>, g2: Seq<Seq<u8>>) -> bool;

/// Calls `Bls12_381::g1_is_on_curve`. Claimed: the answer is a function of
/// the encoding alone. The host decodes the point first and traps on an
/// encoding that is not well formed, hence the `requires`.
#[verifier::external_body]
pub(crate) fn g1_is_on_curve(env: &Env, p: &[u8; 96]) -> (on_curve: bool)
    requires
        g1_encoding_valid(p@),
    ensures
        on_curve == g1_on_curve(p@),
{
    env.crypto().bls12_381().g1_is_on_curve(&Bls12381G1Affine::from_array(env, p))
}

/// Calls `Bls12_381::g1_is_in_subgroup`. Claimed: the answer is a function of
/// the encoding alone. The host decodes the point with an on-curve check and
/// traps when it fails, hence the `requires`.
#[verifier::external_body]
pub(crate) fn g1_is_in_subgroup(env: &Env, p: &[u8; 96]) -> (in_subgroup: bool)
    requires
        g1_curve_point(p@),
    ensures
        in_subgroup == g1_in_subgroup(p@),
{
    env.crypto().bls12_381().g1_is_in_subgroup(&Bls12381G1Affine::from_array(env, p))
}

/// Calls `Bls12_381::g2_is_on_curve`. Claimed: the answer is a function of
/// the encoding alone; the host traps on an encoding that is not well formed.
#[verifier::external_body]
pub(crate) fn g2_is_on_curve(env: &Env, p: &[u8; 192]) -> (on_curve: bool)
    requires
        g2_encoding_valid(p@),
    ensures
        on_curve == g2_on_curve(p@),
{
    env.crypto().bls12_381().g2_is_on_curve(&Bls12381G2Affine::from_array(env, p))
}

/// Calls `Bls12_381::g2_is_in_subgroup`. Claimed: the answer is a function of
/// the encoding alone; the host traps when the point is not on the curve.
#[verifier::external_body]
pub(crate) fn g2_is_in_subgroup(env: &Env, p: &[u8; 192]) -> (in_subgroup: bool)
    requires
        g2_encoding_valid(p@),
        g2_on_curve(p@),
    ensures
        in_subgroup == g2_in_subgroup(p@),
{
    env.crypto().bls12_381().g2_is_in_subgroup(&Bls12381G2Affine::from_array(env, p))
}

/// Calls `Crypto::sha256` (`env.crypto().sha256`). Claimed: the 32 bytes
/// returned are the digest of `data`, a function of `data` alone.
#[verifier::external_body]
pub(crate) fn sha256(env: &Env, data: &Vec<u8>) -> (digest: [u8; 32])
    ensures
        digest@ == sha256_digest(data@),
{
    env.crypto().sha256(&Bytes::from_slice(env, data.as_slice())).to_array()
}

/// Calls `Bls12381Fr::from_bytes` and reads the scalar back with
/// `Bls12381Fr::to_bytes`. Claimed: the result is the big-endian value of
/// `bytes` reduced modulo the group order `r`, in 32 big-endian bytes
/// (`From<U256> for Bls12381Fr` reduces with `rem_euclid` when the value is at
/// least `r`).
#[verifier::external_body]
pub(crate) fn fr_reduce(env: &Env, bytes: &[u8; 32]) -> (canonical: [u8; 32])
    ensures
        canonical@ == fr_canonical(bytes@),
{
    Bls12381Fr::from_bytes(BytesN::from_array(env, bytes)).to_bytes().to_array()
}

/// Calls `Bls12_381::g1_add`, which decodes both points with an on-curve
/// check (trapping when it fails) and returns the encoding of their sum.
/// Claimed: the result is a function of the two encodings, it encodes a point
/// on the curve, and the sum of two points of the prime-order subgroup is in
/// that subgroup (a subgroup is closed under addition).
#[verifier::external_body]
pub(crate) fn g1_add(env: &Env, p: &[u8; 96], q: &[u8; 96]) -> (sum: [u8; 96])
    requires
        g1_curve_point(p@),
        g1_curve_point(q@),
    ensures
        sum@ == g1_sum(p@, q@),
        g1_curve_point(sum@),
        g1_in_subgroup(p@) && g1_in_subgroup(q@) ==> g1_in_subgroup(sum@),
{
    let (p, q) = (Bls12381G1Affine::from_array(env, p), Bls12381G1Affine::from_array(env, q));
    env.crypto().bls12_381().g1_add(&p, &q).to_array()
}

/// Calls `Bls12_381::g1_mul`, with the scalar made by `Bls12381Fr::from_bytes`,
/// which reduces it modulo `r`. The host decodes the point with on-curve and
/// subgroup checks, trapping when either fails. Claimed: the result is a
/// function of the point and of the reduced scalar, and a multiple of a
/// subgroup point is a subgroup point.
#[verifier::external_body]
pub(crate) fn g1_mul(env: &Env, p: &[u8; 96], scalar: &[u8; 32]) -> (product: [u8; 96])
    requires
        g1_group_point(p@),
    ensures
        product@ == g1_scaled(p@, fr_canonical(scalar@)),
        g1_group_point(product@),
{
    let s = Bls12381Fr::from_bytes(BytesN::from_array(env, scalar));
    env.crypto().bls12_381().g1_mul(&Bls12381G1Affine::from_array(env, p), &s).to_array()
}

/// Calls `Neg for Bls12381G1Affine`, which replaces `y` by `p - y` (leaving a
/// zero `y` as it is) and panics when `y` is not below `p`. Claimed: exactly
/// that result, for every `y` below `p`; and since `(x, -y)` is the inverse of
/// `(x, y)`, the negation of a subgroup point is a subgroup point.
#[verifier::external_body]
pub(crate) fn g1_neg(env: &Env, p: &[u8; 96]) -> (neg: [u8; 96])
    requires
        g1_negatable(p@),
    ensures
        neg@ == g1_negation(p@),
        g1_group_point(p@) ==> g1_group_point(neg@),
{
    (-Bls12381G1Affine::from_array(env, p)).to_array()
}

/// Calls `Bls12_381::pairing_check` on four pairs `(g1[i], g2[i])`. The host
/// decodes every point with on-curve and subgroup checks, trapping when one
/// fails. Claimed: the answer is a function of the eight encodings alone.
#[verifier::external_body]
pub(crate) fn pairing_check(env: &Env, g1: &[[u8; 96]; 4], g2: &[[u8; 192]; 4]) -> (holds: bool)
    requires
        forall|i: int| 0 <= i < 4 ==> g1_group_point(#[trigger] g1@[i]@),
        forall|i: int| 0 <= i < 4 ==> g2_group_point(#[trigger] g2@[i]@),
    ensures
        holds == multi_pairing_holds(
            g1@.map_values(|a: [u8; 96]| a@),
            g2@.map_values(|a: [u8; 192]| a@),
        ),
{
    let vp1 = soroban_sdk::Vec::from_array(env, [
        Bls12381G1Affine::from_array(env, &g1[0]), Bls12381G1Affine::from_array(env, &g1[1]),
        Bls12381G1Affine::from_array(env, &g1[2]), Bls12381G1Affine::from_array(env, &g1[3]),
    ]);
    let vp2 = soroban_sdk::Vec::from_array(env, [
        Bls12381G2Affine::from_array(env, &g2[0]), Bls12381G2Affine::from_array(env, &g2[1]),
        Bls12381G2Affine::from_array(env, &g2[2]), Bls12381G2Affine::from_array(env, &g2[3]),
    ]);
    env.crypto().bls12_381().pairing_check(vp1, vp2)
}

} // verus!
