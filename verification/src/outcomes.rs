//! What each entry point's outcome is, stated directly over its inputs: byte
//! values, the group order, the host's digest and the Groth16 outcome, rather
//! than through the specification functions that the entry points' own
//! contracts use.

use vstd::prelude::*;
use soroban_sdk::Address;
use crate::circle::{
    cancel_result, claim_admissible, claim_inputs, claim_result, error_code, external_nullifier_of, fits_i128,
    fund_result, new_circle, next_id, CircleView, Error,
};
use crate::fee::fee_of;
use crate::encoding::{be_bytes, be_value, lemma_be_bytes_len, lemma_be_inject, lemma_be_roundtrip, pow256, round_tag_preimage_spec};
use crate::field::{
    fp_modulus, fp_modulus_bytes, fp_negate, fr_canonical, fr_modulus, fr_modulus_bytes, g1_negatable,
    g1_encoding_valid, g1_negation, g2_encoding_valid, lemma_be_value_bound,
};
use crate::groth16::{groth16_accepts, groth16_points_ok, vk_x, ProofView, VerificationKeyView};
use crate::host::{
    g1_group_point, g1_in_subgroup, g1_on_curve, g1_scaled, g1_sum, g2_group_point, g2_in_subgroup,
    g2_on_curve, multi_pairing_holds, sha256_digest,
};
use crate::scalar::{fr_is_canonical, lemma_canonical_fixed_point, lemma_fr_modulus_bounds};

verus! {

/// The group order `r` of BLS12-381, as a number.
pub proof fn lemma_fr_modulus_value()
    ensures
        fr_modulus() == 0x73eda753299d7d483339d80809a1d80553bda402fffe5bfeffffffff00000001nat,
{
    let m = fr_modulus_bytes();
    assert(be_value(m.take(0)) == 0);
    assert(m.take(1).drop_last() =~= m.take(0));
    assert(be_value(m.take(1)) == 115nat);
    assert(m.take(2).drop_last() =~= m.take(1));
    assert(be_value(m.take(2)) == 29677nat);
    assert(m.take(3).drop_last() =~= m.take(2));
    assert(be_value(m.take(3)) == 7597479nat);
    assert(m.take(4).drop_last() =~= m.take(3));
    assert(be_value(m.take(4)) == 1944954707nat);
    assert(m.take(5).drop_last() =~= m.take(4));
    assert(be_value(m.take(5)) == 497908405033nat);
    assert(m.take(6).drop_last() =~= m.take(5));
    assert(be_value(m.take(6)) == 127464551688605nat);
    assert(m.take(7).drop_last() =~= m.take(6));
    assert(be_value(m.take(7)) == 32630925232283005nat);
    assert(m.take(8).drop_last() =~= m.take(7));
    assert(be_value(m.take(8)) == 8353516859464449352nat);
    assert(m.take(9).drop_last() =~= m.take(8));
    assert(be_value(m.take(9)) == 2138500316022899034163nat);
    assert(m.take(10).drop_last() =~= m.take(9));
    assert(be_value(m.take(10)) == 547456080901862152745785nat);
    assert(m.take(11).drop_last() =~= m.take(10));
    assert(be_value(m.take(11)) == 140148756710876711102921176nat);
    assert(m.take(12).drop_last() =~= m.take(11));
    assert(be_value(m.take(12)) == 35878081717984438042347821064nat);
    assert(m.take(13).drop_last() =~= m.take(12));
    assert(be_value(m.take(13)) == 9184788919804016138841042192393nat);
    assert(m.take(14).drop_last() =~= m.take(13));
    assert(be_value(m.take(14)) == 2351305963469828131543306801252769nat);
    assert(m.take(15).drop_last() =~= m.take(14));
    assert(be_value(m.take(15)) == 601934326648276001675086541120709080nat);
    assert(m.take(16).drop_last() =~= m.take(15));
    assert(be_value(m.take(16)) == 154095187621958656428822154526901524485nat);
    assert(m.take(17).drop_last() =~= m.take(16));
    assert(be_value(m.take(17)) == 39448368031221416045778471558886790268243nat);
    assert(m.take(18).drop_last() =~= m.take(17));
    assert(be_value(m.take(18)) == 10098782215992682507719288719075018308670397nat);
    assert(m.take(19).drop_last() =~= m.take(18));
    assert(be_value(m.take(19)) == 2585288247294126721976137912083204687019621796nat);
    assert(m.take(20).drop_last() =~= m.take(19));
    assert(be_value(m.take(20)) == 661833791307296440825891305493300399877023179778nat);
    assert(m.take(21).drop_last() =~= m.take(20));
    assert(be_value(m.take(21)) == 169429450574667888851428174206284902368517934023423nat);
    assert(m.take(22).drop_last() =~= m.take(21));
    assert(be_value(m.take(22)) == 43373939347114979545965612596808935006340591109996542nat);
    assert(m.take(23).drop_last() =~= m.take(22));
    assert(be_value(m.take(23)) == 11103728472861434763767196824783087361623191324159114843nat);
    assert(m.take(24).drop_last() =~= m.take(23));
    assert(be_value(m.take(24)) == 2842554489052527299524402387144470364575536978984733400062nat);
    assert(m.take(25).drop_last() =~= m.take(24));
    assert(be_value(m.take(25)) == 727693949197446988678247011108984413331337466620091750416127nat);
    assert(m.take(26).drop_last() =~= m.take(25));
    assert(be_value(m.take(26)) == 186289650994546429101631234843900009812822391454743488106528767nat);
    assert(m.take(27).drop_last() =~= m.take(26));
    assert(be_value(m.take(27)) == 47690150654603885850017596120038402512082532212414332955271364607nat);
    assert(m.take(28).drop_last() =~= m.take(27));
    assert(be_value(m.take(28)) == 12208678567578594777604504606729831043093128246378069236549469339647nat);
    assert(m.take(29).drop_last() =~= m.take(28));
    assert(be_value(m.take(29)) == 3125421713300120263066753179322836747031840831072785724556664150949632nat);
    assert(m.take(30).drop_last() =~= m.take(29));
    assert(be_value(m.take(30)) == 800107958604830787345088813906646207240151252754633145486506022643105792nat);
    assert(m.take(31).drop_last() =~= m.take(30));
    assert(be_value(m.take(31)) == 204827637402836681560342736360101429053478720705186085244545541796635082752nat);
    assert(m.take(32).drop_last() =~= m.take(31));
    assert(be_value(m.take(32)) == 52435875175126190479447740508185965837690552500527637822603658699938581184513nat);
    assert(m.take(32) =~= m);
}

/// Reducing 32 bytes into `Fr` gives 32 bytes whose value is the input's
/// value modulo `r`.
pub proof fn lemma_fr_canonical_value(b: Seq<u8>)
    ensures
        fr_canonical(b).len() == 32,
        be_value(fr_canonical(b)) == be_value(b) % fr_modulus(),
        be_value(fr_canonical(b)) < fr_modulus(),
{
    lemma_fr_modulus_bounds();
    let v = be_value(b) % fr_modulus();
    lemma_be_bytes_len(v, 32);
    lemma_be_roundtrip(v, 32);
}

/// The bytes hashed for the round tag are the circle id in 8 big-endian
/// bytes followed by the round in 4 big-endian bytes.
pub proof fn lemma_round_tag_preimage_layout(circle_id: u64, round: u32)
    ensures
        round_tag_preimage_spec(circle_id, round).len() == 12,
        be_value(round_tag_preimage_spec(circle_id, round).subrange(0, 8)) == circle_id,
        be_value(round_tag_preimage_spec(circle_id, round).subrange(8, 12)) == round,
{
    let pre = round_tag_preimage_spec(circle_id, round);
    reveal_with_fuel(pow256, 9);
    assert(pow256(8) == 0x1_0000_0000_0000_0000nat);
    assert(pow256(4) == 0x1_0000_0000nat);
    lemma_be_bytes_len(circle_id as nat, 8);
    lemma_be_bytes_len(round as nat, 4);
    lemma_be_roundtrip(circle_id as nat, 8);
    lemma_be_roundtrip(round as nat, 4);
    assert(pre.subrange(0, 8) =~= be_bytes(circle_id as nat, 8));
    assert(pre.subrange(8, 12) =~= be_bytes(round as nat, 4));
}

/// The external nullifier of `(circle_id, round)` is the SHA-256 digest of
/// the round-tag preimage, read as a big-endian integer and reduced modulo
/// `r`, in 32 big-endian bytes: the value the off-chain prover puts in the proof.
pub proof fn lemma_external_nullifier_is_reduced_digest(circle_id: u64, round: u32)
    ensures
        external_nullifier_of(circle_id, round).len() == 32,
        be_value(external_nullifier_of(circle_id, round)) == be_value(
            sha256_digest(round_tag_preimage_spec(circle_id, round)),
        ) % fr_modulus(),
{
    lemma_fr_canonical_value(sha256_digest(round_tag_preimage_spec(circle_id, round)));
}

/// 32 bytes are the external nullifier of `(circle_id, round)` exactly when
/// their value is the reduced digest.
pub proof fn lemma_external_nullifier_unique(circle_id: u64, round: u32, tag: Seq<u8>)
    ensures
        tag == external_nullifier_of(circle_id, round) <==> (tag.len() == 32 && be_value(tag)
            == be_value(sha256_digest(round_tag_preimage_spec(circle_id, round))) % fr_modulus()),
{
    lemma_external_nullifier_is_reduced_digest(circle_id, round);
    if tag.len() == 32 && be_value(tag) == be_value(
        sha256_digest(round_tag_preimage_spec(circle_id, round)),
    ) % fr_modulus() {
        lemma_be_inject(tag, external_nullifier_of(circle_id, round));
    }
}

/// A new circle holds exactly what it was created with: the given admin,
/// token, root, contribution, size and key; round 0, an empty pot, no
/// depositors, no nullifiers, and open.
pub proof fn lemma_new_circle_fields(
    admin: Address,
    token: Address,
    root: Seq<u8>,
    contribution: i128,
    size: u32,
    vk: VerificationKeyView,
)
    ensures
        ({
            let c = new_circle(admin, token, root, contribution, size, vk);
            &&& c.admin == admin
            &&& c.token == token
            &&& c.root == root
            &&& c.contribution == contribution
            &&& c.size == size
            &&& c.vk == vk
            &&& c.round == 0
            &&& c.pot == 0
            &&& c.contributors.len() == 0
            &&& c.nullifiers.len() == 0
            &&& !c.cancelled
        }),
{
}

/// A deposit goes through exactly when the circle is open, its target
/// `contribution * size` fits in `i128`, its pot is below the target, and the
/// pot plus one contribution fits in `i128`. It then adds one contribution to
/// the pot and appends the depositor, leaving everything else as it was. Each
/// refusal comes with its own error, checked in that order.
pub proof fn lemma_fund_outcome(c: CircleView, from: Address)
    ensures
        fund_result(None, from) == Err::<CircleView, Error>(Error::CircleNotFound),
        fund_result(Some(c), from) is Ok <==> (!c.cancelled && fits_i128(c.contribution * c.size)
            && c.pot < c.contribution * c.size && fits_i128(c.pot + c.contribution)),
        fund_result(Some(c), from) is Ok ==> ({
            let d = fund_result(Some(c), from)->Ok_0;
            &&& d.pot == c.pot + c.contribution
            &&& d.contributors == c.contributors.push(from)
            &&& d.admin == c.admin && d.token == c.token && d.root == c.root
            &&& d.contribution == c.contribution && d.size == c.size && d.round == c.round
            &&& d.vk == c.vk && d.nullifiers == c.nullifiers && d.cancelled == c.cancelled
        }),
        c.cancelled ==> fund_result(Some(c), from) == Err::<CircleView, Error>(
            Error::CircleCancelled,
        ),
        !c.cancelled && !fits_i128(c.contribution * c.size) ==> fund_result(Some(c), from) == Err::<
            CircleView,
            Error,
        >(Error::Overflow),
        !c.cancelled && fits_i128(c.contribution * c.size) && c.pot >= c.contribution * c.size
            ==> fund_result(Some(c), from) == Err::<CircleView, Error>(Error::RoundFull),
        !c.cancelled && fits_i128(c.contribution * c.size) && c.pot < c.contribution * c.size
            && !fits_i128(c.pot + c.contribution) ==> fund_result(Some(c), from) == Err::<
            CircleView,
            Error,
        >(Error::Overflow),
{
}

/// The proof of a claim is checked on exactly `(nullifier, root, external)`,
/// in that order, unchanged.
pub proof fn lemma_claim_inputs_are_given_values(c: CircleView, nullifier: Seq<u8>, external: Seq<u8>)
    ensures
        claim_inputs(c, nullifier, external).len() == 3,
        claim_inputs(c, nullifier, external)[0] == nullifier,
        claim_inputs(c, nullifier, external)[1] == c.root,
        claim_inputs(c, nullifier, external)[2] == external,
{
}

/// A claim pays when every check passes: the circle is open, its target fits
/// in `i128` and the pot holds exactly the target, the tag is the reduced
/// digest of this circle and round, the nullifier was never used on it, and
/// the proof verifies on `(nullifier, root, tag)`. The payout is the whole
/// pot; the circle's pot empties, its depositors clear, its round advances by
/// one and the nullifier is recorded last; nothing else changes.
pub proof fn lemma_claim_pays_valid_proof(
    circle_id: u64,
    c: CircleView,
    nullifier: Seq<u8>,
    external: Seq<u8>,
    proof: ProofView,
)
    requires
        !c.cancelled,
        fits_i128(c.contribution * c.size),
        c.pot == c.contribution * c.size,
        external.len() == 32,
        be_value(external) == be_value(sha256_digest(round_tag_preimage_spec(circle_id, c.round)))
            % fr_modulus(),
        !c.nullifiers.contains(nullifier),
        groth16_accepts(c.vk, proof, seq![nullifier, c.root, external]),
        c.round < u32::MAX,
    ensures
        claim_result(circle_id, Some(c), nullifier, external, proof) is Ok,
        ({
            let (d, payout) = claim_result(circle_id, Some(c), nullifier, external, proof)->Ok_0;
            &&& payout == c.pot
            &&& d.pot == 0
            &&& d.contributors.len() == 0
            &&& d.round == c.round + 1
            &&& d.nullifiers == c.nullifiers.push(nullifier)
            &&& d.admin == c.admin && d.token == c.token && d.root == c.root
            &&& d.contribution == c.contribution && d.size == c.size && d.vk == c.vk
            &&& !d.cancelled
        }),
{
    lemma_external_nullifier_unique(circle_id, c.round, external);
    assert(claim_inputs(c, nullifier, external) =~= seq![nullifier, c.root, external]);
}

/// A claim pays only when every check passes, and then pays the whole pot.
pub proof fn lemma_claim_pays_only_valid_proof(
    circle_id: u64,
    c: CircleView,
    nullifier: Seq<u8>,
    external: Seq<u8>,
    proof: ProofView,
)
    requires
        claim_result(circle_id, Some(c), nullifier, external, proof) is Ok,
    ensures
        !c.cancelled,
        fits_i128(c.contribution * c.size),
        c.pot == c.contribution * c.size,
        external.len() == 32,
        be_value(external) == be_value(sha256_digest(round_tag_preimage_spec(circle_id, c.round)))
            % fr_modulus(),
        !c.nullifiers.contains(nullifier),
        groth16_accepts(c.vk, proof, seq![nullifier, c.root, external]),
        claim_result(circle_id, Some(c), nullifier, external, proof)->Ok_0.1 == c.pot,
{
    lemma_external_nullifier_unique(circle_id, c.round, external);
    assert(claim_inputs(c, nullifier, external) =~= seq![nullifier, c.root, external]);
}

/// The refusals of a claim, in order: unknown circle, cancelled, target too
/// large, pot not exactly the target, tag not the reduced digest of this
/// circle and round, nullifier already used, proof rejected.
pub proof fn lemma_claim_refusals(
    circle_id: u64,
    c: CircleView,
    nullifier: Seq<u8>,
    external: Seq<u8>,
    proof: ProofView,
)
    ensures
        claim_result(circle_id, None, nullifier, external, proof) == Err::<(CircleView, i128), Error>(
            Error::CircleNotFound,
        ),
        ({
            let r = claim_result(circle_id, Some(c), nullifier, external, proof);
            let tag_ok = external.len() == 32 && be_value(external) == be_value(
                sha256_digest(round_tag_preimage_spec(circle_id, c.round)),
            ) % fr_modulus();
            let target = c.contribution * c.size;
            &&& c.cancelled ==> r == Err::<(CircleView, i128), Error>(Error::CircleCancelled)
            &&& !c.cancelled && !fits_i128(target) ==> r == Err::<(CircleView, i128), Error>(
                Error::Overflow,
            )
            &&& !c.cancelled && fits_i128(target) && c.pot != target ==> r == Err::<
                (CircleView, i128),
                Error,
            >(Error::RoundNotFunded)
            &&& !c.cancelled && fits_i128(target) && c.pot == target && !tag_ok ==> r == Err::<
                (CircleView, i128),
                Error,
            >(Error::WrongRoundTag)
            &&& !c.cancelled && fits_i128(target) && c.pot == target && tag_ok
                && c.nullifiers.contains(nullifier) ==> r == Err::<(CircleView, i128), Error>(
                Error::AlreadyClaimed,
            )
            &&& !c.cancelled && fits_i128(target) && c.pot == target && tag_ok
                && !c.nullifiers.contains(nullifier) && !groth16_accepts(
                c.vk,
                proof,
                seq![nullifier, c.root, external],
            ) ==> r == Err::<(CircleView, i128), Error>(Error::InvalidProof)
        }),
{
    lemma_external_nullifier_unique(circle_id, c.round, external);
    assert(claim_inputs(c, nullifier, external) =~= seq![nullifier, c.root, external]);
}


/// The modulus `p` of the BLS12-381 base field, as a number.
pub proof fn lemma_fp_modulus_value()
    ensures
        fp_modulus() == 0x1a0111ea397fe69a4b1ba7b6434bacd764774b84f38512bf6730d2a0f6b0f6241eabfffeb153ffffb9feffffffffaaabnat,
{
    let m = fp_modulus_bytes();
    assert(be_value(m.take(0)) == 0);
    assert(m.take(1).drop_last() =~= m.take(0));
    assert(be_value(m.take(1)) == 26nat);
    assert(m.take(2).drop_last() =~= m.take(1));
    assert(be_value(m.take(2)) == 6657nat);
    assert(m.take(3).drop_last() =~= m.take(2));
    assert(be_value(m.take(3)) == 1704209nat);
    assert(m.take(4).drop_last() =~= m.take(3));
    assert(be_value(m.take(4)) == 436277738nat);
    assert(m.take(5).drop_last() =~= m.take(4));
    assert(be_value(m.take(5)) == 111687100985nat);
    assert(m.take(6).drop_last() =~= m.take(5));
    assert(be_value(m.take(6)) == 28591897852287nat);
    assert(m.take(7).drop_last() =~= m.take(6));
    assert(be_value(m.take(7)) == 7319525850185702nat);
    assert(m.take(8).drop_last() =~= m.take(7));
    assert(be_value(m.take(8)) == 1873798617647539866nat);
    assert(m.take(9).drop_last() =~= m.take(8));
    assert(be_value(m.take(9)) == 479692446117770205771nat);
    assert(m.take(10).drop_last() =~= m.take(9));
    assert(be_value(m.take(10)) == 122801266206149172677403nat);
    assert(m.take(11).drop_last() =~= m.take(10));
    assert(be_value(m.take(11)) == 31437124148774188205415335nat);
    assert(m.take(12).drop_last() =~= m.take(11));
    assert(be_value(m.take(12)) == 8047903782086192180586325942nat);
    assert(m.take(13).drop_last() =~= m.take(12));
    assert(be_value(m.take(13)) == 2060263368214065198230099441219nat);
    assert(m.take(14).drop_last() =~= m.take(13));
    assert(be_value(m.take(14)) == 527427422262800690746905456952139nat);
    assert(m.take(15).drop_last() =~= m.take(14));
    assert(be_value(m.take(15)) == 135021420099276976831207796979747756nat);
    assert(m.take(16).drop_last() =~= m.take(15));
    assert(be_value(m.take(16)) == 34565483545414906068789196026815425751nat);
    assert(m.take(17).drop_last() =~= m.take(16));
    assert(be_value(m.take(17)) == 8848763787626215953610034182864748992356nat);
    assert(m.take(18).drop_last() =~= m.take(17));
    assert(be_value(m.take(18)) == 2265283529632311284124168750813375742043255nat);
    assert(m.take(19).drop_last() =~= m.take(18));
    assert(be_value(m.take(19)) == 579912583585871688735787200208224189963073355nat);
    assert(m.take(20).drop_last() =~= m.take(19));
    assert(be_value(m.take(20)) == 148457621397983152316361523253305392630546779012nat);
    assert(m.take(21).drop_last() =~= m.take(20));
    assert(be_value(m.take(21)) == 38005151077883686992988549952846180513419975427315nat);
    assert(m.take(22).drop_last() =~= m.take(21));
    assert(be_value(m.take(22)) == 9729318675938223870205068787928622211435513709392773nat);
    assert(m.take(23).drop_last() =~= m.take(22));
    assert(be_value(m.take(23)) == 2490705581040185310772497609709727286127491509604549906nat);
    assert(m.take(24).drop_last() =~= m.take(23));
    assert(be_value(m.take(24)) == 637620628746287439557759388085690185248637826458764776127nat);
    assert(m.take(25).drop_last() =~= m.take(24));
    assert(be_value(m.take(25)) == 163230880959049584526786403349936687423651283573443782688615nat);
    assert(m.take(26).drop_last() =~= m.take(25));
    assert(be_value(m.take(26)) == 41787105525516693638857319257583791980454728594801608368285488nat);
    assert(m.take(27).drop_last() =~= m.take(26));
    assert(be_value(m.take(27)) == 10697499014532273571547473729941450746996410520269211742281085138nat);
    assert(m.take(28).drop_last() =~= m.take(27));
    assert(be_value(m.take(28)) == 2738559747720262034316153274865011391231081093188918206023957795488nat);
    assert(m.take(29).drop_last() =~= m.take(28));
    assert(be_value(m.take(29)) == 701071295416387080784935238365442916155156759856363060742133195645174nat);
    assert(m.take(30).drop_last() =~= m.take(29));
    assert(be_value(m.take(30)) == 179474251626595092680943421021553386535720130523228943549986098085164720nat);
    assert(m.take(31).drop_last() =~= m.take(30));
    assert(be_value(m.take(31)) == 45945408416408343726321515781517666953144353413946609548796441109802168566nat);
    assert(m.take(32).drop_last() =~= m.take(31));
    assert(be_value(m.take(32)) == 11762024554600535993938308040068522740004954473970332044491888924109355152932nat);
    assert(m.take(33).drop_last() =~= m.take(32));
    assert(be_value(m.take(33)) == 3011078285977737214448206858257541821441268345336405003389923564571994919150622nat);
    assert(m.take(34).drop_last() =~= m.take(33));
    assert(be_value(m.take(34)) == 770836041210300726898740955713930706288964696406119680867820432530430699302559403nat);
    assert(m.take(35).drop_last() =~= m.take(34));
    assert(be_value(m.take(35)) == 197334026549836986086077684662766260809974962279966638302162030727790259021455207423nat);
    assert(m.take(36).drop_last() =~= m.take(35));
    assert(be_value(m.take(36)) == 50517510796758268438035887273668162767353590343671459405353479866314306309492533100542nat);
    assert(m.take(37).drop_last() =~= m.take(36));
    assert(be_value(m.take(37)) == 12932482763970116720137187142059049668442519127979893607770490845776462415230088473738929nat);
    assert(m.take(38).drop_last() =~= m.take(37));
    assert(be_value(m.take(38)) == 3310715587576349880355119908367116715121284896762852763589245656518774378298902649277165907nat);
    assert(m.take(39).drop_last() =~= m.take(38));
    assert(be_value(m.take(39)) == 847543190419545569370910696541981879071048933571290307478846888068806240844519078214954472447nat);
    assert(m.take(40).drop_last() =~= m.take(39));
    assert(be_value(m.take(40)) == 216971056747403665758953138314747361042188526994250318714584803345614397656196884023028344946687nat);
    assert(m.take(41).drop_last() =~= m.take(40));
    assert(be_value(m.take(41)) == 55544590527335338434292003408575324426800262910528081590933709656477285799986402309895256306352057nat);
    assert(m.take(42).drop_last() =~= m.take(41));
    assert(be_value(m.take(42)) == 14219415174997846639178752872595283053260867305095188887279029672058185164796518991333185614426126846nat);
    assert(m.take(43).drop_last() =~= m.take(42));
    assert(be_value(m.take(43)) == 3640170284799448739629760735384392461634782030104368355143431596046895402187908861781295517293088472831nat);
    assert(m.take(44).drop_last() =~= m.take(43));
    assert(be_value(m.take(44)) == 931883592908658877345218748258404470178504199706718298916718488588005222960104668616011652427030649044991nat);
    assert(m.take(45).drop_last() =~= m.take(44));
    assert(be_value(m.take(45)) == 238562199784616672600375999554151544365697075124919884522679933078529337077786795165698983021319846155517951nat);
    assert(m.take(46).drop_last() =~= m.take(45));
    assert(be_value(m.take(46)) == 61071923144861868185696255885862795357618451231979490437806062868103510291913419562418939653457880615812595711nat);
    assert(m.take(47).drop_last() =~= m.take(46));
    assert(be_value(m.take(47)) == 15634412325084638255538241506780875611550323515386749552078352094234498634729835407979248551285217437648024502186nat);
    assert(m.take(48).drop_last() =~= m.take(47));
    assert(be_value(m.take(48)) == 4002409555221667393417789825735904156556882819939007885332058136124031650490837864442687629129015664037894272559787nat);
    assert(m.take(48) =~= m);
}

/// Negating a G1 point `(x, y)` whose `y` is a field element keeps `x` and
/// replaces `y` by `p - y` modulo `p` (so `0` stays `0`), in 96 bytes.
pub proof fn lemma_g1_negation_value(pt: Seq<u8>)
    requires
        pt.len() == 96,
        g1_negatable(pt),
    ensures
        g1_negation(pt).len() == 96,
        g1_negation(pt).subrange(0, 48) == pt.subrange(0, 48),
        be_value(g1_negation(pt).subrange(48, 96)) == (fp_modulus() - be_value(pt.subrange(48, 96)))
            % (fp_modulus() as int),
        be_value(pt.subrange(48, 96)) < fp_modulus(),
{
    lemma_fp_modulus_value();
    let y = be_value(pt.subrange(48, 96));
    let ny = fp_negate(y);
    lemma_be_value_bound(fp_modulus_bytes());
    assert(ny < fp_modulus());
    lemma_be_bytes_len(ny, 48);
    lemma_be_roundtrip(ny, 48);
    let n = g1_negation(pt);
    assert(n.subrange(0, 48) =~= pt.subrange(0, 48));
    assert(n.subrange(48, 96) =~= be_bytes(ny, 48));
    if y == 0 {
        assert((fp_modulus() - 0) % (fp_modulus() as int) == 0) by {
            vstd::arithmetic::div_mod::lemma_mod_self_0(fp_modulus() as int);
        }
    } else {
        vstd::arithmetic::div_mod::lemma_small_mod((fp_modulus() - y) as nat, fp_modulus());
    }
}

/// The Groth16 check accepts exactly when the key has one basis point per
/// public input plus one and
/// `e(-A, B) · e(alpha, beta) · e(vk_x, gamma) · e(C, delta)` is the identity.
pub proof fn lemma_groth16_accepts_meaning(vk: VerificationKeyView, proof: ProofView, inputs: Seq<Seq<u8>>)
    ensures
        groth16_accepts(vk, proof, inputs) <==> (inputs.len() + 1 == vk.ic.len()
            && multi_pairing_holds(
            seq![g1_negation(proof.a), vk.alpha, vk_x(vk.ic, inputs, inputs.len()), proof.c],
            seq![proof.b, vk.beta, vk.gamma, vk.delta],
        )),
{
}

/// `vk_x` starts at `ic[0]` and adds `inputs[i] · ic[i + 1]` for each public
/// input in turn; a canonical input is used as it is.
pub proof fn lemma_vk_x_steps(ic: Seq<Seq<u8>>, inputs: Seq<Seq<u8>>, n: nat)
    requires
        n < inputs.len(),
        fr_is_canonical(inputs[n as int]),
    ensures
        vk_x(ic, inputs, 0) == ic[0],
        vk_x(ic, inputs, (n + 1) as nat) == g1_sum(vk_x(ic, inputs, n), g1_scaled(ic[n + 1 as int], inputs[n as int])),
{
    lemma_canonical_fixed_point(inputs[n as int]);
    assert((n + 1 - 1) as nat == n);
}

/// A cancellation goes through exactly when the circle exists and is open.
/// It refunds the round's depositors, in the order they deposited, one
/// contribution each, and leaves the circle closed with an empty pot and no
/// depositors; its round, nullifiers and everything else stay as they were.
pub proof fn lemma_cancel_outcome(c: CircleView)
    ensures
        cancel_result(None) == Err::<(CircleView, Seq<Address>, i128), Error>(Error::CircleNotFound),
        c.cancelled ==> cancel_result(Some(c)) == Err::<(CircleView, Seq<Address>, i128), Error>(
            Error::CircleCancelled,
        ),
        !c.cancelled ==> cancel_result(Some(c)) is Ok,
        cancel_result(Some(c)) is Ok ==> ({
            let (d, refund_to, amount) = cancel_result(Some(c))->Ok_0;
            &&& refund_to == c.contributors
            &&& amount == c.contribution
            &&& d.cancelled
            &&& d.pot == 0
            &&& d.contributors.len() == 0
            &&& d.round == c.round && d.nullifiers == c.nullifiers
            &&& d.admin == c.admin && d.token == c.token && d.root == c.root
            &&& d.contribution == c.contribution && d.size == c.size && d.vk == c.vk
        }),
{
}

/// `has_claimed` looks for the nullifier among those recorded on the circle.
pub proof fn lemma_has_nullifier_meaning(c: CircleView, nullifier: Seq<u8>)
    ensures
        c.has_nullifier(nullifier) <==> exists|i: int|
            0 <= i < c.nullifiers.len() && #[trigger] c.nullifiers[i] == nullifier,
{
}

/// The count of a contract that never stored one is 0; otherwise it is the
/// stored counter.
pub proof fn lemma_count_read(counter: Option<u64>)
    ensures
        next_id(None) == 0,
        counter matches Some(n) ==> next_id(counter) == n,
{
}

/// The target of a round is `contribution * size`.
pub proof fn lemma_target_is_product(c: CircleView)
    ensures
        c.target() == c.contribution * c.size,
{
}

/// The number under which each error is reported.
pub proof fn lemma_error_numbers()
    ensures
        error_code(Error::CircleNotFound) == 1,
        error_code(Error::RoundNotFunded) == 2,
        error_code(Error::WrongRoundTag) == 3,
        error_code(Error::AlreadyClaimed) == 4,
        error_code(Error::InvalidProof) == 5,
        error_code(Error::RoundFull) == 6,
        error_code(Error::Overflow) == 7,
        error_code(Error::CircleCancelled) == 8,
{
}

/// The fee is `fee_bps * amount / 10_000` rounded toward zero: for a
/// non-negative product it is the largest `f` with `10_000 * f` at most the
/// product; for a negative product, the smallest `f` with `10_000 * f` at
/// least the product.
pub proof fn lemma_fee_rounds_toward_zero(fee_bps: u32, amount: i128)
    ensures
        fee_bps * amount >= 0 ==> 10_000 * fee_of(fee_bps, amount) <= fee_bps * amount < 10_000 * (
        fee_of(fee_bps, amount) + 1),
        fee_bps * amount < 0 ==> 10_000 * (fee_of(fee_bps, amount) - 1) < fee_bps * amount
            <= 10_000 * fee_of(fee_bps, amount),
{
    let p = fee_bps * amount;
    if p >= 0 {
        vstd::arithmetic::div_mod::lemma_fundamental_div_mod(p, 10_000);
    } else {
        vstd::arithmetic::div_mod::lemma_fundamental_div_mod(-p, 10_000);
    }
}


/// 32 bytes are a canonical scalar exactly when their value is below the
/// group order.
pub proof fn lemma_canonical_scalar_meaning(b: Seq<u8>)
    ensures
        fr_is_canonical(b) <==> (b.len() == 32 && be_value(b)
            < 0x73eda753299d7d483339d80809a1d80553bda402fffe5bfeffffffff00000001nat),
{
    lemma_fr_modulus_value();
}

/// A G1 encoding is well formed exactly when it has 96 bytes and either both
/// 48-byte coordinates are below `p`, or it is the infinity flag `0x40`
/// followed by zeros; a G2 encoding likewise, with 192 bytes and four
/// coordinates.
pub proof fn lemma_point_encoding_meaning(pt: Seq<u8>)
    ensures
        g1_encoding_valid(pt) <==> (pt.len() == 96 && ((be_value(pt.subrange(0, 48)) < fp_modulus()
            && be_value(pt.subrange(48, 96)) < fp_modulus()) || (pt[0] == 0x40 && forall|i: int|
            1 <= i < 96 ==> pt[i] == 0))),
        g2_encoding_valid(pt) <==> (pt.len() == 192 && ((be_value(pt.subrange(0, 48))
            < fp_modulus() && be_value(pt.subrange(48, 96)) < fp_modulus() && be_value(
            pt.subrange(96, 144),
        ) < fp_modulus() && be_value(pt.subrange(144, 192)) < fp_modulus()) || (pt[0] == 0x40
            && forall|i: int| 1 <= i < 192 ==> pt[i] == 0))),
{
}

/// The points checked before a proof is verified: every point of the key
/// (alpha, beta, gamma, delta and each basis point) and of the proof (A, B, C)
/// must be a valid subgroup point of its group.
pub proof fn lemma_points_ok_meaning(vk: VerificationKeyView, proof: ProofView)
    ensures
        groth16_points_ok(vk, proof) <==> ({
            &&& g1_group_point(vk.alpha)
            &&& g2_group_point(vk.beta)
            &&& g2_group_point(vk.gamma)
            &&& g2_group_point(vk.delta)
            &&& (forall|i: int| 0 <= i < vk.ic.len() ==> g1_group_point(#[trigger] vk.ic[i]))
            &&& g1_group_point(proof.a)
            &&& g2_group_point(proof.b)
            &&& g1_group_point(proof.c)
        }),
        g1_group_point(proof.a) <==> (g1_encoding_valid(proof.a) && g1_on_curve(proof.a)
            && g1_in_subgroup(proof.a)),
        g2_group_point(proof.b) <==> (g2_encoding_valid(proof.b) && g2_on_curve(proof.b)
            && g2_in_subgroup(proof.b)),
{
}

/// A claim cannot run (`try_claim` answers `None`) exactly when it gets past
/// every check before the proof (the circle is open, its target fits, the pot
/// holds the target, the tag is this circle and round's, the nullifier is
/// unused) and then either a point of a correctly shaped key or of the proof
/// is not a valid subgroup point, or the proof verifies with the round counter
/// at `u32::MAX`.
pub proof fn lemma_claim_runs_meaning(
    circle_id: u64,
    c: CircleView,
    nullifier: Seq<u8>,
    external: Seq<u8>,
    proof: ProofView,
)
    ensures
        claim_admissible(circle_id, None, nullifier, external, proof),
        !claim_admissible(circle_id, Some(c), nullifier, external, proof) <==> ({
            &&& !c.cancelled
            &&& fits_i128(c.contribution * c.size)
            &&& c.pot == c.contribution * c.size
            &&& external == external_nullifier_of(circle_id, c.round)
            &&& !c.nullifiers.contains(nullifier)
            &&& (c.vk.ic.len() == 4 && !groth16_points_ok(c.vk, proof)) || (groth16_accepts(
                c.vk,
                proof,
                seq![nullifier, c.root, external],
            ) && c.round == u32::MAX)
        }),
{
    assert(claim_inputs(c, nullifier, external) =~= seq![nullifier, c.root, external]);
}

} // verus!
