//! The two prime fields of BLS12-381 as they appear in byte strings: scalars
//! (`Fr`, 32 bytes) and base-field coordinates (`Fp`, 48 bytes).

use vstd::prelude::*;
use crate::encoding::{be_bytes, be_value, pow256, lemma_pow256_positive};

verus! {

/// The order `r` of the BLS12-381 groups, the modulus of `Fr`, big-endian:
/// `0x73eda753299d7d483339d80809a1d80553bda402fffe5bfeffffffff00000001`.
pub open spec fn fr_modulus_bytes() -> Seq<u8> {
    seq![
        0x73u8, 0xedu8, 0xa7u8, 0x53u8, 0x29u8, 0x9du8, 0x7du8, 0x48u8, 0x33u8, 0x39u8, 0xd8u8,
        0x08u8, 0x09u8, 0xa1u8, 0xd8u8, 0x05u8, 0x53u8, 0xbdu8, 0xa4u8, 0x02u8, 0xffu8, 0xfeu8,
        0x5bu8, 0xfeu8, 0xffu8, 0xffu8, 0xffu8, 0xffu8, 0x00u8, 0x00u8, 0x00u8, 0x01u8,
    ]
}

/// The order `r` of the BLS12-381 groups, which is the modulus of `Fr`.
pub open spec fn fr_modulus() -> nat {
    be_value(fr_modulus_bytes())
}

/// The modulus `p` of the BLS12-381 base field `Fp`, big-endian:
/// `0x1a0111ea397fe69a4b1ba7b6434bacd764774b84f38512bf6730d2a0f6b0f6241eabfffeb153ffffb9feffffffffaaab`.
pub open spec fn fp_modulus_bytes() -> Seq<u8> {
    seq![
        0x1au8, 0x01u8, 0x11u8, 0xeau8, 0x39u8, 0x7fu8, 0xe6u8, 0x9au8, 0x4bu8, 0x1bu8, 0xa7u8,
        0xb6u8, 0x43u8, 0x4bu8, 0xacu8, 0xd7u8, 0x64u8, 0x77u8, 0x4bu8, 0x84u8, 0xf3u8, 0x85u8,
        0x12u8, 0xbfu8, 0x67u8, 0x30u8, 0xd2u8, 0xa0u8, 0xf6u8, 0xb0u8, 0xf6u8, 0x24u8, 0x1eu8,
        0xabu8, 0xffu8, 0xfeu8, 0xb1u8, 0x53u8, 0xffu8, 0xffu8, 0xb9u8, 0xfeu8, 0xffu8, 0xffu8,
        0xffu8, 0xffu8, 0xaau8, 0xabu8,
    ]
}

/// The modulus `p` of the BLS12-381 base field `Fp`.
pub open spec fn fp_modulus() -> nat {
    be_value(fp_modulus_bytes())
}

/// The canonical 32-byte form of the scalar that the big-endian bytes `b`
/// denote: the value reduced modulo `r`, written big-endian.
pub open spec fn fr_canonical(b: Seq<u8>) -> Seq<u8> {
    be_bytes(be_value(b) % fr_modulus(), 32)
}

/// The `y` coordinate of an uncompressed G1 encoding (`x || y`, 48 bytes each).
pub open spec fn g1_y(p: Seq<u8>) -> Seq<u8> {
    p.subrange(48, 96)
}

/// The `y` coordinate of `p` is a field element (below `p`), so `p` can be negated.
pub open spec fn g1_negatable(p: Seq<u8>) -> bool {
    be_value(g1_y(p)) < fp_modulus()
}

/// `-y` in `Fp`, for `y < p`.
pub open spec fn fp_negate(y: nat) -> nat {
    if y == 0 {
        0
    } else {
        (fp_modulus() - y) as nat
    }
}

/// The encoding of `-P` for `P = (x, y)`: `x` unchanged, `y` replaced by `-y`.
pub open spec fn g1_negation(p: Seq<u8>) -> Seq<u8> {
    p.subrange(0, 48) + be_bytes(fp_negate(be_value(g1_y(p))), 48)
}

/// `be_value(s) == be_value(s[..k]) * 256^(n-k) + be_value(s[k..])`.
pub proof fn lemma_be_value_split(s: Seq<u8>, k: int)
    requires
        0 <= k <= s.len(),
    ensures
        be_value(s) == be_value(s.subrange(0, k)) * pow256((s.len() - k) as nat) + be_value(
            s.subrange(k, s.len() as int),
        ),
    decreases s.len() - k,
{
    if k == s.len() {
        assert(s.subrange(0, k) =~= s);
        assert(s.subrange(k, s.len() as int) =~= Seq::<u8>::empty());
        assert(be_value(Seq::<u8>::empty()) == 0);
        assert(pow256(0) == 1);
        let z = pow256((s.len() - k) as nat);
        assert(be_value(s) * z == be_value(s)) by (nonlinear_arith)
            requires
                z == 1,
        ;
    } else {
        let n = s.len();
        let t = s.drop_last();
        lemma_be_value_split(t, k);
        let a = be_value(s.subrange(0, k));
        let m = (n - 1 - k) as nat;
        assert(t.subrange(0, k) =~= s.subrange(0, k));
        let mid = s.subrange(k, n - 1);
        assert(t.subrange(k, t.len() as int) =~= mid);
        assert(s.subrange(k, n as int).drop_last() =~= mid);
        assert(be_value(s.subrange(k, n as int)) == be_value(mid) * 256 + s.last());
        assert(pow256((n - k) as nat) == 256 * pow256(m));
        assert(be_value(s) == be_value(t) * 256 + s.last());
        assert(be_value(t) == a * pow256(m) + be_value(mid));
        assert((a * pow256(m) + be_value(mid)) * 256 + s.last() == a * (256 * pow256(m)) + (
        be_value(mid) * 256 + s.last())) by (nonlinear_arith);
        assert(be_value(s) == a * pow256((n - k) as nat) + be_value(s.subrange(k, n as int)));
    }
}

pub proof fn lemma_be_value_bound(s: Seq<u8>)
    ensures
        be_value(s) < pow256(s.len()),
    decreases s.len(),
{
    if s.len() > 0 {
        let t = s.drop_last();
        lemma_be_value_bound(t);
        assert(be_value(t) * 256 + s.last() < 256 * pow256(t.len())) by (nonlinear_arith)
            requires
                be_value(t) < pow256(t.len()),
                s.last() < 256,
        ;
    }
}

/// For byte strings of equal length, the first differing byte decides the order
/// of the integers they denote.
pub proof fn lemma_be_value_first_difference(s: Seq<u8>, t: Seq<u8>, i: int)
    requires
        s.len() == t.len(),
        0 <= i < s.len(),
        forall|j: int| 0 <= j < i ==> s[j] == t[j],
        s[i] < t[i],
    ensures
        be_value(s) < be_value(t),
{
    let n = s.len();
    let rest = (n - (i + 1)) as nat;
    lemma_be_value_split(s, i + 1);
    lemma_be_value_split(t, i + 1);
    lemma_be_value_split(s.subrange(0, i + 1), i);
    lemma_be_value_split(t.subrange(0, i + 1), i);
    assert(s.subrange(0, i + 1).subrange(0, i) =~= t.subrange(0, i + 1).subrange(0, i));
    assert(s.subrange(0, i + 1).subrange(i, i + 1) =~= seq![s[i]]);
    assert(t.subrange(0, i + 1).subrange(i, i + 1) =~= seq![t[i]]);
    assert(seq![s[i]].drop_last() =~= Seq::<u8>::empty());
    assert(seq![t[i]].drop_last() =~= Seq::<u8>::empty());
    assert(be_value(Seq::<u8>::empty()) == 0);
    assert(be_value(seq![s[i]]) == s[i]);
    assert(be_value(seq![t[i]]) == t[i]);
    reveal_with_fuel(pow256, 2);
    assert(pow256(1) == 256);
    let ps = be_value(s.subrange(0, i + 1));
    let pt = be_value(t.subrange(0, i + 1));
    assert(ps < pt);
    let ss = s.subrange(i + 1, n as int);
    lemma_be_value_bound(ss);
    lemma_pow256_positive(rest);
    let ts = t.subrange(i + 1, n as int);
    assert(ps * pow256(rest) + be_value(ss) < pt * pow256(rest) + be_value(ts)) by (nonlinear_arith)
        requires
            ps + 1 <= pt,
            be_value(ss) < pow256(rest),
            0 <= be_value(ts),
    {
        assert(ps * pow256(rest) + pow256(rest) <= pt * pow256(rest));
    }
}

/// Whether the 48 bytes of `bytes` from `start` on, read big-endian, are
/// below the modulus `p` of `Fp`, that is, encode a field element.
fn fp_window_below_modulus(bytes: &[u8], start: usize) -> (r: bool)
    requires
        start + 48 <= bytes@.len(),
    ensures
        r == (be_value(bytes@.subrange(start as int, start + 48)) < fp_modulus()),
{
    let modulus: [u8; 48] = [
        0x1a, 0x01, 0x11, 0xea, 0x39, 0x7f, 0xe6, 0x9a, 0x4b, 0x1b, 0xa7, 0xb6, 0x43, 0x4b, 0xac,
        0xd7, 0x64, 0x77, 0x4b, 0x84, 0xf3, 0x85, 0x12, 0xbf, 0x67, 0x30, 0xd2, 0xa0, 0xf6, 0xb0,
        0xf6, 0x24, 0x1e, 0xab, 0xff, 0xfe, 0xb1, 0x53, 0xff, 0xff, 0xb9, 0xfe, 0xff, 0xff, 0xff,
        0xff, 0xaa, 0xab,
    ];
    let ghost m = fp_modulus_bytes();
    let ghost y = bytes@.subrange(start as int, start + 48);
    assert(modulus@ =~= m);
    let mut i: usize = 0;
    while i < 48
        invariant
            i <= 48,
            start + 48 <= bytes.len(),
            modulus@ == m,
            m == fp_modulus_bytes(),
            y == bytes@.subrange(start as int, start + 48),
            forall|j: int| 0 <= j < i ==> y[j] == m[j],
        decreases 48 - i,
    {
        if bytes[start + i] < modulus[i] {
            proof {
                lemma_be_value_first_difference(y, m, i as int);
            }
            return true;
        }
        if bytes[start + i] > modulus[i] {
            proof {
                lemma_be_value_first_difference(m, y, i as int);
            }
            return false;
        }
        i = i + 1;
    }
    assert(y =~= m);
    false
}

/// Whether the `y` coordinate of the G1 encoding `p` is below the field
/// modulus, that is, whether `p` can be negated.
pub fn g1_negation_defined(p: &[u8; 96]) -> (r: bool)
    ensures
        r == g1_negatable(p@),
{
    fp_window_below_modulus(p.as_slice(), 48)
}

/// The encoding of the point at infinity: the infinity flag alone, then zeros.
pub open spec fn is_infinity_encoding(p: Seq<u8>) -> bool {
    &&& p.len() > 0
    &&& p[0] == 0x40
    &&& forall|i: int| 1 <= i < p.len() ==> p[i] == 0
}

/// The 48-byte coordinate of `p` at `k` (counting from 0) is a field element.
pub open spec fn fp_coordinate_ok(p: Seq<u8>, k: int) -> bool {
    be_value(p.subrange(48 * k, 48 * k + 48)) < fp_modulus()
}

/// A well-formed uncompressed G1 encoding, as the host decodes it: either both
/// coordinates are field elements (which leaves the flag bits unset), or it is
/// the encoding of the point at infinity.
pub open spec fn g1_encoding_valid(p: Seq<u8>) -> bool {
    &&& p.len() == 96
    &&& (fp_coordinate_ok(p, 0) && fp_coordinate_ok(p, 1)) || is_infinity_encoding(p)
}

/// A well-formed uncompressed G2 encoding: all four base-field components are
/// field elements, or it is the encoding of the point at infinity.
pub open spec fn g2_encoding_valid(p: Seq<u8>) -> bool {
    &&& p.len() == 192
    &&& (fp_coordinate_ok(p, 0) && fp_coordinate_ok(p, 1) && fp_coordinate_ok(p, 2)
        && fp_coordinate_ok(p, 3)) || is_infinity_encoding(p)
}

pub proof fn lemma_be_value_zeros(s: Seq<u8>)
    requires
        forall|i: int| 0 <= i < s.len() ==> s[i] == 0,
    ensures
        be_value(s) == 0,
    decreases s.len(),
{
    if s.len() > 0 {
        lemma_be_value_zeros(s.drop_last());
    }
}

/// A well-formed G1 encoding can be negated.
pub proof fn lemma_valid_g1_negatable(p: Seq<u8>)
    requires
        g1_encoding_valid(p),
    ensures
        g1_negatable(p),
{
    if is_infinity_encoding(p) {
        lemma_be_value_zeros(g1_y(p));
        reveal_with_fuel(be_value, 1);
        assert(fp_modulus() > 0) by {
            let m = fp_modulus_bytes();
            assert(m.drop_last().last() == 0xaa);
            lemma_be_value_first_difference(seq![0u8; 48], m, 0);
            lemma_be_value_zeros(seq![0u8; 48]);
        }
    } else {
        assert(g1_y(p) =~= p.subrange(48, 96));
    }
}

/// Whether `p` (of any length) is the encoding of the point at infinity.
fn infinity_encoded(p: &[u8]) -> (r: bool)
    ensures
        r == is_infinity_encoding(p@),
{
    if p.len() == 0 || p[0] != 0x40 {
        return false;
    }
    let mut i: usize = 1;
    while i < p.len()
        invariant
            1 <= i <= p@.len(),
            forall|j: int| 1 <= j < i ==> p@[j] == 0,
        decreases p@.len() - i,
    {
        if p[i] != 0 {
            return false;
        }
        i = i + 1;
    }
    true
}

/// Whether `p` is a well-formed G1 encoding.
pub fn g1_encoding_is_valid(p: &[u8; 96]) -> (r: bool)
    ensures
        r == g1_encoding_valid(p@),
{
    let s = p.as_slice();
    (fp_window_below_modulus(s, 0) && fp_window_below_modulus(s, 48)) || infinity_encoded(s)
}

/// Whether `p` is a well-formed G2 encoding.
pub fn g2_encoding_is_valid(p: &[u8; 192]) -> (r: bool)
    ensures
        r == g2_encoding_valid(p@),
{
    let s = p.as_slice();
    (fp_window_below_modulus(s, 0) && fp_window_below_modulus(s, 48) && fp_window_below_modulus(
        s,
        96,
    ) && fp_window_below_modulus(s, 144)) || infinity_encoded(s)
}

} // verus!
