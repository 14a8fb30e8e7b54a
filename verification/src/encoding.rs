//! Big-endian byte strings: how integers are laid out as bytes, and the
//! preimage that binds a proof to one round of one circle.

use vstd::prelude::*;

verus! {

/// `256^k`.
pub open spec fn pow256(k: nat) -> nat
    decreases k,
{
    if k == 0 {
        1
    } else {
        256 * pow256((k - 1) as nat)
    }
}

/// The unsigned integer that the big-endian byte string `b` denotes.
pub open spec fn be_value(b: Seq<u8>) -> nat
    decreases b.len(),
{
    if b.len() == 0 {
        0
    } else {
        be_value(b.drop_last()) * 256 + b.last() as nat
    }
}

/// The `n` low-order bytes of `v`, most significant first (the layout of
/// `to_be_bytes` for an `n`-byte integer).
pub open spec fn be_bytes(v: nat, n: nat) -> Seq<u8>
    decreases n,
{
    if n == 0 {
        Seq::empty()
    } else {
        be_bytes(v / 256, (n - 1) as nat).push((v % 256) as u8)
    }
}

/// The bytes hashed to bind a proof to `(circle_id, round)`: the big-endian
/// encoding of the circle id (8 bytes) followed by that of the round (4 bytes).
pub open spec fn round_tag_preimage_spec(circle_id: u64, round: u32) -> Seq<u8> {
    be_bytes(circle_id as nat, 8) + be_bytes(round as nat, 4)
}

pub proof fn lemma_pow256_positive(k: nat)
    ensures
        pow256(k) >= 1,
    decreases k,
{
    if k > 0 {
        lemma_pow256_positive((k - 1) as nat);
    }
}

pub proof fn lemma_be_bytes_len(v: nat, n: nat)
    ensures
        be_bytes(v, n).len() == n,
    decreases n,
{
    if n > 0 {
        lemma_be_bytes_len(v / 256, (n - 1) as nat);
    }
}

/// Encoding `v < 256^n` in `n` bytes and reading the bytes back gives `v`.
pub proof fn lemma_be_roundtrip(v: nat, n: nat)
    requires
        v < pow256(n),
    ensures
        be_value(be_bytes(v, n)) == v,
    decreases n,
{
    if n > 0 {
        let m = (n - 1) as nat;
        let s = be_bytes(v / 256, m);
        assert(v / 256 < pow256(m)) by (nonlinear_arith)
            requires
                v < 256 * pow256(m),
        ;
        lemma_be_roundtrip(v / 256, m);
        assert(be_bytes(v, n).drop_last() =~= s);
    }
}

/// Laying out `a * 256^k + b` (with `b < 256^k`) in `n + k` bytes is laying out
/// `a` in `n` bytes followed by `b` in `k` bytes.
pub proof fn lemma_be_concat(a: nat, b: nat, n: nat, k: nat)
    requires
        b < pow256(k),
    ensures
        be_bytes(a * pow256(k) + b, n + k) == be_bytes(a, n) + be_bytes(b, k),
    decreases k,
{
    if k == 0 {
        assert(b == 0);
        assert(be_bytes(a, n) + be_bytes(b, k) =~= be_bytes(a, n));
    } else {
        let m = (k - 1) as nat;
        let p = pow256(m);
        let v = a * pow256(k) + b;
        assert(v / 256 == a * p + b / 256 && v % 256 == b % 256 && b / 256 < p)
            by (nonlinear_arith)
            requires
                v == a * (256 * p) + b,
                b < 256 * p,
                0 <= a,
                0 <= b,
                p >= 1,
        {
            assert(v == (a * p) * 256 + b);
        }
        lemma_be_concat(a, b / 256, n, m);
        assert((n + k - 1) as nat == n + m);
        assert(be_bytes(v, n + k) == be_bytes(v / 256, n + m).push((v % 256) as u8));
        assert(be_bytes(b, k) == be_bytes(b / 256, m).push((b % 256) as u8));
        assert(be_bytes(v / 256, n + m) == be_bytes(a * p + b / 256, n + m));
        assert(be_bytes(a, n) + be_bytes(b, k) =~= (be_bytes(a, n) + be_bytes(b / 256, m)).push(
            (b % 256) as u8,
        ));
    }
}

/// Two byte strings of the same length that denote the same value are equal.
pub proof fn lemma_be_inject(s: Seq<u8>, t: Seq<u8>)
    requires
        s.len() == t.len(),
        be_value(s) == be_value(t),
    ensures
        s == t,
    decreases s.len(),
{
    if s.len() > 0 {
        let (a, b) = (s.drop_last(), t.drop_last());
        assert(be_value(a) * 256 + s.last() == be_value(b) * 256 + t.last());
        assert(be_value(a) == be_value(b) && s.last() == t.last()) by (nonlinear_arith)
            requires
                be_value(a) * 256 + s.last() == be_value(b) * 256 + t.last(),
                0 <= s.last() < 256,
                0 <= t.last() < 256,
                be_value(a) >= 0,
                be_value(b) >= 0,
        ;
        lemma_be_inject(a, b);
        assert(s =~= a.push(s.last()));
        assert(t =~= b.push(t.last()));
    }
}

/// Distinct `(circle_id, round)` pairs give distinct preimages.
pub proof fn lemma_round_tag_preimage_injective(id1: u64, r1: u32, id2: u64, r2: u32)
    requires
        round_tag_preimage_spec(id1, r1) == round_tag_preimage_spec(id2, r2),
    ensures
        id1 == id2,
        r1 == r2,
{
    let p8 = pow256(8);
    let p4 = pow256(4);
    reveal_with_fuel(pow256, 9);
    assert(p4 == 0x1_0000_0000);
    assert(p8 == 0x1_0000_0000_0000_0000);
    lemma_be_bytes_len(id1 as nat, 8);
    lemma_be_bytes_len(id2 as nat, 8);
    lemma_be_bytes_len(r1 as nat, 4);
    lemma_be_bytes_len(r2 as nat, 4);
    let s1 = round_tag_preimage_spec(id1, r1);
    let s2 = round_tag_preimage_spec(id2, r2);
    assert(s1.subrange(0, 8) =~= be_bytes(id1 as nat, 8));
    assert(s2.subrange(0, 8) =~= be_bytes(id2 as nat, 8));
    assert(s1.subrange(8, 12) =~= be_bytes(r1 as nat, 4));
    assert(s2.subrange(8, 12) =~= be_bytes(r2 as nat, 4));
    lemma_be_roundtrip(id1 as nat, 8);
    lemma_be_roundtrip(id2 as nat, 8);
    lemma_be_roundtrip(r1 as nat, 4);
    lemma_be_roundtrip(r2 as nat, 4);
}

/// The 12-byte preimage `circle_id.to_be_bytes() ++ round.to_be_bytes()`.
pub fn round_tag_preimage(circle_id: u64, round: u32) -> (out: Vec<u8>)
    ensures
        out@ == round_tag_preimage_spec(circle_id, round),
{
    let value: u128 = (circle_id as u128) * 0x1_0000_0000u128 + (round as u128);
    proof {
        reveal_with_fuel(pow256, 13);
        assert(pow256(12) == 0x1_0000_0000_0000_0000_0000_0000);
        assert(pow256(4) == 0x1_0000_0000);
    }
    let mut out: Vec<u8> = Vec::new();
    let mut j: usize = 0;
    while j < 12
        invariant
            j <= 12,
            out@.len() == j,
        decreases 12 - j,
    {
        out.push(0u8);
        j = j + 1;
    }
    let mut rest: u128 = value;
    let mut i: usize = 12;
    while i > 0
        invariant
            i <= 12,
            out@.len() == 12,
            (rest as nat) < pow256(i as nat),
            be_bytes(value as nat, 12) == be_bytes(rest as nat, i as nat) + out@.subrange(
                i as int,
                12,
            ),
        decreases i,
    {
        let ghost old_out = out@;
        let ghost old_rest = rest as nat;
        let b = (rest % 256) as u8;
        out.set(i - 1, b);
        rest = rest / 256;
        proof {
            let m = (i - 1) as nat;
            assert(old_rest / 256 < pow256(m)) by (nonlinear_arith)
                requires
                    old_rest < 256 * pow256(m),
            ;
            assert(be_bytes(old_rest, i as nat) == be_bytes(old_rest / 256, m).push(
                (old_rest % 256) as u8,
            ));
            assert(be_bytes(old_rest / 256, m).push((old_rest % 256) as u8) + old_out.subrange(
                i as int,
                12,
            ) =~= be_bytes(rest as nat, m) + out@.subrange(i - 1, 12));
        }
        i = i - 1;
    }
    proof {
        assert(out@.subrange(0, 12) =~= out@);
        assert(be_bytes(rest as nat, 0) + out@ =~= out@);
        lemma_be_concat(circle_id as nat, round as nat, 8, 4);
    }
    out
}

/// Byte-wise equality of two 32-byte strings.
pub fn bytes32_equal(a: &[u8; 32], b: &[u8; 32]) -> (r: bool)
    ensures
        r == (a@ == b@),
{
    let mut i: usize = 0;
    while i < 32
        invariant
            i <= 32,
            a@.len() == 32,
            b@.len() == 32,
            forall|j: int| 0 <= j < i ==> a@[j] == b@[j],
        decreases 32 - i,
    {
        if a[i] != b[i] {
            return false;
        }
        i = i + 1;
    }
    assert(a@ =~= b@);
    true
}

} // verus!
