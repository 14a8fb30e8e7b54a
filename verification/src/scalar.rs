//! Elements of the BLS12-381 scalar field `Fr`, always held in canonical
//! form: 32 big-endian bytes whose value is below the group order `r`.

use vstd::prelude::*;
use soroban_sdk::Env;
use crate::encoding::{be_bytes, be_value, bytes32_equal, lemma_be_roundtrip, pow256};
use crate::field::{fr_canonical, fr_modulus, fr_modulus_bytes, lemma_be_value_bound, lemma_be_value_first_difference, lemma_be_value_zeros};
use crate::host::fr_reduce;

verus! {

/// An element of `Fr`. Like the host's `Fr`, it always holds a value below
/// the group order `r`, so two scalars are the same field element exactly
/// when their bytes are equal.
#[derive(Clone, Copy, Debug, PartialEq, Eq)]
pub struct Scalar {
    bytes: [u8; 32],
}

impl View for Scalar {
    type V = Seq<u8>;

    closed spec fn view(&self) -> Seq<u8> {
        self.bytes@
    }
}

/// The 32 big-endian bytes `b` denote a value below `r`.
pub open spec fn fr_is_canonical(b: Seq<u8>) -> bool {
    b.len() == 32 && be_value(b) < fr_modulus()
}

/// The views of a list of scalars.
pub open spec fn scalar_views(s: Seq<Scalar>) -> Seq<Seq<u8>> {
    s.map_values(|x: Scalar| x@)
}

/// `r` is positive and below `256^32`.
pub proof fn lemma_fr_modulus_bounds()
    ensures
        0 < fr_modulus() < pow256(32),
{
    let m = fr_modulus_bytes();
    lemma_be_value_bound(m);
    lemma_be_value_zeros(seq![0u8; 32]);
    lemma_be_value_first_difference(seq![0u8; 32], m, 0);
}

/// The canonical form of any 32 bytes is canonical.
pub proof fn lemma_fr_canonical_is_canonical(b: Seq<u8>)
    ensures
        fr_is_canonical(fr_canonical(b)),
{
    lemma_fr_modulus_bounds();
    let v = be_value(b) % fr_modulus();
    crate::encoding::lemma_be_bytes_len(v, 32);
    lemma_be_roundtrip(v, 32);
}

/// A canonical scalar is its own canonical form.
pub proof fn lemma_canonical_fixed_point(b: Seq<u8>)
    requires
        fr_is_canonical(b),
    ensures
        fr_canonical(b) == b,
{
    lemma_fr_modulus_bounds();
    let v = be_value(b);
    vstd::arithmetic::div_mod::lemma_small_mod(v, fr_modulus());
    assert(fr_canonical(b) == be_bytes(v, 32));
    crate::encoding::lemma_be_bytes_len(v, 32);
    lemma_be_roundtrip(v, 32);
    crate::encoding::lemma_be_inject(be_bytes(v, 32), b);
}

impl Scalar {
    #[verifier::type_invariant]
    spec fn canonical(self) -> bool {
        be_value(self.bytes@) < fr_modulus()
    }

    /// The scalar that `bytes` denote, reduced modulo `r`, as the host's
    /// `Fr::from_bytes` makes it.
    pub fn from_be_bytes(env: &Env, bytes: &[u8; 32]) -> (s: Scalar)
        ensures
            s@ == fr_canonical(bytes@),
    {
        let reduced = fr_reduce(env, bytes);
        proof {
            lemma_fr_canonical_is_canonical(bytes@);
        }
        Scalar { bytes: reduced }
    }

    /// The scalar whose canonical bytes are `bytes`, or `None` when their value
    /// is not below `r`.
    pub fn from_canonical_bytes(bytes: [u8; 32]) -> (s: Option<Scalar>)
        ensures
            s is Some <==> fr_is_canonical(bytes@),
            s matches Some(x) ==> x@ == bytes@,
    {
        if fr_bytes_below_modulus(&bytes) {
            Some(Scalar { bytes })
        } else {
            None
        }
    }

    /// The canonical 32 big-endian bytes.
    pub fn to_be_bytes(&self) -> (b: [u8; 32])
        ensures
            b@ == self@,
            fr_is_canonical(b@),
    {
        proof {
            use_type_invariant(self);
        }
        self.bytes
    }

    /// Whether the two scalars are the same field element.
    pub fn equals(&self, other: &Scalar) -> (r: bool)
        ensures
            r == (self@ == other@),
    {
        bytes32_equal(&self.bytes, &other.bytes)
    }
}

/// Whether the big-endian value of `b` is below `r`.
fn fr_bytes_below_modulus(b: &[u8; 32]) -> (r: bool)
    ensures
        r == (be_value(b@) < fr_modulus()),
{
    let modulus: [u8; 32] = [
        0x73, 0xed, 0xa7, 0x53, 0x29, 0x9d, 0x7d, 0x48, 0x33, 0x39, 0xd8, 0x08, 0x09, 0xa1, 0xd8,
        0x05, 0x53, 0xbd, 0xa4, 0x02, 0xff, 0xfe, 0x5b, 0xfe, 0xff, 0xff, 0xff, 0xff, 0x00, 0x00,
        0x00, 0x01,
    ];
    let ghost m = fr_modulus_bytes();
    assert(modulus@ =~= m);
    let mut i: usize = 0;
    while i < 32
        invariant
            i <= 32,
            b@.len() == 32,
            modulus@ == m,
            m == fr_modulus_bytes(),
            forall|j: int| 0 <= j < i ==> b@[j] == m[j],
        decreases 32 - i,
    {
        if b[i] < modulus[i] {
            proof {
                lemma_be_value_first_difference(b@, m, i as int);
            }
            return true;
        }
        if b[i] > modulus[i] {
            proof {
                lemma_be_value_first_difference(m, b@, i as int);
            }
            return false;
        }
        i = i + 1;
    }
    assert(b@ =~= m);
    false
}

/// Whether `x` occurs in `list`.
pub fn contains_scalar(list: &Vec<Scalar>, x: &Scalar) -> (r: bool)
    ensures
        r == scalar_views(list@).contains(x@),
{
    let mut i: usize = 0;
    while i < list.len()
        invariant
            i <= list@.len(),
            forall|j: int| 0 <= j < i ==> list@[j]@ != x@,
        decreases list@.len() - i,
    {
        if list[i].equals(x) {
            assert(scalar_views(list@)[i as int] == x@);
            return true;
        }
        i = i + 1;
    }
    assert forall|j: int| 0 <= j < scalar_views(list@).len() implies scalar_views(list@)[j] != x@ by {
        assert(scalar_views(list@)[j] == list@[j]@);
    }
    false
}

} // verus!
