use vstd::prelude::*;

use bls12_381::{G1Affine, G1Projective, G2Affine, G2Projective};

use crate::field::Fr;

verus! {

#[verifier::external_type_specification]
#[verifier::external_body]
pub struct ExG1Affine(G1Affine);

#[verifier::external_type_specification]
#[verifier::external_body]
pub struct ExG2Affine(G2Affine);

/// The compressed encoding of the fixed generator of G1.
pub const G1_GENERATOR: [u8; 48] = [
    151, 241, 211, 167, 49, 151, 215, 148, 38, 149, 99, 140, 79, 169, 172, 15, 195, 104, 140, 79,
    151, 116, 185, 5, 161, 78, 58, 63, 23, 27, 172, 88, 108, 85, 232, 63, 249, 122, 26, 239, 251,
    58, 240, 10, 219, 34, 198, 187,
];

/// The compressed encoding of the identity of G1, the point at infinity.
pub const G1_IDENTITY: [u8; 48] = [
    192, 0, 0, 0, 0, 0, 0, 0, 0, 0, 0, 0, 0, 0, 0, 0, 0, 0, 0, 0, 0, 0, 0, 0, 0, 0, 0, 0, 0, 0, 0,
    0, 0, 0, 0, 0, 0, 0, 0, 0, 0, 0, 0, 0, 0, 0, 0, 0,
];

/// Whether 48 bytes are the compressed encoding of a G1 point of the prime-order subgroup.
pub uninterp spec fn g1_valid(b: Seq<u8>) -> bool;

/// Whether 96 bytes are the compressed encoding of a G2 point of the prime-order subgroup.
pub uninterp spec fn g2_valid(b: Seq<u8>) -> bool;

/// The encoding of [s]·P, for P given by its encoding.
pub uninterp spec fn g1_mul_of(p: Seq<u8>, s: nat) -> Seq<u8>;

/// The encoding of P + Q.
pub uninterp spec fn g1_add_of(p: Seq<u8>, q: Seq<u8>) -> Seq<u8>;

/// The encoding of P − Q.
pub uninterp spec fn g1_sub_of(p: Seq<u8>, q: Seq<u8>) -> Seq<u8>;

/// The encoding of [s]·P in G2.
pub uninterp spec fn g2_mul_of(p: Seq<u8>, s: nat) -> Seq<u8>;

/// The encoding of P − Q in G2.
pub uninterp spec fn g2_sub_of(p: Seq<u8>, q: Seq<u8>) -> Seq<u8>;

/// Whether e(a, b) == e(c, d), for G1 points a, c and G2 points b, d given by encodings.
pub uninterp spec fn pairings_equal_of(a: Seq<u8>, b: Seq<u8>, c: Seq<u8>, d: Seq<u8>) -> bool;

/// The compressed encoding of a decoded G1 point.
pub uninterp spec fn g1_affine_encoding(p: G1Affine) -> Seq<u8>;

/// The compressed encoding of a decoded G2 point.
pub uninterp spec fn g2_affine_encoding(p: G2Affine) -> Seq<u8>;

/// Relies on `G1Affine::from_compressed`: it decodes the point and checks that it is
/// on the curve and in the prime-order subgroup, the result depending on the bytes alone.
/// The flags it accepts are the ones `to_compressed` writes, so a decoded point encodes
/// back to the same bytes.
#[verifier::external_body]
pub(crate) fn g1_from_compressed(b: &[u8; 48]) -> (r: Option<G1Affine>)
    ensures
        r is Some <==> g1_valid(b@),
        r matches Some(p) ==> g1_affine_encoding(p) == b@,
{
    Option::from(G1Affine::from_compressed(b))
}

/// Relies on `G2Affine::from_compressed`, as for G1.
#[verifier::external_body]
pub(crate) fn g2_from_compressed(b: &[u8; 96]) -> (r: Option<G2Affine>)
    ensures
        r is Some <==> g2_valid(b@),
        r matches Some(p) ==> g2_affine_encoding(p) == b@,
{
    Option::from(G2Affine::from_compressed(b))
}

/// Relies on `G1Affine::to_compressed`: the encoding of a decoded point, which depends on
/// the point alone. No validity is claimed, since a `G1Affine` can be built without the
/// subgroup check.
#[verifier::external_body]
pub(crate) fn g1_to_compressed(p: &G1Affine) -> (r: [u8; 48])
    ensures
        r@ == g1_affine_encoding(*p),
{
    p.to_compressed()
}

/// Relies on `G2Affine::to_compressed`, as for G1.
#[verifier::external_body]
pub(crate) fn g2_to_compressed(p: &G2Affine) -> (r: [u8; 96])
    ensures
        r@ == g2_affine_encoding(*p),
{
    p.to_compressed()
}

/// Relies on `G1Affine::generator` and `G1Affine::to_compressed`.
#[verifier::external_body]
pub(crate) fn g1_generator() -> (r: [u8; 48])
    ensures
        r@ == G1_GENERATOR@,
        g1_valid(r@),
{
    G1Affine::generator().to_compressed()
}

/// Relies on `G1Affine::identity` and `G1Affine::to_compressed`.
#[verifier::external_body]
pub(crate) fn g1_identity() -> (r: [u8; 48])
    ensures
        r@ == G1_IDENTITY@,
        g1_valid(r@),
{
    G1Affine::identity().to_compressed()
}

/// Relies on `G1Projective * Scalar`; the subgroup is closed under it.
#[verifier::external_body]
pub(crate) fn g1_mul(p: &[u8; 48], s: &Fr) -> (r: [u8; 48])
    requires
        g1_valid(p@),
        s.wf(),
    ensures
        r@ == g1_mul_of(p@, s.val()),
        g1_valid(r@),
{
    let x = G1Projective::from(G1Affine::from_compressed(p).unwrap());
    G1Affine::from(x * bls12_381::Scalar::from_bytes(&s.le).unwrap()).to_compressed()
}

/// Relies on `G1Projective + G1Projective`; the subgroup is closed under it.
#[verifier::external_body]
pub(crate) fn g1_add(a: &[u8; 48], b: &[u8; 48]) -> (r: [u8; 48])
    requires
        g1_valid(a@),
        g1_valid(b@),
    ensures
        r@ == g1_add_of(a@, b@),
        g1_valid(r@),
{
    let x = G1Projective::from(G1Affine::from_compressed(a).unwrap());
    let y = G1Projective::from(G1Affine::from_compressed(b).unwrap());
    G1Affine::from(x + y).to_compressed()
}

/// Relies on `G1Projective - G1Projective`; the subgroup is closed under it.
#[verifier::external_body]
pub(crate) fn g1_sub(a: &[u8; 48], b: &[u8; 48]) -> (r: [u8; 48])
    requires
        g1_valid(a@),
        g1_valid(b@),
    ensures
        r@ == g1_sub_of(a@, b@),
        g1_valid(r@),
{
    let x = G1Projective::from(G1Affine::from_compressed(a).unwrap());
    let y = G1Projective::from(G1Affine::from_compressed(b).unwrap());
    G1Affine::from(x - y).to_compressed()
}

/// Relies on `G2Projective * Scalar`; the subgroup is closed under it.
#[verifier::external_body]
pub(crate) fn g2_mul(p: &[u8; 96], s: &Fr) -> (r: [u8; 96])
    requires
        g2_valid(p@),
        s.wf(),
    ensures
        r@ == g2_mul_of(p@, s.val()),
        g2_valid(r@),
{
    let x = G2Projective::from(G2Affine::from_compressed(p).unwrap());
    G2Affine::from(x * bls12_381::Scalar::from_bytes(&s.le).unwrap()).to_compressed()
}

/// Relies on `G2Projective - G2Projective`; the subgroup is closed under it.
#[verifier::external_body]
pub(crate) fn g2_sub(a: &[u8; 96], b: &[u8; 96]) -> (r: [u8; 96])
    requires
        g2_valid(a@),
        g2_valid(b@),
    ensures
        r@ == g2_sub_of(a@, b@),
        g2_valid(r@),
{
    let x = G2Projective::from(G2Affine::from_compressed(a).unwrap());
    let y = G2Projective::from(G2Affine::from_compressed(b).unwrap());
    G2Affine::from(x - y).to_compressed()
}

/// Relies on `bls12_381::pairing`: whether e(a, b) == e(c, d).
#[verifier::external_body]
pub(crate) fn pairings_equal(a: &[u8; 48], b: &[u8; 96], c: &[u8; 48], d: &[u8; 96]) -> (r: bool)
    requires
        g1_valid(a@),
        g2_valid(b@),
        g1_valid(c@),
        g2_valid(d@),
    ensures
        r == pairings_equal_of(a@, b@, c@, d@),
{
    let a = G1Affine::from_compressed(a).unwrap();
    let b = G2Affine::from_compressed(b).unwrap();
    let c = G1Affine::from_compressed(c).unwrap();
    let d = G2Affine::from_compressed(d).unwrap();
    bls12_381::pairing(&a, &b) == bls12_381::pairing(&c, &d)
}

} // verus!
