use vstd::prelude::*;

use sha2::Digest;

use crate::domain::fpow;
use crate::dtypes::{Blob, Bytes48};
use crate::field::{be_value, fr_from_bytes_wide, fr_mul, modulus, reverse32, widen, Fr};

verus! {

/// Bytes of the domain tag of the per-blob challenge.
pub const FIAT_SHAMIR_PROTOCOL_DOMAIN_BYTES: [u8; 16] = [
    70, 83, 66, 76, 79, 66, 86, 69, 82, 73, 70, 89, 95, 86, 49, 95,
];

/// Bytes of the domain tag of the batch challenge.
pub const RANDOM_CHALLENGE_KZG_BATCH_DOMAIN_BYTES: [u8; 16] = [
    82, 67, 75, 90, 71, 66, 65, 84, 67, 72, 95, 95, 95, 86, 49, 95,
];

/// SHA-256 of a byte string.
pub uninterp spec fn sha256_of(data: Seq<u8>) -> Seq<u8>;

/// The 8-byte big-endian encoding of `x`.
pub open spec fn u64_be(x: u64) -> Seq<u8> {
    Seq::new(8, |k: int| ((x >> ((56 - 8 * k) as u64)) & 0xffu64) as u8)
}

/// The transcript hashed for the challenge of one blob.
pub open spec fn challenge_transcript(blob: Seq<u8>, commitment: Seq<u8>) -> Seq<u8> {
    FIAT_SHAMIR_PROTOCOL_DOMAIN_BYTES@ + u64_be(0) + u64_be(4096) + blob + commitment
}

/// The per-item part of the batch transcript, for the first `n` items.
pub open spec fn batch_items(
    commitments: Seq<Seq<u8>>,
    zs: Seq<Fr>,
    ys: Seq<Fr>,
    proofs: Seq<Seq<u8>>,
    n: nat,
) -> Seq<u8>
    decreases n,
{
    if n == 0 {
        Seq::empty()
    } else {
        let i = n - 1;
        batch_items(commitments, zs, ys, proofs, (n - 1) as nat) + commitments[i]
            + zs[i].be_encoding() + ys[i].be_encoding() + proofs[i]
    }
}

/// The transcript hashed for the batch challenge.
pub open spec fn batch_transcript(
    commitments: Seq<Seq<u8>>,
    zs: Seq<Fr>,
    ys: Seq<Fr>,
    proofs: Seq<Seq<u8>>,
) -> Seq<u8> {
    RANDOM_CHALLENGE_KZG_BATCH_DOMAIN_BYTES@ + u64_be(4096) + u64_be(commitments.len() as u64)
        + batch_items(commitments, zs, ys, proofs, commitments.len())
}

/// The byte strings of a sequence of 48-byte values.
pub open spec fn views48(s: Seq<Bytes48>) -> Seq<Seq<u8>> {
    s.map_values(|b: Bytes48| b@)
}

/// The scalar that a digest stands for: its big-endian value reduced mod q.
pub open spec fn digest_scalar(digest: Seq<u8>) -> nat {
    be_value(digest) % modulus()
}

/// Relies on `sha2::Sha256::digest`.
#[verifier::external_body]
fn sha256(data: &Vec<u8>) -> (r: [u8; 32])
    ensures
        r@ == sha256_of(data@),
{
    sha2::Sha256::digest(data.as_slice()).into()
}

/// Appends the bytes of `s` to `v`.
fn append_bytes(v: &mut Vec<u8>, s: &[u8])
    ensures
        final(v)@ == old(v)@ + s@,
{
    let mut i: usize = 0;
    while i < s.len()
        invariant
            i <= s@.len(),
            v@ == old(v)@ + s@.subrange(0, i as int),
        decreases s@.len() - i,
    {
        v.push(s[i]);
        i = i + 1;
        assert(v@ =~= old(v)@ + s@.subrange(0, i as int));
    }
    assert(s@.subrange(0, i as int) =~= s@);
}

/// Appends the 8-byte big-endian encoding of `x` to `v`.
fn append_u64_be(v: &mut Vec<u8>, x: u64)
    ensures
        final(v)@ == old(v)@ + u64_be(x),
{
    let mut k: u64 = 0;
    while k < 8
        invariant
            k <= 8,
            v@ == old(v)@ + u64_be(x).subrange(0, k as int),
        decreases 8 - k,
    {
        let shift: u64 = 56 - 8 * k;
        v.push(((x >> shift) & 0xff) as u8);
        k = k + 1;
        assert(v@ =~= old(v)@ + u64_be(x).subrange(0, k as int));
    }
    assert(u64_be(x).subrange(0, 8) =~= u64_be(x));
}

/// Reduces a 32-byte digest, read big-endian, modulo q.
pub fn hash_to_fr(digest: &[u8; 32]) -> (r: Fr)
    ensures
        r.wf(),
        r.val() == digest_scalar(digest@),
{
    fr_from_bytes_wide(&widen(&reverse32(digest)))
}

/// The Fiat–Shamir challenge of a blob and its commitment.
pub fn compute_challenge(blob: &Blob, commitment: &Bytes48) -> (r: Fr)
    ensures
        r.wf(),
        r.val() == digest_scalar(sha256_of(challenge_transcript(blob@, commitment@))),
{
    let mut data: Vec<u8> = Vec::new();
    append_bytes(&mut data, FIAT_SHAMIR_PROTOCOL_DOMAIN_BYTES.as_slice());
    append_u64_be(&mut data, 0);
    append_u64_be(&mut data, 4096);
    append_bytes(&mut data, blob.as_slice());
    append_bytes(&mut data, commitment.as_slice());
    assert(data@ =~= challenge_transcript(blob@, commitment@));
    hash_to_fr(&sha256(&data))
}

/// The batch challenge r over the given items.
pub open spec fn batch_challenge(
    commitments: Seq<Bytes48>,
    zs: Seq<Fr>,
    ys: Seq<Fr>,
    proofs: Seq<Bytes48>,
) -> nat {
    digest_scalar(sha256_of(batch_transcript(views48(commitments), zs, ys, views48(proofs))))
}

/// The powers r^0, ..., r^(n-1) of the batch challenge r over `n` items.
pub fn compute_r_powers(
    commitments: &Vec<Bytes48>,
    zs: &Vec<Fr>,
    ys: &Vec<Fr>,
    proofs: &Vec<Bytes48>,
) -> (r: Vec<Fr>)
    requires
        zs@.len() == commitments@.len(),
        ys@.len() == commitments@.len(),
        proofs@.len() == commitments@.len(),
    ensures
        r@.len() == commitments@.len(),
        forall|i: int|
            0 <= i < r@.len() ==> (#[trigger] r@[i]).wf() && r@[i].val() == fpow(
                batch_challenge(commitments@, zs@, ys@, proofs@),
                i as nat,
            ),
{
    let ghost cs = views48(commitments@);
    let ghost ps = views48(proofs@);
    let n = commitments.len();
    let mut data: Vec<u8> = Vec::new();
    append_bytes(&mut data, RANDOM_CHALLENGE_KZG_BATCH_DOMAIN_BYTES.as_slice());
    append_u64_be(&mut data, 4096);
    append_u64_be(&mut data, n as u64);
    let ghost head = data@;
    let mut i: usize = 0;
    while i < n
        invariant
            n == commitments@.len(),
            zs@.len() == n,
            ys@.len() == n,
            proofs@.len() == n,
            cs == views48(commitments@),
            ps == views48(proofs@),
            i <= n,
            data@ == head + batch_items(cs, zs@, ys@, ps, i as nat),
        decreases n - i,
    {
        append_bytes(&mut data, commitments[i].as_slice());
        append_bytes(&mut data, zs[i].to_be_bytes().as_slice());
        append_bytes(&mut data, ys[i].to_be_bytes().as_slice());
        append_bytes(&mut data, proofs[i].as_slice());
        i = i + 1;
        assert(data@ =~= head + batch_items(cs, zs@, ys@, ps, i as nat));
    }
    assert(data@ =~= batch_transcript(cs, zs@, ys@, ps));
    let x = hash_to_fr(&sha256(&data));
    let ghost c = batch_challenge(commitments@, zs@, ys@, proofs@);
    assert(x.val() == c);
    let mut powers: Vec<Fr> = Vec::new();
    let mut cur = crate::field::fr_from_u64(1);
    proof {
        vstd::arithmetic::power::lemma_pow0(c as int);
    }
    let mut k: usize = 0;
    while k < n
        invariant
            k <= n,
            x.wf(),
            x.val() == c,
            cur.wf(),
            cur.val() == fpow(c, k as nat),
            powers@.len() == k,
            forall|j: int|
                0 <= j < k ==> (#[trigger] powers@[j]).wf() && powers@[j].val() == fpow(c, j as nat),
        decreases n - k,
    {
        powers.push(cur);
        let next = fr_mul(&cur, &x);
        proof {
            let a = c as int;
            let p = vstd::arithmetic::power::pow(a, k as nat);
            assert(vstd::arithmetic::power::pow(a, (k + 1) as nat) == a * p) by {
                reveal(vstd::arithmetic::power::pow);
            }
            vstd::arithmetic::div_mod::lemma_mul_mod_noop_left(p, a, crate::field::modulus() as int);
            assert(p * a == a * p) by (nonlinear_arith);
        }
        cur = next;
        k = k + 1;
    }
    powers
}

} // verus!
