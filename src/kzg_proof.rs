use vstd::prelude::*;

use bls12_381::{G1Affine, G2Affine};

use crate::domain::{domain_values, fpow};
use crate::dtypes::{blob_is_canonical, blob_values, Blob, Bytes32, Bytes48};
use crate::enums::KzgError;
use crate::eval::{evaluate, evaluate_polynomial_in_evaluation_form, vals};
use crate::fiat_shamir::{
    batch_challenge, challenge_transcript, compute_challenge, compute_r_powers, digest_scalar,
    sha256_of, views48,
};
use crate::field::{be_value, fadd, fmul, fr_add, fr_from_u64, fr_mul, modulus, Fr};
use crate::points::{
    g1_add, g1_add_of, g1_affine_encoding, g1_from_compressed, g1_generator, g1_identity, g1_mul, g1_mul_of, g1_sub,
    g1_sub_of, g1_valid, g2_affine_encoding, g2_from_compressed, g2_mul, g2_mul_of, g2_sub, g2_sub_of, g2_valid,
    pairings_equal, pairings_equal_of, G1_GENERATOR, G1_IDENTITY,
};
use crate::setup::KzgSettings;

verus! {

/// Decodes a compressed G1 point of the prime-order subgroup.
pub fn safe_g1_affine_from_bytes(bytes: &Bytes48) -> (r: Result<G1Affine, KzgError>)
    ensures
        r is Ok <==> g1_valid(bytes@),
        r matches Ok(p) ==> g1_affine_encoding(p) == bytes@,
        r matches Err(e) ==> e is BadArgs,
{
    match g1_from_compressed(&bytes.to_array()) {
        Some(p) => Ok(p),
        None => Err(KzgError::BadArgs("Failed to parse G1Affine from bytes".to_string())),
    }
}

/// Decodes a compressed G2 point of the prime-order subgroup.
pub fn safe_g2_affine_from_bytes(bytes: &[u8; 96]) -> (r: Result<G2Affine, KzgError>)
    ensures
        r is Ok <==> g2_valid(bytes@),
        r matches Ok(p) ==> g2_affine_encoding(p) == bytes@,
        r matches Err(e) ==> e is BadArgs,
{
    match g2_from_compressed(bytes) {
        Some(p) => Ok(p),
        None => Err(KzgError::BadArgs("Failed to parse G2Affine from bytes".to_string())),
    }
}

/// Decodes a canonical big-endian scalar.
pub fn safe_scalar_affine_from_bytes(bytes: &Bytes32) -> (r: Result<Fr, KzgError>)
    ensures
        r is Ok <==> be_value(bytes@) < modulus(),
        r matches Ok(f) ==> f.wf() && f.val() == be_value(bytes@),
        r matches Err(e) ==> e is BadArgs,
{
    Fr::from_be_bytes(&bytes.to_array())
}

/// Checks that a G1 encoding is valid and hands back its bytes.
fn checked_g1(bytes: &Bytes48) -> (r: Result<[u8; 48], KzgError>)
    ensures
        r is Ok <==> g1_valid(bytes@),
        r matches Ok(a) ==> a@ == bytes@,
        r matches Err(e) ==> e is BadArgs,
{
    let a = bytes.to_array();
    match g1_from_compressed(&a) {
        Some(_) => Ok(a),
        None => Err(KzgError::BadArgs("Failed to parse G1Affine from bytes".to_string())),
    }
}

/// The pairing equation e(C − [y]·G1, G2) == e(π, [τ]·G2 − [z]·G2), over encodings.
pub open spec fn kzg_check(
    commitment: Seq<u8>,
    z: nat,
    y: nat,
    proof: Seq<u8>,
    g2: Seq<u8>,
    tau_g2: Seq<u8>,
) -> bool {
    pairings_equal_of(
        g1_sub_of(commitment, g1_mul_of(G1_GENERATOR@, y)),
        g2,
        proof,
        g2_sub_of(tau_g2, g2_mul_of(g2, z)),
    )
}

/// The challenge of a blob and its commitment.
pub open spec fn blob_challenge(blob: Seq<u8>, commitment: Seq<u8>) -> nat {
    digest_scalar(sha256_of(challenge_transcript(blob, commitment)))
}

/// Checks that `proof` opens `commitment` to `y` at `z`.
pub fn verify_kzg_proof_impl(
    commitment: &[u8; 48],
    z: &Fr,
    y: &Fr,
    proof: &[u8; 48],
    settings: &KzgSettings,
) -> (r: bool)
    requires
        g1_valid(commitment@),
        g1_valid(proof@),
        z.wf(),
        y.wf(),
        settings.wf(),
    ensures
        r == kzg_check(
            commitment@,
            z.val(),
            y.val(),
            proof@,
            settings.g2_points@[0]@,
            settings.g2_points@[1]@,
        ),
{
    let g2 = &settings.g2_points[0];
    let tau_g2 = &settings.g2_points[1];
    proof {
        assert(g2_valid(settings.g2_points@[0]@));
        assert(g2_valid(settings.g2_points@[1]@));
    }
    let x = g2_mul(g2, z);
    let x_minus_z = g2_sub(tau_g2, &x);
    let y_g1 = g1_mul(&g1_generator(), y);
    let p_minus_y = g1_sub(commitment, &y_g1);
    pairings_equal(&p_minus_y, g2, proof, &x_minus_z)
}

/// Verifies that `proof` opens `commitment` to `y` at `z`, all given as encodings.
pub fn verify_kzg_proof(
    commitment: &Bytes48,
    z: &Bytes32,
    y: &Bytes32,
    proof: &Bytes48,
    settings: &KzgSettings,
) -> (r: Result<bool, KzgError>)
    requires
        settings.wf(),
    ensures
        r is Ok <==> g1_valid(commitment@) && g1_valid(proof@) && be_value(z@) < modulus()
            && be_value(y@) < modulus(),
        r matches Ok(b) ==> b == kzg_check(
            commitment@,
            be_value(z@),
            be_value(y@),
            proof@,
            settings.g2_points@[0]@,
            settings.g2_points@[1]@,
        ),
        r matches Err(e) ==> e is BadArgs,
{
    let c = checked_g1(commitment)?;
    let p = checked_g1(proof)?;
    let zf = safe_scalar_affine_from_bytes(z)?;
    let yf = safe_scalar_affine_from_bytes(y)?;
    Ok(verify_kzg_proof_impl(&c, &zf, &yf, &p, settings))
}

/// The challenge z of a blob and the value y at z of the blob's polynomial.
pub fn compute_challenge_and_evaluation(
    blob: &Blob,
    commitment: &Bytes48,
    settings: &KzgSettings,
) -> (r: Result<(Fr, Fr), KzgError>)
    requires
        settings.wf(),
    ensures
        r is Ok <==> blob_is_canonical(blob@),
        r matches Ok((z, y)) ==> z.wf() && y.wf() && z.val() == blob_challenge(blob@, commitment@)
            && y.val() == evaluate(blob_values(blob@), domain_values(), z.val()),
        r matches Err(e) ==> e is BadArgs,
{
    let poly = blob.as_polynomial()?;
    let z = compute_challenge(blob, commitment);
    proof {
        assert(vals(poly@).len() == 4096);
    }
    let y = evaluate_polynomial_in_evaluation_form(&poly, &z, &settings.roots_of_unity);
    Ok((z, y))
}

/// Verifies a blob against its commitment and opening proof.
pub fn verify_blob_kzg_proof(
    blob: &Blob,
    commitment: &Bytes48,
    proof: &Bytes48,
    settings: &KzgSettings,
) -> (r: Result<bool, KzgError>)
    requires
        settings.wf(),
    ensures
        r is Ok <==> g1_valid(commitment@) && g1_valid(proof@) && blob_is_canonical(blob@),
        r matches Ok(b) ==> b == kzg_check(
            commitment@,
            blob_challenge(blob@, commitment@),
            evaluate(blob_values(blob@), domain_values(), blob_challenge(blob@, commitment@)),
            proof@,
            settings.g2_points@[0]@,
            settings.g2_points@[1]@,
        ),
        r matches Err(e) ==> e is BadArgs,
{
    let c = checked_g1(commitment)?;
    let p = checked_g1(proof)?;
    let (z, y) = compute_challenge_and_evaluation(blob, commitment, settings)?;
    Ok(verify_kzg_proof_impl(&c, &z, &y, &p, settings))
}

/// Σ_{i < n} [scalars[i]]·points[i], folded from the identity, over encodings.
pub open spec fn lin_comb(points: Seq<Seq<u8>>, scalars: Seq<nat>, n: nat) -> Seq<u8>
    decreases n,
{
    if n == 0 {
        G1_IDENTITY@
    } else {
        g1_add_of(
            lin_comb(points, scalars, (n - 1) as nat),
            g1_mul_of(points[n - 1], scalars[n - 1]),
        )
    }
}

/// Σ_{i < n} scalars[i] in the scalar field.
pub open spec fn scalar_sum(scalars: Seq<nat>, n: nat) -> nat
    decreases n,
{
    if n == 0 {
        0
    } else {
        fadd(scalar_sum(scalars, (n - 1) as nat), scalars[n - 1])
    }
}

/// The powers r^0, ..., r^(n-1) of the batch challenge.
pub open spec fn batch_r_powers(
    commitments: Seq<Bytes48>,
    zs: Seq<Fr>,
    ys: Seq<Fr>,
    proofs: Seq<Bytes48>,
) -> Seq<nat> {
    Seq::new(
        commitments.len(),
        |i: int| fpow(batch_challenge(commitments, zs, ys, proofs), i as nat),
    )
}

/// The single pairing equation of a batch with challenges `zs` and values `ys`:
/// e(C_lc − [y_lc]·G1 + Σ rⁱ·zᵢ·πᵢ, G2) == e(π_lc, [τ]·G2).
pub open spec fn batch_check(
    commitments: Seq<Bytes48>,
    proofs: Seq<Bytes48>,
    zs: Seq<Fr>,
    ys: Seq<Fr>,
    g2: Seq<u8>,
    tau_g2: Seq<u8>,
) -> bool {
    let n = commitments.len();
    let rp = batch_r_powers(commitments, zs, ys, proofs);
    let c_lc = lin_comb(views48(commitments), rp, n);
    let p_lc = lin_comb(views48(proofs), rp, n);
    let pz_lc = lin_comb(views48(proofs), Seq::new(n, |i: int| fmul(rp[i], zs[i].val())), n);
    let y_lc = scalar_sum(Seq::new(n, |i: int| fmul(rp[i], ys[i].val())), n);
    pairings_equal_of(
        g1_add_of(g1_sub_of(c_lc, g1_mul_of(G1_GENERATOR@, y_lc)), pz_lc),
        g2,
        p_lc,
        tau_g2,
    )
}

/// `zs` and `ys` are the challenges of a batch's items and the values of its blobs there.
pub open spec fn batch_evaluations(
    blobs: Seq<Blob>,
    commitments: Seq<Bytes48>,
    zs: Seq<Fr>,
    ys: Seq<Fr>,
) -> bool {
    &&& zs.len() == blobs.len()
    &&& ys.len() == blobs.len()
    &&& forall|i: int|
        0 <= i < blobs.len() ==> (#[trigger] zs[i]).val() == blob_challenge(
            blobs[i]@,
            commitments[i]@,
        ) && ys[i].val() == evaluate(blob_values(blobs[i]@), domain_values(), zs[i].val())
}

/// Whether the `i`-th item of a batch decodes: its commitment and proof are valid points
/// and its blob holds canonical scalars.
pub open spec fn batch_item_valid(
    blobs: Seq<Blob>,
    commitments: Seq<Bytes48>,
    proofs: Seq<Bytes48>,
    i: int,
) -> bool {
    g1_valid(commitments[i]@) && g1_valid(proofs[i]@) && blob_is_canonical(blobs[i]@)
}

/// Whether every item of a batch decodes.
pub open spec fn batch_valid(blobs: Seq<Blob>, commitments: Seq<Bytes48>, proofs: Seq<Bytes48>) -> bool {
    forall|i: int|
        0 <= i < blobs.len() ==> #[trigger] batch_item_valid(blobs, commitments, proofs, i)
}

/// The sequence whose `k`-th element is the `perm[k]`-th element of `s`.
pub open spec fn permuted<T>(s: Seq<T>, perm: Seq<int>) -> Seq<T> {
    Seq::new(perm.len(), |k: int| s[perm[k]])
}

/// A batch of one item is rejected exactly when the single-blob verifier rejects that item.
pub proof fn lemma_batch_of_one_rejects_as_single(blob: Blob, commitment: Bytes48, proof: Bytes48)
    ensures
        batch_valid(seq![blob], seq![commitment], seq![proof]) <==> (g1_valid(commitment@)
            && g1_valid(proof@) && blob_is_canonical(blob@)),
{
    assert(batch_item_valid(seq![blob], seq![commitment], seq![proof], 0) == (g1_valid(
        commitment@,
    ) && g1_valid(proof@) && blob_is_canonical(blob@)));
}

/// Applying one permutation to the three arrays of a batch does not change whether the
/// batch is rejected.
pub proof fn lemma_batch_rejection_is_order_independent(
    blobs: Seq<Blob>,
    commitments: Seq<Bytes48>,
    proofs: Seq<Bytes48>,
    perm: Seq<int>,
)
    requires
        commitments.len() == blobs.len(),
        proofs.len() == blobs.len(),
        perm.len() == blobs.len(),
        forall|i: int| 0 <= i < perm.len() ==> 0 <= #[trigger] perm[i] < perm.len(),
        forall|i: int, j: int| 0 <= i < j < perm.len() ==> perm[i] != perm[j],
    ensures
        batch_valid(blobs, commitments, proofs) <==> batch_valid(
            permuted(blobs, perm),
            permuted(commitments, perm),
            permuted(proofs, perm),
        ),
{
    let n = blobs.len();
    let pb = permuted(blobs, perm);
    let pc = permuted(commitments, perm);
    let pp = permuted(proofs, perm);
    if batch_valid(blobs, commitments, proofs) {
        assert forall|i: int| 0 <= i < n implies batch_item_valid(pb, pc, pp, i) by {
            assert(batch_item_valid(blobs, commitments, proofs, perm[i]));
        }
    }
    if batch_valid(pb, pc, pp) {
        assert forall|j: int| 0 <= j < n implies batch_item_valid(blobs, commitments, proofs, j) by {
            lemma_permutation_onto(perm, j);
            let i = choose|i: int| 0 <= i < n && perm[i] == j;
            assert(batch_item_valid(pb, pc, pp, i));
        }
    }
}

/// An injective map of [0, n) into itself reaches every index.
proof fn lemma_permutation_onto(perm: Seq<int>, j: int)
    requires
        0 <= j < perm.len(),
        forall|i: int| 0 <= i < perm.len() ==> 0 <= #[trigger] perm[i] < perm.len(),
        forall|i: int, k: int| 0 <= i < k < perm.len() ==> perm[i] != perm[k],
    ensures
        exists|i: int| 0 <= i < perm.len() && perm[i] == j,
{
    let n = perm.len();
    if !(exists|i: int| 0 <= i < n && perm[i] == j) {
        let s = Set::new(|x: int| 0 <= x < n && x != j);
        let img = Set::new(|x: int| exists|i: int| 0 <= i < n && perm[i] == x);
        assert(img.subset_of(s));
        vstd::set_lib::lemma_int_range(0, n as int);
        assert(s =~= vstd::set_lib::set_int_range(0, n as int).remove(j));
        lemma_injective_image_len(perm, n as nat);
        vstd::set_lib::lemma_len_subset(img, s);
    }
}

/// The image of the first `m` indices under an injective map has `m` elements.
proof fn lemma_injective_image_len(perm: Seq<int>, m: nat)
    requires
        m <= perm.len(),
        forall|i: int, k: int| 0 <= i < k < perm.len() ==> perm[i] != perm[k],
    ensures
        Set::new(|x: int| exists|i: int| 0 <= i < m && perm[i] == x).finite(),
        Set::new(|x: int| exists|i: int| 0 <= i < m && perm[i] == x).len() == m,
    decreases m,
{
    let img = Set::new(|x: int| exists|i: int| 0 <= i < m && perm[i] == x);
    if m == 0 {
        assert(img =~= Set::empty());
    } else {
        let prev = Set::new(|x: int| exists|i: int| 0 <= i < m - 1 && perm[i] == x);
        lemma_injective_image_len(perm, (m - 1) as nat);
        assert(img =~= prev.insert(perm[m - 1]));
        assert(!prev.contains(perm[m - 1]));
    }
}

/// Verifies many blobs against their commitments and proofs with one pairing check, over
/// a random linear combination whose coefficients are derived from all the items.
pub fn verify_blob_kzg_proof_batch(
    blobs: &Vec<Blob>,
    commitments: &Vec<Bytes48>,
    proofs: &Vec<Bytes48>,
    settings: &KzgSettings,
) -> (r: Result<bool, KzgError>)
    requires
        settings.wf(),
    ensures
        !(blobs@.len() == commitments@.len() && commitments@.len() == proofs@.len()) ==> (
        r matches Err(e) && e is InvalidBytesLength),
        blobs@.len() == commitments@.len() && commitments@.len() == proofs@.len() ==> {
            &&& r is Ok <==> batch_valid(blobs@, commitments@, proofs@)
            &&& r matches Err(e) ==> e is BadArgs
            &&& blobs@.len() == 0 ==> r matches Ok(true)
        },
        r matches Ok(b) ==> blobs@.len() > 0 ==> exists|zs: Seq<Fr>, ys: Seq<Fr>|
            batch_evaluations(blobs@, commitments@, zs, ys) && b == batch_check(
                commitments@,
                proofs@,
                zs,
                ys,
                settings.g2_points@[0]@,
                settings.g2_points@[1]@,
            ),
{
    let n = blobs.len();
    if n != commitments.len() || n != proofs.len() {
        return Err(KzgError::InvalidBytesLength("Invalid number of inputs".to_string()));
    }
    if n == 0 {
        return Ok(true);
    }
    let mut cs: Vec<[u8; 48]> = Vec::new();
    let mut ps: Vec<[u8; 48]> = Vec::new();
    let mut zs: Vec<Fr> = Vec::new();
    let mut ys: Vec<Fr> = Vec::new();
    let mut i: usize = 0;
    while i < n
        invariant
            settings.wf(),
            n == blobs@.len(),
            n == commitments@.len(),
            n == proofs@.len(),
            i <= n,
            cs@.len() == i,
            ps@.len() == i,
            zs@.len() == i,
            ys@.len() == i,
            forall|k: int| 0 <= k < i ==> (#[trigger] cs@[k])@ == commitments@[k]@,
            forall|k: int| 0 <= k < i ==> (#[trigger] ps@[k])@ == proofs@[k]@,
            forall|k: int| 0 <= k < i ==> (#[trigger] zs@[k]).wf(),
            forall|k: int| 0 <= k < i ==> (#[trigger] ys@[k]).wf(),
            forall|k: int|
                0 <= k < i ==> (#[trigger] zs@[k]).val() == blob_challenge(
                    blobs@[k]@,
                    commitments@[k]@,
                ) && ys@[k].val() == evaluate(
                    blob_values(blobs@[k]@),
                    domain_values(),
                    zs@[k].val(),
                ),
            forall|k: int| 0 <= k < i ==> batch_item_valid(blobs@, commitments@, proofs@, k),
        decreases n - i,
    {
        let c = checked_g1(&commitments[i]);
        let p = checked_g1(&proofs[i]);
        let e = compute_challenge_and_evaluation(&blobs[i], &commitments[i], settings);
        match (c, p, e) {
            (Ok(c), Ok(p), Ok((z, y))) => {
                cs.push(c);
                ps.push(p);
                zs.push(z);
                ys.push(y);
            },
            (Err(err), _, _) => {
                assert(!batch_item_valid(blobs@, commitments@, proofs@, i as int));
                return Err(err);
            },
            (_, Err(err), _) => {
                assert(!batch_item_valid(blobs@, commitments@, proofs@, i as int));
                return Err(err);
            },
            (_, _, Err(err)) => {
                assert(!batch_item_valid(blobs@, commitments@, proofs@, i as int));
                return Err(err);
            },
        }
        i = i + 1;
    }
    let r_powers = compute_r_powers(commitments, &zs, &ys, proofs);
    let ghost rp = batch_r_powers(commitments@, zs@, ys@, proofs@);
    let ghost cv = views48(commitments@);
    let ghost pv = views48(proofs@);
    let ghost rz = Seq::new(n as nat, |j: int| fmul(rp[j], zs@[j].val()));
    let ghost ry = Seq::new(n as nat, |j: int| fmul(rp[j], ys@[j].val()));
    let mut c_lc = g1_identity();
    let mut proof_lc = g1_identity();
    let mut proof_z_lc = g1_identity();
    let mut y_lc = fr_from_u64(0);
    let mut k: usize = 0;
    while k < n
        invariant
            n == cs@.len(),
            n == ps@.len(),
            n == zs@.len(),
            n == ys@.len(),
            n == r_powers@.len(),
            n == commitments@.len(),
            n == proofs@.len(),
            rp == batch_r_powers(commitments@, zs@, ys@, proofs@),
            cv == views48(commitments@),
            pv == views48(proofs@),
            rz == Seq::new(n as nat, |j: int| fmul(rp[j], zs@[j].val())),
            ry == Seq::new(n as nat, |j: int| fmul(rp[j], ys@[j].val())),
            forall|j: int| 0 <= j < n ==> (#[trigger] cs@[j])@ == commitments@[j]@,
            forall|j: int| 0 <= j < n ==> (#[trigger] ps@[j])@ == proofs@[j]@,
            forall|j: int| 0 <= j < n ==> batch_item_valid(blobs@, commitments@, proofs@, j),
            forall|j: int| 0 <= j < n ==> (#[trigger] zs@[j]).wf(),
            forall|j: int| 0 <= j < n ==> (#[trigger] ys@[j]).wf(),
            forall|j: int|
                0 <= j < n ==> (#[trigger] r_powers@[j]).wf() && r_powers@[j].val() == fpow(
                    batch_challenge(commitments@, zs@, ys@, proofs@),
                    j as nat,
                ),
            g1_valid(c_lc@),
            g1_valid(proof_lc@),
            g1_valid(proof_z_lc@),
            c_lc@ == lin_comb(cv, rp, k as nat),
            proof_lc@ == lin_comb(pv, rp, k as nat),
            proof_z_lc@ == lin_comb(pv, rz, k as nat),
            y_lc.wf(),
            y_lc.val() == scalar_sum(ry, k as nat),
            k <= n,
        decreases n - k,
    {
        let rk = &r_powers[k];
        proof {
            assert(r_powers@[k as int].wf());
            assert(zs@[k as int].wf());
            assert(ys@[k as int].wf());
            assert(batch_item_valid(blobs@, commitments@, proofs@, k as int));
            assert(cs@[k as int]@ == cv[k as int]);
            assert(ps@[k as int]@ == pv[k as int]);
            assert(rp[k as int] == r_powers@[k as int].val());
        }
        c_lc = g1_add(&c_lc, &g1_mul(&cs[k], rk));
        proof_lc = g1_add(&proof_lc, &g1_mul(&ps[k], rk));
        let rzk = fr_mul(rk, &zs[k]);
        proof_z_lc = g1_add(&proof_z_lc, &g1_mul(&ps[k], &rzk));
        y_lc = fr_add(&y_lc, &fr_mul(rk, &ys[k]));
        k = k + 1;
    }
    let y_g1 = g1_mul(&g1_generator(), &y_lc);
    let lhs = g1_add(&g1_sub(&c_lc, &y_g1), &proof_z_lc);
    proof {
        assert(g2_valid(settings.g2_points@[0]@));
        assert(g2_valid(settings.g2_points@[1]@));
        assert(batch_evaluations(blobs@, commitments@, zs@, ys@));
    }
    Ok(pairings_equal(&lhs, &settings.g2_points[0], &proof_lc, &settings.g2_points[1]))
}

} // verus!
