use bls12_381::{G1Affine, G1Projective, G2Affine, G2Projective, Scalar};
use sha2::Digest;

use kzg::domain::{compute_roots_of_unity, reverse_bits};
use kzg::dtypes::{Blob, Bytes32, Bytes48};
use kzg::enums::KzgError;
use kzg::eval::evaluate_polynomial_in_evaluation_form;
use kzg::fiat_shamir::{compute_challenge, compute_r_powers, hash_to_fr};
use kzg::field::{fr_add, fr_from_u64, fr_invert, fr_mul, fr_sub, Fr};
use kzg::kzg_proof::{
    compute_challenge_and_evaluation, safe_g1_affine_from_bytes, safe_g2_affine_from_bytes,
    safe_scalar_affine_from_bytes, verify_blob_kzg_proof, verify_blob_kzg_proof_batch, verify_kzg_proof,
};
use kzg::setup::KzgSettings;

const Q_BE: [u8; 32] = [
    0x73, 0xed, 0xa7, 0x53, 0x29, 0x9d, 0x7d, 0x48, 0x33, 0x39, 0xd8, 0x08, 0x09, 0xa1, 0xd8, 0x05,
    0x53, 0xbd, 0xa4, 0x02, 0xff, 0xfe, 0x5b, 0xfe, 0xff, 0xff, 0xff, 0xff, 0x00, 0x00, 0x00, 0x01,
];

fn be32(x: u64) -> [u8; 32] {
    let mut r = [0u8; 32];
    r[24..].copy_from_slice(&x.to_be_bytes());
    r
}

fn fr(x: u64) -> Fr {
    fr_from_u64(x)
}

fn g1_times(s: u64) -> [u8; 48] {
    G1Affine::from(G1Projective::generator() * Scalar::from(s)).to_compressed()
}

fn identity48() -> Bytes48 {
    Bytes48::from_slice(&G1Affine::identity().to_compressed()).unwrap()
}

fn settings_with_tau(tau: u64) -> KzgSettings {
    let g1 = vec![G1Affine::generator(); 4096];
    let mut g2 = vec![G2Affine::generator(); 65];
    g2[1] = G2Affine::from(G2Projective::generator() * Scalar::from(tau));
    KzgSettings::load_trusted_setup_from_points(g1, g2).unwrap()
}

fn zero_blob() -> Blob {
    Blob::from_slice(&[0u8; 131072]).unwrap()
}

#[test]
fn field_operations_compute_modular_results() {
    assert_eq!(fr_add(&fr(2), &fr(3)).to_be_bytes(), be32(5));
    assert_eq!(fr_mul(&fr(6), &fr(7)).to_be_bytes(), be32(42));
    assert_eq!(fr_sub(&fr(9), &fr(4)).to_be_bytes(), be32(5));
    let mut q_minus_one = Q_BE;
    q_minus_one[31] = 0;
    assert_eq!(fr_sub(&fr(0), &fr(1)).to_be_bytes(), q_minus_one);
    let inv = fr_invert(&fr(7));
    assert_eq!(fr_mul(&inv, &fr(7)).to_be_bytes(), be32(1));
}

#[test]
fn scalar_at_or_above_modulus_is_rejected() {
    let q = Bytes32::from_slice(&Q_BE).unwrap();
    assert!(matches!(safe_scalar_affine_from_bytes(&q), Err(KzgError::BadArgs(_))));
    let ff = Bytes32::from_slice(&[0xff; 32]).unwrap();
    assert!(matches!(safe_scalar_affine_from_bytes(&ff), Err(KzgError::BadArgs(_))));
    let mut below = Q_BE;
    below[31] = 0;
    let ok = Bytes32::from_slice(&below).unwrap();
    assert_eq!(safe_scalar_affine_from_bytes(&ok).unwrap().to_be_bytes(), below);
}

#[test]
fn scalar_decoding_round_trips() {
    let raw = be32(0x0102030405060708);
    let b = Bytes32::from_slice(&raw).unwrap();
    assert_eq!(safe_scalar_affine_from_bytes(&b).unwrap().to_be_bytes(), raw);
}

#[test]
fn g1_decoding_round_trips() {
    for s in [0u64, 1, 2, 12345] {
        let raw = g1_times(s);
        let p = safe_g1_affine_from_bytes(&Bytes48::from_slice(&raw).unwrap()).unwrap();
        assert_eq!(p.to_compressed(), raw);
    }
}

#[test]
fn g2_decoding_round_trips() {
    let raw = G2Affine::generator().to_compressed();
    let p = safe_g2_affine_from_bytes(&raw).unwrap();
    assert_eq!(p.to_compressed(), raw);
    assert!(matches!(safe_g2_affine_from_bytes(&[0u8; 96]), Err(KzgError::BadArgs(_))));
}

#[test]
fn g1_malformed_encoding_is_rejected() {
    let zeros = Bytes48::from_slice(&[0u8; 48]).unwrap();
    assert!(matches!(safe_g1_affine_from_bytes(&zeros), Err(KzgError::BadArgs(_))));
}

#[test]
fn g1_off_subgroup_point_is_rejected() {
    let mut found = false;
    for x in 1u8..=255 {
        let mut raw = [0u8; 48];
        raw[0] = 0x80;
        raw[47] = x;
        let on_curve = bool::from(G1Affine::from_compressed_unchecked(&raw).is_some());
        let in_group = bool::from(G1Affine::from_compressed(&raw).is_some());
        if on_curve && !in_group {
            let b = Bytes48::from_slice(&raw).unwrap();
            assert!(matches!(safe_g1_affine_from_bytes(&b), Err(KzgError::BadArgs(_))));
            found = true;
            break;
        }
    }
    assert!(found);
}

#[test]
fn trusted_setup_with_wrong_counts_is_rejected() {
    let g2 = vec![G2Affine::generator(); 65];
    let r = KzgSettings::load_trusted_setup_from_points(vec![G1Affine::generator(); 4095], g2);
    assert!(matches!(r, Err(KzgError::InvalidTrustedSetup(_))));
    let g2 = vec![G2Affine::generator(); 64];
    let r = KzgSettings::load_trusted_setup_from_points(vec![G1Affine::generator(); 4096], g2);
    assert!(matches!(r, Err(KzgError::InvalidTrustedSetup(_))));
}

#[test]
fn trusted_setup_permutes_g1_points() {
    let g1: Vec<G1Affine> = (0..4096u64)
        .map(|i| if i == 1 { G1Affine::identity() } else { G1Affine::generator() })
        .collect();
    let s = KzgSettings::load_trusted_setup_from_points(g1, vec![G2Affine::generator(); 65]).unwrap();
    assert_eq!(s.g1_points.len(), 4096);
    assert_eq!(s.g2_points.len(), 65);
    assert_eq!(s.g1_points[2048], G1Affine::identity().to_compressed());
    assert_eq!(s.g1_points[1], G1Affine::generator().to_compressed());
}

#[test]
fn bit_reversal_of_indices() {
    assert_eq!(reverse_bits(0, 12), 0);
    assert_eq!(reverse_bits(1, 12), 2048);
    assert_eq!(reverse_bits(2, 12), 1024);
    assert_eq!(reverse_bits(3, 12), 3072);
    assert_eq!(reverse_bits(4095, 12), 4095);
    assert_eq!(reverse_bits(6, 3), 3);
    assert_eq!(reverse_bits(1, 40), 1usize << 39);
    assert_eq!(reverse_bits(5, 0), 0);
}

#[test]
fn domain_is_bit_reversed_roots_of_unity() {
    let d = compute_roots_of_unity();
    assert_eq!(d.len(), 4096);
    assert_eq!(d[0].to_be_bytes(), be32(1));
    let mut q_minus_one = Q_BE;
    q_minus_one[31] = 0;
    assert_eq!(d[1].to_be_bytes(), q_minus_one);
    let w = d[2048];
    assert_eq!(fr_mul(&w, &w).to_be_bytes(), d[1024].to_be_bytes());
    let mut x = w;
    for _ in 0..12 {
        x = fr_mul(&x, &x);
    }
    assert_eq!(x.to_be_bytes(), be32(1));
}

#[test]
fn evaluation_on_domain_returns_stored_value() {
    let d = compute_roots_of_unity();
    let poly: Vec<Fr> = (0..4096u64).map(|i| fr(i * 3 + 1)).collect();
    let y = evaluate_polynomial_in_evaluation_form(&poly, &d[5], &d);
    assert_eq!(y.to_be_bytes(), be32(16));
    let y = evaluate_polynomial_in_evaluation_form(&poly, &d[4095], &d);
    assert_eq!(y.to_be_bytes(), be32(4095 * 3 + 1));
}

#[test]
fn evaluation_off_domain_matches_interpolation() {
    let d = compute_roots_of_unity();
    let constant: Vec<Fr> = vec![fr(9); 4096];
    let y = evaluate_polynomial_in_evaluation_form(&constant, &fr(123456789), &d);
    assert_eq!(y.to_be_bytes(), be32(9));
    // p(x) = 2x + 5 sampled on the domain
    let linear: Vec<Fr> = d.iter().map(|di| fr_add(&fr_mul(&fr(2), di), &fr(5))).collect();
    let y = evaluate_polynomial_in_evaluation_form(&linear, &fr(1000), &d);
    assert_eq!(y.to_be_bytes(), be32(2005));
}

#[test]
fn challenge_hashes_the_transcript() {
    let blob = zero_blob();
    let commitment = Bytes48::from_slice(&g1_times(3)).unwrap();
    let mut data = b"FSBLOBVERIFY_V1_".to_vec();
    data.extend_from_slice(&0u64.to_be_bytes());
    data.extend_from_slice(&4096u64.to_be_bytes());
    data.extend_from_slice(blob.as_slice());
    data.extend_from_slice(commitment.as_slice());
    assert_eq!(data.len(), 131152);
    let digest: [u8; 32] = sha2::Sha256::digest(&data).into();
    let mut wide = [0u8; 64];
    for i in 0..32 {
        wide[i] = digest[31 - i];
    }
    let expected = Scalar::from_bytes_wide(&wide).to_bytes();
    let z = compute_challenge(&blob, &commitment).to_be_bytes();
    let mut z_le = z;
    z_le.reverse();
    assert_eq!(z_le, expected);
}

#[test]
fn hash_to_fr_reduces_modulo_q() {
    assert_eq!(hash_to_fr(&Q_BE).to_be_bytes(), be32(0));
    let mut q_plus_five = Q_BE;
    q_plus_five[31] = 6;
    assert_eq!(hash_to_fr(&q_plus_five).to_be_bytes(), be32(5));
    assert_eq!(hash_to_fr(&be32(77)).to_be_bytes(), be32(77));
}

#[test]
fn kzg_proof_of_linear_polynomial() {
    // f(X) = 3 + 7X, tau = 5: C = [38]G1, proof at z = 11 is [7]G1, y = 80
    let s = settings_with_tau(5);
    let c = Bytes48::from_slice(&g1_times(38)).unwrap();
    let p = Bytes48::from_slice(&g1_times(7)).unwrap();
    let z = Bytes32::from_slice(&be32(11)).unwrap();
    let y = Bytes32::from_slice(&be32(80)).unwrap();
    assert!(verify_kzg_proof(&c, &z, &y, &p, &s).unwrap());
    let wrong_y = Bytes32::from_slice(&be32(81)).unwrap();
    assert!(!verify_kzg_proof(&c, &z, &wrong_y, &p, &s).unwrap());
    let q = Bytes32::from_slice(&Q_BE).unwrap();
    assert!(matches!(verify_kzg_proof(&c, &q, &y, &p, &s), Err(KzgError::BadArgs(_))));
}

#[test]
fn zero_blob_with_identity_commitment_verifies() {
    let s = settings_with_tau(5);
    let ok = verify_blob_kzg_proof(&zero_blob(), &identity48(), &identity48(), &s).unwrap();
    assert!(ok);
}

#[test]
fn blob_proof_wrong_commitment_is_false() {
    let s = settings_with_tau(5);
    let c = Bytes48::from_slice(&g1_times(1)).unwrap();
    let ok = verify_blob_kzg_proof(&zero_blob(), &c, &identity48(), &s).unwrap();
    assert!(!ok);
}

#[test]
fn blob_proof_invalid_inputs_are_rejected() {
    let s = settings_with_tau(5);
    let mut data = vec![0u8; 131072];
    data[..32].copy_from_slice(&Q_BE);
    let bad_blob = Blob::from_slice(&data).unwrap();
    let r = verify_blob_kzg_proof(&bad_blob, &identity48(), &identity48(), &s);
    assert!(matches!(r, Err(KzgError::BadArgs(_))));
    let bad_point = Bytes48::from_slice(&[0u8; 48]).unwrap();
    let r = verify_blob_kzg_proof(&zero_blob(), &bad_point, &identity48(), &s);
    assert!(matches!(r, Err(KzgError::BadArgs(_))));
    let r = verify_blob_kzg_proof(&zero_blob(), &identity48(), &bad_point, &s);
    assert!(matches!(r, Err(KzgError::BadArgs(_))));
}

#[test]
fn empty_batch_verifies() {
    let s = settings_with_tau(5);
    assert!(verify_blob_kzg_proof_batch(&vec![], &vec![], &vec![], &s).unwrap());
}

#[test]
fn batch_with_mismatched_lengths_is_rejected() {
    let s = settings_with_tau(5);
    let r = verify_blob_kzg_proof_batch(&vec![zero_blob()], &vec![], &vec![identity48()], &s);
    assert!(matches!(r, Err(KzgError::InvalidBytesLength(_))));
}

#[test]
fn batch_of_one_matches_single_verification() {
    let s = settings_with_tau(5);
    let good = verify_blob_kzg_proof_batch(&vec![zero_blob()], &vec![identity48()], &vec![identity48()], &s);
    assert_eq!(good.unwrap(), verify_blob_kzg_proof(&zero_blob(), &identity48(), &identity48(), &s).unwrap());
    let c = Bytes48::from_slice(&g1_times(1)).unwrap();
    let bad = verify_blob_kzg_proof_batch(&vec![zero_blob()], &vec![c.clone()], &vec![identity48()], &s);
    assert_eq!(bad.unwrap(), verify_blob_kzg_proof(&zero_blob(), &c, &identity48(), &s).unwrap());
}

#[test]
fn batch_order_does_not_change_outcome() {
    let s = settings_with_tau(5);
    let c = Bytes48::from_slice(&g1_times(1)).unwrap();
    let blobs = vec![zero_blob(), zero_blob()];
    let honest = verify_blob_kzg_proof_batch(&blobs, &vec![identity48(), identity48()], &vec![identity48(), identity48()], &s);
    assert!(honest.unwrap());
    let a = verify_blob_kzg_proof_batch(&blobs, &vec![c.clone(), identity48()], &vec![identity48(), identity48()], &s);
    let b = verify_blob_kzg_proof_batch(&blobs, &vec![identity48(), c], &vec![identity48(), identity48()], &s);
    assert!(!a.unwrap());
    assert!(!b.unwrap());
}

#[test]
fn batch_with_invalid_item_is_rejected() {
    let s = settings_with_tau(5);
    let bad_point = Bytes48::from_slice(&[0u8; 48]).unwrap();
    let r = verify_blob_kzg_proof_batch(
        &vec![zero_blob(), zero_blob()],
        &vec![identity48(), bad_point],
        &vec![identity48(), identity48()],
        &s,
    );
    assert!(matches!(r, Err(KzgError::BadArgs(_))));
}

#[test]
fn trusted_setup_text_with_wrong_counts_is_rejected() {
    let g1 = "97f1d3a73197d7942695638c4fa9ac0fc3688c4f9774b905a14e3a3f171bac586c55e83ff97a1aeffb3af00adb22c6bb";
    let text = format!("4095\n65\n{g1}\n");
    assert!(matches!(KzgSettings::load_trusted_setup(&text), Err(KzgError::InvalidTrustedSetup(_))));
    let text = format!("4096\n64\n{g1}\n");
    assert!(matches!(KzgSettings::load_trusted_setup(&text), Err(KzgError::InvalidTrustedSetup(_))));
    assert!(matches!(KzgSettings::load_trusted_setup(""), Err(KzgError::InvalidTrustedSetup(_))));
    assert!(matches!(KzgSettings::load_trusted_setup("x 65"), Err(KzgError::InvalidTrustedSetup(_))));
}

#[test]
fn trusted_setup_text_with_bad_point_is_rejected() {
    let text = "  4096\n65\nzz\n";
    assert!(matches!(KzgSettings::load_trusted_setup(text), Err(KzgError::InvalidTrustedSetup(_))));
    let not_a_point = "00".repeat(48);
    let text = format!("4096 65 {not_a_point}");
    assert!(matches!(KzgSettings::load_trusted_setup(&text), Err(KzgError::InvalidTrustedSetup(_))));
}

#[test]
fn trusted_setup_text_is_read_in_full() {
    let g1: String = G1Affine::generator().to_compressed().iter().map(|b| format!("{b:02x}")).collect();
    let g2: String = G2Affine::generator().to_compressed().iter().map(|b| format!("{b:02X}")).collect();
    let mut text = String::from("4096\n65\n");
    for _ in 0..4096 {
        text.push_str(&g1);
        text.push('\n');
    }
    for _ in 0..64 {
        text.push_str(&g2);
        text.push('\n');
    }
    // one G2 point short
    assert!(matches!(KzgSettings::load_trusted_setup(&text), Err(KzgError::InvalidTrustedSetup(_))));
    text.push_str(&g2);
    let s = KzgSettings::load_trusted_setup(&text).unwrap();
    assert_eq!(s.g1_points.len(), 4096);
    assert_eq!(s.g2_points.len(), 65);
    assert_eq!(s.g2_points[64], G2Affine::generator().to_compressed());
    assert_eq!(s.g1_points[0], G1Affine::generator().to_compressed());
}

#[test]
fn field_equality_compares_values() {
    assert!(fr(5).equals(&fr_add(&fr(2), &fr(3))));
    assert!(!fr(5).equals(&fr(6)));
}

#[test]
fn r_powers_are_successive_powers() {
    let c = vec![identity48(), Bytes48::from_slice(&g1_times(2)).unwrap(), identity48()];
    let zs = vec![fr(1), fr(2), fr(3)];
    let ys = vec![fr(4), fr(5), fr(6)];
    let powers = compute_r_powers(&c, &zs, &ys, &c);
    assert_eq!(powers.len(), 3);
    assert_eq!(powers[0].to_be_bytes(), be32(1));
    assert_eq!(powers[2].to_be_bytes(), fr_mul(&powers[1], &powers[1]).to_be_bytes());
    assert!(compute_r_powers(&vec![], &vec![], &vec![], &vec![]).is_empty());
    let other = compute_r_powers(&c, &zs, &vec![fr(4), fr(5), fr(7)], &c);
    assert_ne!(other[1].to_be_bytes(), powers[1].to_be_bytes());
}

#[test]
fn challenge_and_evaluation_of_zero_blob() {
    let s = settings_with_tau(5);
    let blob = zero_blob();
    let c = identity48();
    let (z, y) = compute_challenge_and_evaluation(&blob, &c, &s).unwrap();
    assert_eq!(z.to_be_bytes(), compute_challenge(&blob, &c).to_be_bytes());
    assert_eq!(y.to_be_bytes(), be32(0));
}

#[test]
fn g1_constants_match_the_curve() {
    assert_eq!(kzg::points::G1_GENERATOR, G1Affine::generator().to_compressed());
    assert_eq!(kzg::points::G1_IDENTITY, G1Affine::identity().to_compressed());
}

#[test]
fn trusted_setup_with_off_subgroup_g2_is_rejected() {
    let mut raw = G2Affine::generator().to_compressed();
    raw[95] ^= 1;
    let bad = G2Affine::from_compressed_unchecked(&raw);
    if bool::from(bad.is_some()) {
        let mut g2 = vec![G2Affine::generator(); 65];
        g2[3] = bad.unwrap();
        let r = KzgSettings::load_trusted_setup_from_points(vec![G1Affine::generator(); 4096], g2);
        assert!(matches!(r, Err(KzgError::InvalidTrustedSetup(_))));
    }
}

#[test]
fn domain_tag_bytes_match_the_tags() {
    assert_eq!(&kzg::fiat_shamir::FIAT_SHAMIR_PROTOCOL_DOMAIN_BYTES[..], kzg::consts::FIAT_SHAMIR_PROTOCOL_DOMAIN.as_bytes());
    assert_eq!(
        &kzg::fiat_shamir::RANDOM_CHALLENGE_KZG_BATCH_DOMAIN_BYTES[..],
        kzg::consts::RANDOM_CHALLENGE_KZG_BATCH_DOMAIN.as_bytes()
    );
}
