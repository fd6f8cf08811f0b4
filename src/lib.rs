//! Verification of KZG commitments and opening proofs for EIP-4844 blobs.

pub mod consts;
pub mod domain;
pub mod dtypes;
pub mod enums;
pub mod eval;
pub mod fiat_shamir;
pub mod kzg_proof;
pub mod points;
pub mod setup;
pub mod field;

pub use consts::{
    BYTES_PER_BLOB, BYTES_PER_COMMITMENT, BYTES_PER_FIELD_ELEMENT, BYTES_PER_G1_POINT,
    BYTES_PER_G2_POINT, BYTES_PER_PROOF, NUM_FIELD_ELEMENTS_PER_BLOB, NUM_G1_POINTS, NUM_G2_POINTS,
};
