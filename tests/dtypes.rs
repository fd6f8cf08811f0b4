use kzg::dtypes::{Blob, Bytes32, Bytes48};
use kzg::enums::KzgError;

#[test]
fn test_bytes32() {
    let bytes = Bytes32::from_slice(&[0u8; 32]).unwrap();
    assert_eq!(bytes.as_slice().len(), 32);
}

#[test]
fn test_bytes48() {
    let bytes = Bytes48::from_slice(&[0u8; 48]).unwrap();
    assert_eq!(bytes.as_slice().len(), 48);
}

#[test]
fn roundtrip_serde_blob() {
    let blob = Blob::from_slice(&[0u8; 131072]).unwrap();
    let ser = bincode::serialize(blob.as_slice()).unwrap();
    let deser: Vec<u8> = bincode::deserialize(&ser).unwrap();
    let back = Blob::from_slice(&deser).unwrap();
    assert_eq!(back.as_slice(), blob.as_slice());
}

#[test]
fn bytes_wrong_lengths_are_rejected() {
    assert!(matches!(Bytes32::from_slice(&[0u8; 31]), Err(KzgError::InvalidBytesLength(_))));
    assert!(matches!(Bytes48::from_slice(&[0u8; 49]), Err(KzgError::InvalidBytesLength(_))));
    assert!(matches!(Blob::from_slice(&[0u8; 131071]), Err(KzgError::InvalidBytesLength(_))));
    assert!(matches!(Blob::from_slice(&[]), Err(KzgError::InvalidBytesLength(_))));
}

#[test]
fn bytes_keep_their_contents() {
    let data: Vec<u8> = (0..48u8).collect();
    let b = Bytes48::from_slice(&data).unwrap();
    assert_eq!(b.as_slice(), &data[..]);
    assert_eq!(&b.to_array()[..], &data[..]);
    assert_eq!(&b.clone().boxed()[..], &data[..]);
    let b32 = Bytes32::from_slice(&data[..32]).unwrap();
    assert_eq!(&b32.to_array()[..], &data[..32]);
    assert_eq!(&b32.boxed()[..], &data[..32]);
}

#[test]
fn blob_boxed_and_array_keep_contents() {
    let mut data = vec![0u8; 131072];
    data[7] = 9;
    data[131071] = 3;
    let blob = Blob::from_slice(&data).unwrap();
    assert_eq!(&blob.clone().into_array()[..], &data[..]);
    assert_eq!(&blob.boxed()[..], &data[..]);
}

#[test]
fn blob_as_polynomial_reads_big_endian_chunks() {
    let mut data = vec![0u8; 131072];
    data[31] = 5;
    data[32 * 4095 + 30] = 1;
    let blob = Blob::from_slice(&data).unwrap();
    let poly = blob.as_polynomial().unwrap();
    assert_eq!(poly.len(), 4096);
    let mut five = [0u8; 32];
    five[31] = 5;
    assert_eq!(poly[0].to_be_bytes(), five);
    let mut last = [0u8; 32];
    last[30] = 1;
    assert_eq!(poly[4095].to_be_bytes(), last);
    assert_eq!(poly[1].to_be_bytes(), [0u8; 32]);
}

#[test]
fn blob_with_non_canonical_chunk_is_rejected() {
    let mut data = vec![0u8; 131072];
    for b in &mut data[32 * 100..32 * 101] {
        *b = 0xff;
    }
    let blob = Blob::from_slice(&data).unwrap();
    assert!(matches!(blob.as_polynomial(), Err(KzgError::BadArgs(_))));
}

#[test]
fn conversions_into_arrays() {
    let data: Vec<u8> = (0..48u8).collect();
    let a: [u8; 48] = Bytes48::from_slice(&data).unwrap().into();
    assert_eq!(&a[..], &data[..]);
    let b: [u8; 32] = Bytes32::from_slice(&data[..32]).unwrap().into();
    assert_eq!(&b[..], &data[..32]);
    let mut raw = vec![0u8; 131072];
    raw[5] = 1;
    let c: [u8; 131072] = Blob::from_slice(&raw).unwrap().into();
    assert_eq!(&c[..], &raw[..]);
}
