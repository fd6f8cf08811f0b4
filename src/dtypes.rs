use vstd::prelude::*;

use crate::consts::{BYTES_PER_BLOB, BYTES_PER_FIELD_ELEMENT, NUM_FIELD_ELEMENTS_PER_BLOB};
use crate::enums::KzgError;
use crate::eval::vals;
use crate::field::{be_value, modulus, Fr};

verus! {

/// An opaque 32-byte value, such as the encoding of a scalar.
#[derive(Debug, Clone)]
pub struct Bytes32([u8; 32]);

/// An opaque 48-byte value, such as a compressed G1 point.
#[derive(Debug, Clone)]
pub struct Bytes48([u8; 48]);

impl View for Bytes32 {
    type V = Seq<u8>;

    closed spec fn view(&self) -> Seq<u8> {
        self.0@
    }
}

impl View for Bytes48 {
    type V = Seq<u8>;

    closed spec fn view(&self) -> Seq<u8> {
        self.0@
    }
}

impl Bytes32 {
    /// Wraps a slice of exactly 32 bytes.
    pub fn from_slice(slice: &[u8]) -> (r: Result<Self, KzgError>)
        ensures
            slice@.len() == 32 <==> r is Ok,
            r matches Ok(b) ==> b@ == slice@,
            r matches Err(e) ==> e is InvalidBytesLength,
    {
        if slice.len() != 32 {
            return Err(KzgError::InvalidBytesLength("Invalid slice length".to_string()));
        }
        let mut bytes = [0u8; 32];
        let mut i: usize = 0;
        while i < 32
            invariant
                slice@.len() == 32,
                i <= 32,
                forall|k: int| 0 <= k < i ==> bytes@[k] == slice@[k],
            decreases 32 - i,
        {
            bytes[i] = slice[i];
            i = i + 1;
        }
        assert(bytes@ =~= slice@);
        Ok(Bytes32(bytes))
    }

    pub fn as_slice(&self) -> (r: &[u8])
        ensures
            r@ == self@,
            r@.len() == 32,
    {
        self.0.as_slice()
    }

    pub fn boxed(self) -> (r: Box<[u8; 32]>)
        ensures
            r@ == self@,
    {
        Box::new(self.0)
    }

    /// The wrapped bytes as an array.
    pub fn to_array(&self) -> (r: [u8; 32])
        ensures
            r@ == self@,
    {
        self.0
    }
}

impl Bytes48 {
    /// Wraps a slice of exactly 48 bytes.
    pub fn from_slice(slice: &[u8]) -> (r: Result<Self, KzgError>)
        ensures
            slice@.len() == 48 <==> r is Ok,
            r matches Ok(b) ==> b@ == slice@,
            r matches Err(e) ==> e is InvalidBytesLength,
    {
        if slice.len() != 48 {
            return Err(KzgError::InvalidBytesLength("Invalid slice length".to_string()));
        }
        let mut bytes = [0u8; 48];
        let mut i: usize = 0;
        while i < 48
            invariant
                slice@.len() == 48,
                i <= 48,
                forall|k: int| 0 <= k < i ==> bytes@[k] == slice@[k],
            decreases 48 - i,
        {
            bytes[i] = slice[i];
            i = i + 1;
        }
        assert(bytes@ =~= slice@);
        Ok(Bytes48(bytes))
    }

    pub fn as_slice(&self) -> (r: &[u8])
        ensures
            r@ == self@,
            r@.len() == 48,
    {
        self.0.as_slice()
    }

    pub fn boxed(self) -> (r: Box<[u8; 48]>)
        ensures
            r@ == self@,
    {
        Box::new(self.0)
    }

    /// The wrapped bytes as an array.
    pub fn to_array(&self) -> (r: [u8; 48])
        ensures
            r@ == self@,
    {
        self.0
    }
}

impl From<Bytes32> for [u8; 32] {
    fn from(value: Bytes32) -> (r: [u8; 32])
        ensures
            r@ == value@,
    {
        let r = value.0;
        proof {
            let c = choose|a: [u8; 32]| a@ == value@;
            assert(c =~= r);
        }
        r
    }
}

impl vstd::std_specs::convert::FromSpecImpl<Bytes32> for [u8; 32] {
    open spec fn obeys_from_spec() -> bool {
        true
    }

    open spec fn from_spec(v: Bytes32) -> [u8; 32] {
        choose|a: [u8; 32]| a@ == v@
    }
}

impl From<Bytes48> for [u8; 48] {
    fn from(value: Bytes48) -> (r: [u8; 48])
        ensures
            r@ == value@,
    {
        let r = value.0;
        proof {
            let c = choose|a: [u8; 48]| a@ == value@;
            assert(c =~= r);
        }
        r
    }
}

impl vstd::std_specs::convert::FromSpecImpl<Bytes48> for [u8; 48] {
    open spec fn obeys_from_spec() -> bool {
        true
    }

    open spec fn from_spec(v: Bytes48) -> [u8; 48] {
        choose|a: [u8; 48]| a@ == v@
    }
}

/// The `i`-th 32-byte chunk of a blob's bytes.
pub open spec fn blob_chunk(b: Seq<u8>, i: int) -> Seq<u8> {
    b.subrange(32 * i, 32 * i + 32)
}

/// Every chunk of the blob is a canonical scalar encoding.
pub open spec fn blob_is_canonical(b: Seq<u8>) -> bool {
    forall|i: int| 0 <= i < 4096 ==> be_value(#[trigger] blob_chunk(b, i)) < modulus()
}

/// The scalar values of a blob's chunks, in order.
pub open spec fn blob_values(b: Seq<u8>) -> Seq<nat> {
    Seq::new(4096, |i: int| be_value(blob_chunk(b, i)))
}

/// A blob: exactly `BYTES_PER_BLOB` bytes, read as 4096 big-endian scalar encodings.
#[derive(Debug, Clone)]
pub struct Blob {
    inner: Box<[u8; BYTES_PER_BLOB]>,
}

impl View for Blob {
    type V = Seq<u8>;

    closed spec fn view(&self) -> Seq<u8> {
        self.inner@
    }
}

impl Blob {
    /// Copies a slice of exactly `BYTES_PER_BLOB` bytes into a blob.
    pub fn from_slice(slice: &[u8]) -> (r: Result<Self, KzgError>)
        ensures
            slice@.len() == BYTES_PER_BLOB <==> r is Ok,
            r matches Ok(b) ==> b@ == slice@,
            r matches Err(e) ==> e is InvalidBytesLength,
    {
        if slice.len() != BYTES_PER_BLOB {
            return Err(KzgError::InvalidBytesLength("Invalid slice length".to_string()));
        }
        let mut bytes = Box::new([0u8; BYTES_PER_BLOB]);
        let mut i: usize = 0;
        while i < BYTES_PER_BLOB
            invariant
                slice@.len() == BYTES_PER_BLOB,
                i <= BYTES_PER_BLOB,
                forall|k: int| 0 <= k < i ==> bytes@[k] == slice@[k],
            decreases BYTES_PER_BLOB - i,
        {
            bytes[i] = slice[i];
            i = i + 1;
        }
        assert(bytes@ =~= slice@);
        Ok(Blob { inner: bytes })
    }

    pub fn as_slice(&self) -> (r: &[u8])
        ensures
            r@ == self@,
            r@.len() == BYTES_PER_BLOB,
    {
        self.inner.as_slice()
    }

    pub fn boxed(self) -> (r: Box<[u8; BYTES_PER_BLOB]>)
        ensures
            r@ == self@,
    {
        self.inner
    }

    /// The blob's bytes as an array.
    pub fn into_array(self) -> (r: [u8; BYTES_PER_BLOB])
        ensures
            r@ == self@,
    {
        *self.inner
    }
}

impl Blob {
    /// The blob read as 4096 scalars, one per 32-byte chunk, in order.
    pub fn as_polynomial(&self) -> (r: Result<Vec<Fr>, KzgError>)
        ensures
            r is Ok <==> blob_is_canonical(self@),
            r matches Ok(p) ==> vals(p@) == blob_values(self@),
            r matches Ok(p) ==> forall|i: int| 0 <= i < p@.len() ==> (#[trigger] p@[i]).wf(),
            r matches Err(e) ==> e is BadArgs,
    {
        let mut poly: Vec<Fr> = Vec::new();
        let mut i: usize = 0;
        while i < NUM_FIELD_ELEMENTS_PER_BLOB
            invariant
                self@.len() == BYTES_PER_BLOB,
                i <= 4096,
                poly@.len() == i,
                forall|k: int|
                    0 <= k < i ==> (#[trigger] poly@[k]).wf() && poly@[k].val() == be_value(
                        blob_chunk(self@, k),
                    ),
            decreases 4096 - i,
        {
            let start = i * BYTES_PER_FIELD_ELEMENT;
            let mut chunk = [0u8; 32];
            let mut j: usize = 0;
            while j < 32
                invariant
                    self@.len() == BYTES_PER_BLOB,
                    i < 4096,
                    start == 32 * i,
                    j <= 32,
                    forall|k: int| 0 <= k < j ==> chunk@[k] == self@[start + k],
                decreases 32 - j,
            {
                chunk[j] = self.inner[start + j];
                j = j + 1;
            }
            assert(chunk@ =~= blob_chunk(self@, i as int));
            match Fr::from_be_bytes(&chunk) {
                Ok(f) => poly.push(f),
                Err(e) => {
                    assert(!(be_value(blob_chunk(self@, i as int)) < modulus()));
                    return Err(e);
                },
            }
            i = i + 1;
        }
        assert forall|k: int| 0 <= k < 4096 implies be_value(#[trigger] blob_chunk(self@, k))
            < modulus() by {
            assert(poly@[k].wf());
        }
        assert(vals(poly@) =~= blob_values(self@));
        Ok(poly)
    }
}

impl From<Blob> for [u8; BYTES_PER_BLOB] {
    fn from(value: Blob) -> (r: [u8; BYTES_PER_BLOB])
        ensures
            r@ == value@,
    {
        let r = *value.inner;
        proof {
            let c = choose|a: [u8; BYTES_PER_BLOB]| a@ == value@;
            assert(c =~= r);
        }
        r
    }
}

impl vstd::std_specs::convert::FromSpecImpl<Blob> for [u8; BYTES_PER_BLOB] {
    open spec fn obeys_from_spec() -> bool {
        true
    }

    open spec fn from_spec(v: Blob) -> [u8; BYTES_PER_BLOB] {
        choose|a: [u8; BYTES_PER_BLOB]| a@ == v@
    }
}

} // verus!
