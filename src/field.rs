use vstd::arithmetic::power::pow;
use vstd::prelude::*;

use crate::enums::KzgError;

verus! {

/// The order q of the BLS12-381 scalar field.
pub open spec fn modulus() -> nat {
    0x73eda753299d7d483339d80809a1d80553bda402fffe5bfeffffffff00000001nat
}

/// The integer that a little-endian byte string encodes.
pub open spec fn le_value(s: Seq<u8>) -> nat
    decreases s.len(),
{
    if s.len() == 0 {
        0
    } else {
        le_value(s.drop_last()) + (s.last() as nat) * (pow(256, (s.len() - 1) as nat) as nat)
    }
}

proof fn lemma_le_value_bound(s: Seq<u8>)
    ensures
        le_value(s) < pow(256, s.len()),
    decreases s.len(),
{
    reveal(pow);
    if s.len() > 0 {
        let n = (s.len() - 1) as nat;
        lemma_le_value_bound(s.drop_last());
        vstd::arithmetic::power::lemma_pow_positive(256, n);
        let p = pow(256, n);
        let x = le_value(s.drop_last());
        let l = s.last() as int;
        assert(x + l * p < 256 * p) by (nonlinear_arith)
            requires
                0 <= x < p,
                0 <= l <= 255,
        ;
    }
}

/// Two byte strings of one length that encode the same integer are equal.
pub proof fn lemma_le_value_injective(a: Seq<u8>, b: Seq<u8>)
    requires
        a.len() == b.len(),
        le_value(a) == le_value(b),
    ensures
        a == b,
    decreases a.len(),
{
    if a.len() > 0 {
        let n = (a.len() - 1) as nat;
        lemma_le_value_bound(a.drop_last());
        lemma_le_value_bound(b.drop_last());
        let p = pow(256, n);
        let x = le_value(a.drop_last()) as int;
        let y = le_value(b.drop_last()) as int;
        let la = a.last() as int;
        let lb = b.last() as int;
        assert(la == lb && x == y) by (nonlinear_arith)
            requires
                0 <= x < p,
                0 <= y < p,
                x + la * p == y + lb * p,
        ;
        lemma_le_value_injective(a.drop_last(), b.drop_last());
        assert(a =~= a.drop_last().push(a.last()));
        assert(b =~= b.drop_last().push(b.last()));
    }
}

/// Trailing zero bytes leave a little-endian value unchanged.
pub proof fn lemma_le_value_zero_tail(s: Seq<u8>, n: nat)
    ensures
        le_value(s + Seq::new(n, |k: int| 0u8)) == le_value(s),
    decreases n,
{
    if n > 0 {
        let t = s + Seq::new(n, |k: int| 0u8);
        assert(t.drop_last() =~= s + Seq::new((n - 1) as nat, |k: int| 0u8));
        lemma_le_value_zero_tail(s, (n - 1) as nat);
        assert(t.last() == 0u8);
        assert(le_value(t) == le_value(t.drop_last()));
    } else {
        assert(s + Seq::new(n, |k: int| 0u8) =~= s);
    }
}

/// The bytes of `s` in the opposite order.
pub open spec fn reversed(s: Seq<u8>) -> Seq<u8> {
    Seq::new(s.len(), |i: int| s[s.len() - 1 - i])
}

/// The integer that a big-endian byte string encodes.
pub open spec fn be_value(s: Seq<u8>) -> nat {
    le_value(reversed(s))
}

pub open spec fn fadd(a: nat, b: nat) -> nat {
    (a + b) % modulus()
}

pub open spec fn fsub(a: nat, b: nat) -> nat {
    ((a - b) % (modulus() as int)) as nat
}

pub open spec fn fmul(a: nat, b: nat) -> nat {
    (a * b) % modulus()
}

/// The multiplicative inverse of a non-zero field element, by Fermat's little theorem.
pub open spec fn finv(a: nat) -> nat {
    (pow(a as int, (modulus() - 2) as nat) % (modulus() as int)) as nat
}

/// An element of the scalar field, held as its canonical 32-byte little-endian encoding.
#[derive(Debug, Clone, Copy, PartialEq, Eq)]
pub struct Fr {
    pub(crate) le: [u8; 32],
}

impl Fr {
    /// The integer in [0, q) that this element stands for.
    pub closed spec fn val(&self) -> nat {
        le_value(self.le@)
    }

    pub open spec fn wf(&self) -> bool {
        self.val() < modulus()
    }

    /// Decodes a canonical 32-byte big-endian scalar.
    pub fn from_be_bytes(bytes: &[u8; 32]) -> (r: Result<Fr, KzgError>)
        ensures
            r is Ok <==> be_value(bytes@) < modulus(),
            r matches Ok(f) ==> f.wf() && f.val() == be_value(bytes@),
            r matches Err(e) ==> e is BadArgs,
    {
        let le = reverse32(bytes);
        if !is_canonical_le(&le) {
            return Err(KzgError::BadArgs("scalar is not canonical".to_string()));
        }
        Ok(Fr { le })
    }

    /// The canonical 32-byte big-endian encoding.
    pub fn to_be_bytes(&self) -> (r: [u8; 32])
        ensures
            be_value(r@) == self.val(),
            r@ == self.be_encoding(),
    {
        let r = reverse32(&self.le);
        assert(reversed(r@) =~= self.le@);
        r
    }

    /// Whether two elements are the same field element.
    pub fn equals(&self, other: &Fr) -> (r: bool)
        ensures
            r == (self.val() == other.val()),
    {
        let mut i: usize = 0;
        while i < 32
            invariant
                i <= 32,
                forall|k: int| 0 <= k < i ==> self.le@[k] == other.le@[k],
            decreases 32 - i,
        {
            if self.le[i] != other.le[i] {
                proof {
                    if self.val() == other.val() {
                        lemma_le_value_injective(self.le@, other.le@);
                    }
                }
                return false;
            }
            i = i + 1;
        }
        assert(self.le@ =~= other.le@);
        true
    }

    /// The big-endian encoding of this element, as a spec value.
    pub closed spec fn be_encoding(&self) -> Seq<u8> {
        reversed(self.le@)
    }
}

/// Decoding a canonical 32-byte scalar and encoding it again gives back the same bytes.
pub proof fn lemma_scalar_round_trip(bytes: Seq<u8>, f: Fr)
    requires
        bytes.len() == 32,
        f.val() == be_value(bytes),
    ensures
        f.be_encoding() == bytes,
{
    lemma_le_value_injective(f.le@, reversed(bytes));
    assert(reversed(reversed(bytes)) =~= bytes);
}

/// Reverses the order of 32 bytes.
pub(crate) fn reverse32(b: &[u8; 32]) -> (r: [u8; 32])
    ensures
        r@ == reversed(b@),
{
    let mut r = [0u8; 32];
    let mut i: usize = 0;
    while i < 32
        invariant
            i <= 32,
            forall|k: int| 0 <= k < i ==> r@[k] == b@[31 - k],
        decreases 32 - i,
    {
        r[i] = b[31 - i];
        i = i + 1;
    }
    assert(r@ =~= reversed(b@));
    r
}

/// Appends 32 zero bytes.
pub fn widen(b: &[u8; 32]) -> (r: [u8; 64])
    ensures
        le_value(r@) == le_value(b@),
{
    let mut r = [0u8; 64];
    let mut i: usize = 0;
    while i < 32
        invariant
            i <= 32,
            forall|k: int| 0 <= k < i ==> r@[k] == b@[k],
            forall|k: int| 32 <= k < 64 ==> r@[k] == 0u8,
        decreases 32 - i,
    {
        r[i] = b[i];
        i = i + 1;
    }
    proof {
        assert(r@ =~= b@ + Seq::new(32, |k: int| 0u8));
        lemma_le_value_zero_tail(b@, 32);
    }
    r
}

/// Relies on `Scalar::from_bytes`: it succeeds exactly on little-endian values below q.
#[verifier::external_body]
fn is_canonical_le(b: &[u8; 32]) -> (r: bool)
    ensures
        r == (le_value(b@) < modulus()),
{
    bool::from(bls12_381::Scalar::from_bytes(b).is_some())
}

/// Relies on `Scalar::from_bytes` and `Scalar::to_bytes` around `Scalar::add`.
#[verifier::external_body]
pub fn fr_add(a: &Fr, b: &Fr) -> (r: Fr)
    requires
        a.wf(),
        b.wf(),
    ensures
        r.wf(),
        r.val() == fadd(a.val(), b.val()),
{
    let x = bls12_381::Scalar::from_bytes(&a.le).unwrap();
    let y = bls12_381::Scalar::from_bytes(&b.le).unwrap();
    Fr { le: x.add(&y).to_bytes() }
}

/// Relies on `Scalar::from_bytes` and `Scalar::to_bytes` around `Scalar::sub`.
#[verifier::external_body]
pub fn fr_sub(a: &Fr, b: &Fr) -> (r: Fr)
    requires
        a.wf(),
        b.wf(),
    ensures
        r.wf(),
        r.val() == fsub(a.val(), b.val()),
{
    let x = bls12_381::Scalar::from_bytes(&a.le).unwrap();
    let y = bls12_381::Scalar::from_bytes(&b.le).unwrap();
    Fr { le: x.sub(&y).to_bytes() }
}

/// Relies on `Scalar::from_bytes` and `Scalar::to_bytes` around `Scalar::mul`.
#[verifier::external_body]
pub fn fr_mul(a: &Fr, b: &Fr) -> (r: Fr)
    requires
        a.wf(),
        b.wf(),
    ensures
        r.wf(),
        r.val() == fmul(a.val(), b.val()),
{
    let x = bls12_381::Scalar::from_bytes(&a.le).unwrap();
    let y = bls12_381::Scalar::from_bytes(&b.le).unwrap();
    Fr { le: x.mul(&y).to_bytes() }
}

/// Relies on `Scalar::invert`, which raises a non-zero element to the power q - 2.
#[verifier::external_body]
pub fn fr_invert(a: &Fr) -> (r: Fr)
    requires
        a.wf(),
        a.val() != 0,
    ensures
        r.wf(),
        r.val() == finv(a.val()),
{
    let x = bls12_381::Scalar::from_bytes(&a.le).unwrap();
    Fr { le: x.invert().unwrap().to_bytes() }
}

/// Relies on `Scalar::from_bytes_wide`: a 512-bit little-endian integer reduced mod q.
#[verifier::external_body]
pub fn fr_from_bytes_wide(b: &[u8; 64]) -> (r: Fr)
    ensures
        r.wf(),
        r.val() == le_value(b@) % modulus(),
{
    Fr { le: bls12_381::Scalar::from_bytes_wide(b).to_bytes() }
}

/// The integer that four little-endian 64-bit limbs encode.
pub open spec fn limbs_value(l: [u64; 4]) -> nat {
    l[0] as nat + l[1] as nat * 0x1_0000_0000_0000_0000 + l[2] as nat
        * 0x1_0000_0000_0000_0000_0000_0000_0000_0000 + l[3] as nat
        * 0x1_0000_0000_0000_0000_0000_0000_0000_0000_0000_0000_0000_0000
}

/// Relies on `Scalar::from_raw`: four little-endian limbs, taken mod q.
#[verifier::external_body]
pub fn fr_from_raw(l: &[u64; 4]) -> (r: Fr)
    ensures
        r.wf(),
        r.val() == limbs_value(*l) % modulus(),
{
    Fr { le: bls12_381::Scalar::from_raw(*l).to_bytes() }
}

/// Relies on `Scalar::from(u64)`.
#[verifier::external_body]
pub fn fr_from_u64(x: u64) -> (r: Fr)
    ensures
        r.wf(),
        r.val() == x as nat,
{
    Fr { le: bls12_381::Scalar::from(x).to_bytes() }
}

} // verus!
