use vstd::arithmetic::power::pow;
use vstd::arithmetic::power2::{lemma_pow2_unfold, pow2};
use vstd::arithmetic::div_mod::lemma_mul_mod_noop_left;
use vstd::prelude::*;

use crate::consts::{LOG2_FIELD_ELEMENTS_PER_BLOB, NUM_FIELD_ELEMENTS_PER_BLOB, SCALE2_ROOT_OF_UNITY};
use crate::eval::vals;
use crate::field::{fmul, fr_from_raw, fr_mul, limbs_value, modulus, Fr};

verus! {

/// The root of unity ω that generates the evaluation domain: the 4096-th entry of
/// `SCALE2_ROOT_OF_UNITY`, taken mod q.
pub open spec fn root_of_unity() -> nat {
    limbs_value(SCALE2_ROOT_OF_UNITY[12]) % modulus()
}

/// The values of the evaluation domain: position `i` holds ω^br(i).
pub open spec fn domain_values() -> Seq<nat> {
    Seq::new(4096, |i: int| fpow(root_of_unity(), bit_reverse(i as nat, 12)))
}

/// a^k in the scalar field.
pub open spec fn fpow(a: nat, k: nat) -> nat {
    (pow(a as int, k) % (modulus() as int)) as nat
}

proof fn lemma_fpow_double(a: nat, e: nat)
    ensures
        fpow(a, 2 * e) == fmul(fpow(a, e), fpow(a, e)),
{
    let p = pow(a as int, e);
    vstd::arithmetic::power::lemma_pow_adds(a as int, e, e);
    assert(e + e == 2 * e);
    vstd::arithmetic::div_mod::lemma_mul_mod_noop(p, p, modulus() as int);
    vstd::arithmetic::div_mod::lemma_mod_bound(p, modulus() as int);
}

/// ω has order exactly 4096: ω^4096 = 1 and ω^2048 ≠ 1.
pub proof fn lemma_root_of_unity_order()
    ensures
        fpow(root_of_unity(), 4096) == 1,
        fpow(root_of_unity(), 2048) != 1,
        fpow(root_of_unity(), 2048) == modulus() - 1,
{
    let w = root_of_unity();
    assert(limbs_value(SCALE2_ROOT_OF_UNITY[12]) == 0x564c0a11a0f704f4fc3e8acfe0f8245f0ad1347b378fbf96e206da11a5d36306nat);
    assert(w == 0x564c0a11a0f704f4fc3e8acfe0f8245f0ad1347b378fbf96e206da11a5d36306nat);
    vstd::arithmetic::power::lemma_pow1(w as int);
    assert(fpow(w, 1) == w);
    lemma_fpow_double(w, 1);
    assert(fmul(0x564c0a11a0f704f4fc3e8acfe0f8245f0ad1347b378fbf96e206da11a5d36306nat, 0x564c0a11a0f704f4fc3e8acfe0f8245f0ad1347b378fbf96e206da11a5d36306nat) == 0x6d031f1b5c49c83409f1ca610a08f16655ea6811be9c622d4a838b5d59cd79e5nat);
    lemma_fpow_double(w, 2);
    assert(fmul(0x6d031f1b5c49c83409f1ca610a08f16655ea6811be9c622d4a838b5d59cd79e5nat, 0x6d031f1b5c49c83409f1ca610a08f16655ea6811be9c622d4a838b5d59cd79e5nat) == 0x325db5c3debf77a18f4de02c0f776af3ea437f9626fc085e3c28d666a5c2d854nat);
    lemma_fpow_double(w, 4);
    assert(fmul(0x325db5c3debf77a18f4de02c0f776af3ea437f9626fc085e3c28d666a5c2d854nat, 0x325db5c3debf77a18f4de02c0f776af3ea437f9626fc085e3c28d666a5c2d854nat) == 0x95166525526a65439feec240d80689fd697168a3a6000fe4541b8ff2ee0434enat);
    lemma_fpow_double(w, 8);
    assert(fmul(0x95166525526a65439feec240d80689fd697168a3a6000fe4541b8ff2ee0434enat, 0x95166525526a65439feec240d80689fd697168a3a6000fe4541b8ff2ee0434enat) == 0x4f9b4098e2e9f12e6b368121ac0cf4ad0a0865a899e8deff4935bd2f817f694bnat);
    lemma_fpow_double(w, 16);
    assert(fmul(0x4f9b4098e2e9f12e6b368121ac0cf4ad0a0865a899e8deff4935bd2f817f694bnat, 0x4f9b4098e2e9f12e6b368121ac0cf4ad0a0865a899e8deff4935bd2f817f694bnat) == 0x6898111413588742b7c68b4d7fdd60d098d0caac87f5713c5130c2c1660125benat);
    lemma_fpow_double(w, 32);
    assert(fmul(0x6898111413588742b7c68b4d7fdd60d098d0caac87f5713c5130c2c1660125benat, 0x6898111413588742b7c68b4d7fdd60d098d0caac87f5713c5130c2c1660125benat) == 0x45af6345ec055e4d14a1e27164d8fdbd2d967f4be2f951558140d032f0a9ee53nat);
    lemma_fpow_double(w, 64);
    assert(fmul(0x45af6345ec055e4d14a1e27164d8fdbd2d967f4be2f951558140d032f0a9ee53nat, 0x45af6345ec055e4d14a1e27164d8fdbd2d967f4be2f951558140d032f0a9ee53nat) == 0x50e0903a157988bab4bcd40e22f55448bf6e88fb4c38fb8a360c60997369df4enat);
    lemma_fpow_double(w, 128);
    assert(fmul(0x50e0903a157988bab4bcd40e22f55448bf6e88fb4c38fb8a360c60997369df4enat, 0x50e0903a157988bab4bcd40e22f55448bf6e88fb4c38fb8a360c60997369df4enat) == 0x20b1ce9140267af9dd1c0af834cec32c17beb312f20b6f7653ea61d87742bccenat);
    lemma_fpow_double(w, 256);
    assert(fmul(0x20b1ce9140267af9dd1c0af834cec32c17beb312f20b6f7653ea61d87742bccenat, 0x20b1ce9140267af9dd1c0af834cec32c17beb312f20b6f7653ea61d87742bccenat) == 0x345766f603fa66e78c0625cd70d77ce2b38b21c28713b7007228fd3397743f7anat);
    lemma_fpow_double(w, 512);
    assert(fmul(0x345766f603fa66e78c0625cd70d77ce2b38b21c28713b7007228fd3397743f7anat, 0x345766f603fa66e78c0625cd70d77ce2b38b21c28713b7007228fd3397743f7anat) == 0x8d51ccce760304d0ec030002760300000001000000000000nat);
    lemma_fpow_double(w, 1024);
    assert(fmul(0x8d51ccce760304d0ec030002760300000001000000000000nat, 0x8d51ccce760304d0ec030002760300000001000000000000nat) == 0x73eda753299d7d483339d80809a1d80553bda402fffe5bfeffffffff00000000nat);
    lemma_fpow_double(w, 2048);
    assert(fmul(0x73eda753299d7d483339d80809a1d80553bda402fffe5bfeffffffff00000000nat, 0x73eda753299d7d483339d80809a1d80553bda402fffe5bfeffffffff00000000nat) == 0x1nat);
}

/// fpow(a, x) · fpow(a, y) == fpow(a, x + y).
proof fn lemma_fpow_adds(a: nat, x: nat, y: nat)
    ensures
        fmul(fpow(a, x), fpow(a, y)) == fpow(a, x + y),
{
    let q = modulus() as int;
    vstd::arithmetic::power::lemma_pow_adds(a as int, x, y);
    vstd::arithmetic::div_mod::lemma_mul_mod_noop(pow(a as int, x), pow(a as int, y), q);
    vstd::arithmetic::div_mod::lemma_mod_bound(pow(a as int, x), q);
    vstd::arithmetic::div_mod::lemma_mod_bound(pow(a as int, y), q);
}

/// fpow(fpow(a, x), y) == fpow(a, x · y).
proof fn lemma_fpow_multiplies(a: nat, x: nat, y: nat)
    ensures
        fpow(fpow(a, x), y) == fpow(a, x * y),
{
    let q = modulus() as int;
    vstd::arithmetic::div_mod::lemma_mod_bound(pow(a as int, x), q);
    vstd::arithmetic::power::lemma_pow_mod_noop(pow(a as int, x), y, q);
    vstd::arithmetic::power::lemma_pow_multiplies(a as int, x, y);
}

/// (q − 1)^o == q − 1 for odd o.
proof fn lemma_minus_one_odd_power(o: nat)
    requires
        o % 2 == 1,
    ensures
        fpow((modulus() - 1) as nat, o) == modulus() - 1,
    decreases o,
{
    let m1 = (modulus() - 1) as nat;
    if o == 1 {
        vstd::arithmetic::power::lemma_pow1(m1 as int);
        vstd::arithmetic::div_mod::lemma_small_mod(m1, modulus());
    } else {
        lemma_minus_one_odd_power((o - 2) as nat);
        vstd::arithmetic::power::lemma_pow1(m1 as int);
        vstd::arithmetic::div_mod::lemma_small_mod(m1, modulus());
        lemma_fpow_adds(m1, 1, 1);
        assert(m1 == 0x73eda753299d7d483339d80809a1d80553bda402fffe5bfeffffffff00000000nat);
        assert(fmul(0x73eda753299d7d483339d80809a1d80553bda402fffe5bfeffffffff00000000nat, 0x73eda753299d7d483339d80809a1d80553bda402fffe5bfeffffffff00000000nat) == 1);
        lemma_fpow_adds(m1, (o - 2) as nat, 2);
        vstd::arithmetic::power::lemma_pow0(m1 as int);
        assert(fmul((modulus() - 1) as nat, 1) == modulus() - 1);
    }
}

/// Every positive m splits as 2^v · o with o odd.
proof fn lemma_two_adic(m: nat) -> (r: (nat, nat))
    requires
        m > 0,
    ensures
        m == pow2(r.0) * r.1,
        r.1 % 2 == 1,
        pow2(r.0) <= m,
    decreases m,
{
    vstd::arithmetic::power2::lemma2_to64();
    if m % 2 == 1 {
        assert(m == pow2(0) * m);
        (0, m)
    } else {
        let (v, o) = lemma_two_adic(m / 2);
        assert(m == 2 * (m / 2));
        vstd::arithmetic::power2::lemma_pow2_unfold(v + 1);
        assert(m == 2 * (pow2(v) * o));
        assert(m == pow2(v + 1) * o) by (nonlinear_arith)
            requires
                m == 2 * (pow2(v) * o),
                pow2(v + 1) == 2 * pow2(v),
        ;
        (v + 1, o)
    }
}

/// No power ω^m with 0 < m < 4096 is 1.
proof fn lemma_root_power_not_one(m: nat)
    requires
        0 < m < 4096,
    ensures
        fpow(root_of_unity(), m) != 1,
{
    let w = root_of_unity();
    lemma_root_of_unity_order();
    let (v, o) = lemma_two_adic(m);
    vstd::arithmetic::power2::lemma2_to64();
    if v > 11 {
        vstd::arithmetic::power2::lemma_pow2_strictly_increases(12, v);
        assert(false) by (nonlinear_arith)
            requires
                m == pow2(v) * o,
                o >= 1,
                pow2(v) > 4096,
                m < 4096,
        ;
    }
    let k = (11 - v) as nat;
    vstd::arithmetic::power2::lemma_pow2_adds(v, k);
    assert(m * pow2(k) == 2048 * o) by (nonlinear_arith)
        requires
            m == pow2(v) * o,
            pow2(v) * pow2(k) == pow2(11),
            pow2(11) == 2048,
    ;
    if fpow(w, m) == 1 {
        lemma_fpow_multiplies(w, m, pow2(k));
        vstd::arithmetic::power::lemma1_pow(pow2(k));
        vstd::arithmetic::div_mod::lemma_small_mod(1, modulus());
        assert(fpow(w, m * pow2(k)) == 1);
        lemma_fpow_multiplies(w, 2048, o);
        lemma_minus_one_odd_power(o);
        assert(false);
    }
}

/// The 4096 points of the evaluation domain are pairwise distinct.
pub proof fn lemma_domain_values_distinct(i: int, j: int)
    requires
        0 <= i < j < 4096,
    ensures
        domain_values()[i] != domain_values()[j],
{
    let w = root_of_unity();
    vstd::arithmetic::power2::lemma2_to64();
    let a = bit_reverse(i as nat, 12);
    let b = bit_reverse(j as nat, 12);
    lemma_bit_reverse_bound(i as nat, 12);
    lemma_bit_reverse_bound(j as nat, 12);
    if a == b {
        lemma_bit_reverse_injective(i as nat, j as nat, 12);
    }
    if fpow(w, a) == fpow(w, b) {
        let (lo, hi) = if a < b { (a, b) } else { (b, a) };
        lemma_root_of_unity_order();
        lemma_fpow_adds(w, lo, (4096 - lo) as nat);
        lemma_fpow_adds(w, hi, (4096 - lo) as nat);
        lemma_fpow_adds(w, (hi - lo) as nat, 4096);
        assert(hi + (4096 - lo) == (hi - lo) + 4096);
        vstd::arithmetic::div_mod::lemma_small_mod(fpow(w, (hi - lo) as nat), modulus());
        assert(fmul(fpow(w, (hi - lo) as nat), 1) == fpow(w, (hi - lo) as nat));
        lemma_root_power_not_one((hi - lo) as nat);
    }
}

proof fn lemma_reverse_into_shift(x: nat, b: nat, acc: nat)
    ensures
        reverse_into(x, b, acc) == acc * pow2(b) + reverse_into(x, b, 0),
    decreases b,
{
    vstd::arithmetic::power2::lemma2_to64();
    if b > 0 {
        let b1 = (b - 1) as nat;
        assert(reverse_into(x, b, acc) == reverse_into(x / 2, b1, acc * 2 + x % 2));
        assert(reverse_into(x, b, 0) == reverse_into(x / 2, b1, 0 * 2 + x % 2));
        assert(0 * 2 + x % 2 == x % 2);
        lemma_reverse_into_shift(x / 2, b1, acc * 2 + x % 2);
        lemma_reverse_into_shift(x / 2, b1, x % 2);
        vstd::arithmetic::power2::lemma_pow2_unfold(b);
        assert((acc * 2 + x % 2) * pow2(b1) == acc * pow2(b) + (x % 2) * pow2(b1))
            by (nonlinear_arith)
            requires
                pow2(b) == 2 * pow2(b1),
        ;
        let r0 = reverse_into(x / 2, b1, 0);
        assert(reverse_into(x, b, acc) == (acc * 2 + x % 2) * pow2(b1) + r0);
        assert(reverse_into(x, b, 0) == (x % 2) * pow2(b1) + r0);
    } else {
        assert(acc * pow2(0) == acc);
    }
}

proof fn lemma_bit_reverse_injective(x: nat, y: nat, b: nat)
    requires
        x < pow2(b),
        y < pow2(b),
        bit_reverse(x, b) == bit_reverse(y, b),
    ensures
        x == y,
    decreases b,
{
    vstd::arithmetic::power2::lemma2_to64();
    if b > 0 {
        let b1 = (b - 1) as nat;
        vstd::arithmetic::power2::lemma_pow2_unfold(b);
        assert(bit_reverse(x, b) == reverse_into(x / 2, b1, 0 * 2 + x % 2));
        assert(bit_reverse(y, b) == reverse_into(y / 2, b1, 0 * 2 + y % 2));
        assert(0 * 2 + x % 2 == x % 2 && 0 * 2 + y % 2 == y % 2);
        lemma_reverse_into_shift(x / 2, b1, x % 2);
        lemma_reverse_into_shift(y / 2, b1, y % 2);
        lemma_bit_reverse_bound(x / 2, b1);
        lemma_bit_reverse_bound(y / 2, b1);
        let p = pow2(b1);
        let rx = bit_reverse(x / 2, b1);
        let ry = bit_reverse(y / 2, b1);
        assert(x % 2 == y % 2 && rx == ry) by (nonlinear_arith)
            requires
                (x % 2) * p + rx == (y % 2) * p + ry,
                rx < p,
                ry < p,
                x % 2 < 2,
                y % 2 < 2,
        ;
        lemma_bit_reverse_injective(x / 2, y / 2, b1);
    }
}

/// Every point of the evaluation domain is a 4096-th root of unity.
pub proof fn lemma_domain_values_are_roots(i: int)
    requires
        0 <= i < 4096,
    ensures
        fpow(domain_values()[i], 4096) == 1,
{
    let w = root_of_unity() as int;
    let q = modulus() as int;
    let e = bit_reverse(i as nat, 12);
    lemma_root_of_unity_order();
    vstd::arithmetic::power::lemma_pow_mod_noop(pow(w, e), 4096, q);
    vstd::arithmetic::power::lemma_pow_multiplies(w, e, 4096);
    vstd::arithmetic::power::lemma_pow_multiplies(w, 4096, e);
    assert(e * 4096 == 4096 * e) by (nonlinear_arith);
    vstd::arithmetic::power::lemma_pow_mod_noop(pow(w, 4096), e, q);
    vstd::arithmetic::power::lemma1_pow(e);
    vstd::arithmetic::div_mod::lemma_mod_bound(pow(w, e), q);
}

/// Reverses the low `bits` bits of `x`, shifting them in after `acc`.
pub open spec fn reverse_into(x: nat, bits: nat, acc: nat) -> nat
    decreases bits,
{
    if bits == 0 {
        acc
    } else {
        reverse_into(x / 2, (bits - 1) as nat, acc * 2 + x % 2)
    }
}

/// The bit-reversal of the low `bits` bits of `i`.
pub open spec fn bit_reverse(i: nat, bits: nat) -> nat {
    reverse_into(i, bits, 0)
}

proof fn lemma_reverse_into_bound(x: nat, bits: nat, acc: nat, m: nat)
    requires
        acc < pow2(m),
    ensures
        reverse_into(x, bits, acc) < pow2(m + bits),
    decreases bits,
{
    if bits > 0 {
        lemma_pow2_unfold(m + 1);
        lemma_reverse_into_bound(x / 2, (bits - 1) as nat, acc * 2 + x % 2, m + 1);
    }
}

/// The bit-reversal of an index stays below 2^bits.
pub proof fn lemma_bit_reverse_bound(i: nat, bits: nat)
    ensures
        bit_reverse(i, bits) < pow2(bits),
{
    vstd::arithmetic::power2::lemma2_to64();
    lemma_reverse_into_bound(i, bits, 0, 0);
}

/// Reverses the low `bits` bits of `i`.
pub fn reverse_bits(i: usize, bits: usize) -> (r: usize)
    requires
        pow2(bits as nat) <= usize::MAX + 1,
    ensures
        r as nat == bit_reverse(i as nat, bits as nat),
        r < pow2(bits as nat),
{
    let mut x = i;
    let mut acc: usize = 0;
    let mut k: usize = 0;
    proof {
        vstd::arithmetic::power2::lemma2_to64();
        lemma_bit_reverse_bound(i as nat, bits as nat);
    }
    while k < bits
        invariant
            k <= bits,
            pow2(bits as nat) <= usize::MAX + 1,
            acc < pow2(k as nat),
            reverse_into(x as nat, (bits - k) as nat, acc as nat) == bit_reverse(
                i as nat,
                bits as nat,
            ),
        decreases bits - k,
    {
        proof {
            lemma_pow2_unfold((k + 1) as nat);
            if k + 1 < bits {
                vstd::arithmetic::power2::lemma_pow2_strictly_increases((k + 1) as nat, bits as nat);
            }
        }
        acc = acc * 2 + x % 2;
        x = x / 2;
        k = k + 1;
    }
    acc
}

/// Reorders `v` so that position `i` holds the element at the bit-reversal of `i`.
pub fn bit_reversal_permutation<T: Copy>(v: &Vec<T>, bits: usize) -> (r: Vec<T>)
    requires
        v@.len() == pow2(bits as nat),
    ensures
        r@.len() == v@.len(),
        forall|i: int| 0 <= i < r@.len() ==> r@[i] == v@[bit_reverse(i as nat, bits as nat) as int],
{
    let mut r: Vec<T> = Vec::new();
    let mut i: usize = 0;
    while i < v.len()
        invariant
            v@.len() == pow2(bits as nat),
            i <= v@.len(),
            r@.len() == i,
            forall|k: int| 0 <= k < i ==> r@[k] == v@[bit_reverse(k as nat, bits as nat) as int],
        decreases v@.len() - i,
    {
        let j = reverse_bits(i, bits);
        r.push(v[j]);
        i = i + 1;
    }
    r
}

/// The powers ω^0, ω^1, ..., ω^(n-1) of `w`.
pub fn powers(w: &Fr, n: usize) -> (r: Vec<Fr>)
    requires
        w.wf(),
    ensures
        r@.len() == n,
        forall|k: int| 0 <= k < n ==> (#[trigger] r@[k]).wf() && r@[k].val() == fpow(w.val(), k as nat),
{
    let mut r: Vec<Fr> = Vec::new();
    if n == 0 {
        return r;
    }
    let mut cur = crate::field::fr_from_u64(1);
    proof {
        vstd::arithmetic::power::lemma_pow0(w.val() as int);
    }
    let mut i: usize = 0;
    while i < n
        invariant
            w.wf(),
            i <= n,
            r@.len() == i,
            cur.wf(),
            cur.val() == fpow(w.val(), i as nat),
            forall|k: int| 0 <= k < i ==> (#[trigger] r@[k]).wf() && r@[k].val() == fpow(w.val(), k as nat),
        decreases n - i,
    {
        r.push(cur);
        let next = fr_mul(&cur, w);
        proof {
            let a = w.val() as int;
            let p = pow(a, i as nat);
            assert(pow(a, (i + 1) as nat) == a * p) by {
                reveal(pow);
            }
            lemma_mul_mod_noop_left(p, a, modulus() as int);
            assert(p * a == a * p) by (nonlinear_arith);
        }
        cur = next;
        i = i + 1;
    }
    r
}

/// The evaluation domain: the powers of ω in bit-reversed order, so that position `i`
/// holds ω^br(i).
pub fn compute_roots_of_unity() -> (r: Vec<Fr>)
    ensures
        r@.len() == 4096,
        vals(r@) == domain_values(),
        forall|i: int|
            0 <= i < 4096 ==> (#[trigger] r@[i]).wf() && r@[i].val() == fpow(
                root_of_unity(),
                bit_reverse(i as nat, 12),
            ),
{
    let w = fr_from_raw(&SCALE2_ROOT_OF_UNITY[LOG2_FIELD_ELEMENTS_PER_BLOB]);
    let pw = powers(&w, NUM_FIELD_ELEMENTS_PER_BLOB);
    proof {
        vstd::arithmetic::power2::lemma2_to64();
    }
    let r = bit_reversal_permutation(&pw, LOG2_FIELD_ELEMENTS_PER_BLOB);
    assert forall|i: int| 0 <= i < 4096 implies (#[trigger] r@[i]).wf() && r@[i].val() == fpow(
        root_of_unity(),
        bit_reverse(i as nat, 12),
    ) by {
        lemma_bit_reverse_bound(i as nat, 12);
        assert(pw@[bit_reverse(i as nat, 12) as int].wf());
    }
    assert(vals(r@) =~= domain_values());
    r
}

} // verus!
