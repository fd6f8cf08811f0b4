use vstd::arithmetic::div_mod::{lemma_mod_add_multiples_vanish, lemma_mul_mod_noop_left, lemma_small_mod};
use vstd::arithmetic::power::pow;
use vstd::prelude::*;

use crate::domain::{domain_values, fpow, lemma_domain_values_distinct};
use crate::field::{fadd, finv, fmul, fr_add, fr_from_u64, fr_invert, fr_mul, fr_sub, fsub, modulus, Fr};

verus! {

/// The values of a sequence of field elements.
pub open spec fn vals(s: Seq<Fr>) -> Seq<nat> {
    s.map_values(|f: Fr| f.val())
}

/// The index of the first of the first `n` domain points whose value is `z`, or -1.
pub open spec fn first_index(d: Seq<nat>, z: nat, n: nat) -> int
    decreases n,
{
    if n == 0 {
        -1
    } else {
        let r = first_index(d, z, (n - 1) as nat);
        if r >= 0 {
            r
        } else if d[n - 1] == z {
            n - 1
        } else {
            -1
        }
    }
}

/// Σ_{i < n} p[i] · d[i] / (z − d[i]) in the scalar field.
pub open spec fn barycentric_sum(p: Seq<nat>, d: Seq<nat>, z: nat, n: nat) -> nat
    decreases n,
{
    if n == 0 {
        0
    } else {
        let i = n - 1;
        fadd(
            barycentric_sum(p, d, z, (n - 1) as nat),
            fmul(fmul(p[i], d[i]), finv(fsub(z, d[i]))),
        )
    }
}

/// The barycentric formula ((z^n − 1) / n) · Σ p[i] · d[i] / (z − d[i]), for n = |p|.
pub open spec fn barycentric(p: Seq<nat>, d: Seq<nat>, z: nat) -> nat {
    let n = p.len();
    fmul(fmul(fsub(fpow(z, n), 1), finv(n)), barycentric_sum(p, d, z, n))
}

/// The value at `z` of the polynomial whose values on the domain `d` are `p`:
/// the stored value where `z` is a domain point, the barycentric formula elsewhere.
pub open spec fn evaluate(p: Seq<nat>, d: Seq<nat>, z: nat) -> nat {
    let i = first_index(d, z, d.len());
    if i >= 0 {
        p[i]
    } else {
        barycentric(p, d, z)
    }
}

proof fn lemma_first_index(d: Seq<nat>, z: nat, n: nat)
    requires
        n <= d.len(),
    ensures
        first_index(d, z, n) >= 0 ==> first_index(d, z, n) < n && d[first_index(d, z, n)] == z,
        first_index(d, z, n) < 0 ==> first_index(d, z, n) == -1,
        forall|k: int|
            0 <= k < n && d[k] == z ==> 0 <= first_index(d, z, n) <= k,
    decreases n,
{
    if n > 0 {
        lemma_first_index(d, z, (n - 1) as nat);
    }
}

proof fn lemma_first_index_stable(d: Seq<nat>, z: nat, m: nat, n: nat)
    requires
        m <= n,
        first_index(d, z, m) >= 0,
    ensures
        first_index(d, z, n) == first_index(d, z, m),
    decreases n - m,
{
    if n > m {
        lemma_first_index_stable(d, z, m, (n - 1) as nat);
    }
}

/// Where the domain points are distinct and `z` is the `i`-th of them, the evaluation
/// is the `i`-th stored value: no division takes place.
pub proof fn lemma_evaluate_on_domain(p: Seq<nat>, d: Seq<nat>, z: nat, i: int)
    requires
        p.len() == d.len(),
        forall|a: int, b: int| 0 <= a < b < d.len() ==> d[a] != d[b],
        0 <= i < d.len(),
        d[i] == z,
    ensures
        evaluate(p, d, z) == p[i],
{
    lemma_first_index(d, z, d.len());
}

/// Evaluating at the `i`-th point of the evaluation domain gives the `i`-th stored value.
pub proof fn lemma_evaluate_at_domain_point(p: Seq<nat>, i: int)
    requires
        p.len() == 4096,
        0 <= i < 4096,
    ensures
        evaluate(p, domain_values(), domain_values()[i]) == p[i],
{
    let d = domain_values();
    assert forall|a: int, b: int| 0 <= a < b < d.len() implies d[a] != d[b] by {
        lemma_domain_values_distinct(a, b);
    }
    lemma_evaluate_on_domain(p, d, d[i], i);
}

proof fn lemma_fsub_nonzero(a: nat, b: nat)
    requires
        a < modulus(),
        b < modulus(),
        a != b,
    ensures
        fsub(a, b) != 0,
{
    let m = modulus() as int;
    let x = a - b;
    if x > 0 {
        lemma_small_mod(x as nat, m as nat);
    } else {
        lemma_mod_add_multiples_vanish(x, m);
        lemma_small_mod((x + m) as nat, m as nat);
    }
}

/// z^e in the scalar field.
pub fn fr_pow(z: &Fr, e: usize) -> (r: Fr)
    requires
        z.wf(),
    ensures
        r.wf(),
        r.val() == fpow(z.val(), e as nat),
{
    let mut cur = fr_from_u64(1);
    proof {
        vstd::arithmetic::power::lemma_pow0(z.val() as int);
    }
    let mut i: usize = 0;
    while i < e
        invariant
            z.wf(),
            i <= e,
            cur.wf(),
            cur.val() == fpow(z.val(), i as nat),
        decreases e - i,
    {
        let next = fr_mul(&cur, z);
        proof {
            let a = z.val() as int;
            let p = pow(a, i as nat);
            assert(pow(a, (i + 1) as nat) == a * p) by {
                reveal(pow);
            }
            lemma_mul_mod_noop_left(p, a, modulus() as int);
            assert(p * a == a * p) by (nonlinear_arith);
        }
        cur = next;
        i = i + 1;
    }
    cur
}

/// Evaluates at `z` the polynomial whose values on the domain `domain` are `poly`.
pub fn evaluate_polynomial_in_evaluation_form(poly: &Vec<Fr>, z: &Fr, domain: &Vec<Fr>) -> (r: Fr)
    requires
        poly@.len() == domain@.len(),
        0 < domain@.len() <= u64::MAX,
        z.wf(),
        forall|i: int| 0 <= i < poly@.len() ==> (#[trigger] poly@[i]).wf(),
        forall|i: int| 0 <= i < domain@.len() ==> (#[trigger] domain@[i]).wf(),
    ensures
        r.wf(),
        r.val() == evaluate(vals(poly@), vals(domain@), z.val()),
{
    let ghost pv = vals(poly@);
    let ghost dv = vals(domain@);
    let n = domain.len();
    let mut i: usize = 0;
    while i < n
        invariant
            n == domain@.len(),
            poly@.len() == n,
            pv == vals(poly@),
            dv == vals(domain@),
            forall|i: int| 0 <= i < n ==> (#[trigger] poly@[i]).wf(),
            i <= n,
            first_index(dv, z.val(), i as nat) == -1,
        decreases n - i,
    {
        if domain[i].equals(z) {
            proof {
                lemma_first_index_stable(dv, z.val(), (i + 1) as nat, n as nat);
            }
            return poly[i];
        }
        i = i + 1;
    }
    proof {
        lemma_first_index(dv, z.val(), n as nat);
        assert forall|i: int| 0 <= i < n implies #[trigger] dv[i] != z.val() by {
            assert(dv[i] == domain@[i].val());
        }
    }
    let mut acc = fr_from_u64(0);
    let mut k: usize = 0;
    while k < n
        invariant
            n == domain@.len(),
            poly@.len() == n,
            k <= n,
            z.wf(),
            pv == vals(poly@),
            dv == vals(domain@),
            forall|i: int| 0 <= i < n ==> (#[trigger] poly@[i]).wf(),
            forall|i: int| 0 <= i < n ==> (#[trigger] domain@[i]).wf(),
            forall|i: int| 0 <= i < n ==> #[trigger] dv[i] != z.val(),
            acc.wf(),
            acc.val() == barycentric_sum(pv, dv, z.val(), k as nat),
        decreases n - k,
    {
        let diff = fr_sub(z, &domain[k]);
        proof {
            assert(domain@[k as int].wf());
            assert(dv[k as int] == domain@[k as int].val());
            assert(pv[k as int] == poly@[k as int].val());
            lemma_fsub_nonzero(z.val(), domain@[k as int].val());
        }
        let inv = fr_invert(&diff);
        let num = fr_mul(&poly[k], &domain[k]);
        let term = fr_mul(&num, &inv);
        acc = fr_add(&acc, &term);
        k = k + 1;
    }
    let n_fr = fr_from_u64(n as u64);
    let zn = fr_pow(z, n);
    let one = fr_from_u64(1);
    let zn_minus_one = fr_sub(&zn, &one);
    proof {
        lemma_small_mod(n as nat, modulus());
    }
    let n_inv = fr_invert(&n_fr);
    let factor = fr_mul(&zn_minus_one, &n_inv);
    fr_mul(&factor, &acc)
}

} // verus!
