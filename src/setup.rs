use vstd::prelude::*;
use vstd::string::StringSliceAdditionalSpecFns;

use bls12_381::{G1Affine, G2Affine};

use crate::consts::{
    BYTES_PER_G1_POINT, BYTES_PER_G2_POINT, LOG2_FIELD_ELEMENTS_PER_BLOB, NUM_G1_POINTS,
    NUM_G2_POINTS,
};
use crate::domain::{bit_reversal_permutation, bit_reverse, compute_roots_of_unity, domain_values};
use crate::enums::KzgError;
use crate::eval::vals;
use crate::field::Fr;
use crate::points::{
    g1_affine_encoding, g1_from_compressed, g1_to_compressed, g1_valid, g2_affine_encoding,
    g2_from_compressed, g2_to_compressed, g2_valid,
};

verus! {

pub open spec fn is_space(c: u8) -> bool {
    c == 32 || c == 9 || c == 10 || c == 13
}

/// The first index from `i` on that does not hold whitespace.
pub open spec fn skip_space(s: Seq<u8>, i: nat) -> nat
    decreases s.len() - i,
{
    if i < s.len() && is_space(s[i as int]) {
        skip_space(s, i + 1)
    } else {
        i
    }
}

/// The first index from `i` on that holds whitespace or is the end.
pub open spec fn token_end(s: Seq<u8>, i: nat) -> nat
    decreases s.len() - i,
{
    if i < s.len() && !is_space(s[i as int]) {
        token_end(s, i + 1)
    } else {
        i
    }
}

pub open spec fn is_decimal(t: Seq<u8>) -> bool {
    t.len() > 0 && forall|k: int| 0 <= k < t.len() ==> 48 <= #[trigger] t[k] <= 57
}

/// The value of a string of decimal digits.
pub open spec fn decimal_value(t: Seq<u8>) -> nat
    decreases t.len(),
{
    if t.len() == 0 {
        0
    } else {
        decimal_value(t.drop_last()) * 10 + (t.last() - 48) as nat
    }
}

/// Where the `k`-th whitespace-separated token of `s` starts.
pub open spec fn token_start(s: Seq<u8>, k: nat) -> nat
    decreases k,
{
    if k == 0 {
        skip_space(s, 0)
    } else {
        skip_space(s, token_end(s, token_start(s, (k - 1) as nat)))
    }
}

/// The `k`-th whitespace-separated token of `s` (empty past the last one).
pub open spec fn token(s: Seq<u8>, k: nat) -> Seq<u8> {
    s.subrange(token_start(s, k) as int, token_end(s, token_start(s, k)) as int)
}

/// The value of a hexadecimal digit, either case.
pub open spec fn hex_value(c: u8) -> int {
    if 48 <= c <= 57 {
        c - 48
    } else if 97 <= c <= 102 {
        c - 87
    } else if 65 <= c <= 70 {
        c - 55
    } else {
        -1
    }
}

/// `t` is `2 * n` hexadecimal digits.
pub open spec fn is_hex_token(t: Seq<u8>, n: nat) -> bool {
    t.len() == 2 * n && forall|j: int| 0 <= j < t.len() ==> hex_value(#[trigger] t[j]) >= 0
}

/// The bytes that a string of hexadecimal digits encodes, two digits to a byte.
pub open spec fn hex_decode(t: Seq<u8>) -> Seq<u8> {
    Seq::new(t.len() / 2, |i: int| (hex_value(t[2 * i]) * 16 + hex_value(t[2 * i + 1])) as u8)
}

/// Token `k` of `s` encodes a valid G1 point.
pub open spec fn g1_token_ok(s: Seq<u8>, k: nat) -> bool {
    is_hex_token(token(s, k), 48) && g1_valid(hex_decode(token(s, k)))
}

/// Token `k` of `s` encodes a valid G2 point.
pub open spec fn g2_token_ok(s: Seq<u8>, k: nat) -> bool {
    is_hex_token(token(s, k), 96) && g2_valid(hex_decode(token(s, k)))
}

/// A well-formed trusted setup text: the counts 4096 and 65, then 4096 G1 points and
/// 65 G2 points, each hex-encoded and valid; what follows them is not read.
pub open spec fn setup_text_valid(s: Seq<u8>) -> bool {
    &&& is_decimal(token(s, 0)) && decimal_value(token(s, 0)) == 4096
    &&& is_decimal(token(s, 1)) && decimal_value(token(s, 1)) == 65
    &&& forall|k: nat| k < 4096 ==> #[trigger] g1_token_ok(s, 2 + k)
    &&& forall|k: nat| k < 65 ==> #[trigger] g2_token_ok(s, 4098 + k)
}

proof fn lemma_decimal_prefix(t: Seq<u8>, m: nat)
    requires
        m <= t.len(),
    ensures
        decimal_value(t.subrange(0, m as int)) <= decimal_value(t),
    decreases t.len(),
{
    if m < t.len() {
        lemma_decimal_prefix(t.drop_last(), m);
        assert(t.drop_last().subrange(0, m as int) =~= t.subrange(0, m as int));
    } else {
        assert(t.subrange(0, m as int) =~= t);
    }
}

fn skip_whitespace(s: &[u8], i: usize) -> (r: usize)
    requires
        i <= s@.len(),
    ensures
        r == skip_space(s@, i as nat),
        i <= r <= s@.len(),
{
    let mut j = i;
    while j < s.len() && (s[j] == 32 || s[j] == 9 || s[j] == 10 || s[j] == 13)
        invariant
            i <= j <= s@.len(),
            skip_space(s@, j as nat) == skip_space(s@, i as nat),
        decreases s@.len() - j,
    {
        j = j + 1;
    }
    j
}

fn find_token_end(s: &[u8], i: usize) -> (r: usize)
    requires
        i <= s@.len(),
    ensures
        r == token_end(s@, i as nat),
        i <= r <= s@.len(),
{
    let mut j = i;
    while j < s.len() && !(s[j] == 32 || s[j] == 9 || s[j] == 10 || s[j] == 13)
        invariant
            i <= j <= s@.len(),
            token_end(s@, j as nat) == token_end(s@, i as nat),
        decreases s@.len() - j,
    {
        j = j + 1;
    }
    j
}

/// Reads `s[start..end]` as a decimal number.
fn parse_decimal(s: &[u8], start: usize, end: usize) -> (r: Option<usize>)
    requires
        start <= end <= s@.len(),
    ensures
        r matches Some(v) ==> is_decimal(s@.subrange(start as int, end as int)) && v
            == decimal_value(s@.subrange(start as int, end as int)),
        r is None ==> !is_decimal(s@.subrange(start as int, end as int)) || decimal_value(
            s@.subrange(start as int, end as int),
        ) > usize::MAX,
{
    let ghost t = s@.subrange(start as int, end as int);
    if end == start {
        return None;
    }
    let mut v: usize = 0;
    let mut i = start;
    while i < end
        invariant
            start <= i <= end <= s@.len(),
            t == s@.subrange(start as int, end as int),
            forall|k: int| start <= k < i ==> 48 <= #[trigger] s@[k] <= 57,
            v == decimal_value(s@.subrange(start as int, i as int)),
        decreases end - i,
    {
        let c = s[i];
        if c < 48 || c > 57 {
            proof {
                assert(t[i - start] == c);
            }
            return None;
        }
        proof {
            assert(s@.subrange(start as int, i + 1).drop_last() =~= s@.subrange(start as int, i as int));
            assert(t.subrange(0, i + 1 - start) =~= s@.subrange(start as int, i + 1));
            lemma_decimal_prefix(t, (i + 1 - start) as nat);
        }
        match v.checked_mul(10) {
            Some(m) => match m.checked_add((c - 48) as usize) {
                Some(x) => {
                    v = x;
                },
                None => {
                    return None;
                },
            },
            None => {
                return None;
            },
        }
        i = i + 1;
    }
    proof {
        assert forall|k: int| 0 <= k < t.len() implies 48 <= #[trigger] t[k] <= 57 by {
            assert(t[k] == s@[start + k]);
        }
    }
    Some(v)
}

fn hex_digit(c: u8) -> (r: Option<u8>)
    ensures
        r matches Some(v) ==> v == hex_value(c),
        r is None <==> hex_value(c) < 0,
{
    if 48 <= c && c <= 57 {
        Some(c - 48)
    } else if 97 <= c && c <= 102 {
        Some(c - 87)
    } else if 65 <= c && c <= 70 {
        Some(c - 55)
    } else {
        None
    }
}

/// Decodes the `2 * out.len()` hexadecimal digits at `s[start..]` into `out`.
fn decode_hex(s: &[u8], start: usize, out: &mut [u8]) -> (ok: bool)
    requires
        start + 2 * old(out)@.len() <= s@.len(),
    ensures
        final(out)@.len() == old(out)@.len(),
        ok <==> forall|j: int| 0 <= j < 2 * old(out)@.len() ==> hex_value(#[trigger] s@[start + j]) >= 0,
        ok ==> forall|k: int|
            0 <= k < final(out)@.len() ==> #[trigger] final(out)@[k] == hex_value(s@[start + 2 * k])
                * 16 + hex_value(s@[start + 2 * k + 1]),
{
    let n = out.len();
    let len = s.len();
    let mut k: usize = 0;
    while k < n
        invariant
            n == out@.len(),
            n == old(out)@.len(),
            len == s@.len(),
            start + 2 * n <= len,
            k <= n,
            forall|j: int| 0 <= j < 2 * k ==> hex_value(#[trigger] s@[start + j]) >= 0,
            forall|j: int|
                0 <= j < k ==> #[trigger] out@[j] == hex_value(s@[start + 2 * j]) * 16 + hex_value(
                    s@[start + 2 * j + 1],
                ),
        decreases n - k,
    {
        let hi = hex_digit(s[start + 2 * k]);
        let lo = hex_digit(s[start + 2 * k + 1]);
        match (hi, lo) {
            (Some(h), Some(l)) => {
                out[k] = h * 16 + l;
                proof {
                    assert forall|j: int| 0 <= j < 2 * (k + 1) implies hex_value(
                        #[trigger] s@[start + j],
                    ) >= 0 by {
                        if j == 2 * k {
                        } else if j == 2 * k + 1 {
                        } else {
                        }
                    }
                }
            },
            _ => {
                proof {
                    if hi is None {
                        assert(hex_value(s@[start + 2 * k]) < 0);
                    } else {
                        assert(hex_value(s@[start + (2 * k + 1)]) < 0);
                    }
                }
                return false;
            },
        }
        k = k + 1;
    }
    true
}

/// The trusted setup: the evaluation domain, the G1 Lagrange basis aligned with it, and
/// the G2 powers of τ, the points held as their compressed encodings.
pub struct KzgSettings {
    pub roots_of_unity: Vec<Fr>,
    pub g1_points: Vec<[u8; 48]>,
    pub g2_points: Vec<[u8; 96]>,
}

impl KzgSettings {
    pub open spec fn wf(&self) -> bool {
        &&& self.roots_of_unity@.len() == 4096
        &&& vals(self.roots_of_unity@) == domain_values()
        &&& forall|i: int| 0 <= i < 4096 ==> (#[trigger] self.roots_of_unity@[i]).wf()
        &&& self.g1_points@.len() == 4096
        &&& self.g2_points@.len() == 65
        &&& forall|i: int| 0 <= i < 65 ==> g2_valid((#[trigger] self.g2_points@[i])@)
    }

    /// Builds the settings from encodings: the G1 points in Lagrange form, put in
    /// bit-reversed order here, and the G2 points, kept as given.
    fn from_encodings(g1_points: Vec<[u8; 48]>, g2_points: Vec<[u8; 96]>) -> (s: KzgSettings)
        requires
            g1_points@.len() == 4096,
            g2_points@.len() == 65,
            forall|i: int| 0 <= i < 65 ==> g2_valid((#[trigger] g2_points@[i])@),
        ensures
            s.wf(),
            s.g2_points@ == g2_points@,
            forall|i: int|
                0 <= i < 4096 ==> #[trigger] s.g1_points@[i] == g1_points@[bit_reverse(
                    i as nat,
                    12,
                ) as int],
    {
        proof {
            vstd::arithmetic::power2::lemma2_to64();
        }
        let g1 = bit_reversal_permutation(&g1_points, LOG2_FIELD_ELEMENTS_PER_BLOB);
        let roots = compute_roots_of_unity();
        KzgSettings { roots_of_unity: roots, g1_points: g1, g2_points }
    }

    /// Builds the settings from decoded points. It fails where the counts are not 4096 and
    /// 65, or where a G2 point does not encode a point of the prime-order subgroup.
    pub fn load_trusted_setup_from_points(
        g1_points: Vec<G1Affine>,
        g2_points: Vec<G2Affine>,
    ) -> (r: Result<KzgSettings, KzgError>)
        ensures
            r is Ok <==> g1_points@.len() == 4096 && g2_points@.len() == 65 && forall|j: int|
                0 <= j < 65 ==> g2_valid(g2_affine_encoding(#[trigger] g2_points@[j])),
            r matches Ok(s) ==> s.wf() && (forall|i: int|
                0 <= i < 4096 ==> (#[trigger] s.g1_points@[i])@ == g1_affine_encoding(
                    g1_points@[bit_reverse(i as nat, 12) as int],
                )) && (forall|j: int|
                0 <= j < 65 ==> (#[trigger] s.g2_points@[j])@ == g2_affine_encoding(
                    g2_points@[j],
                )),
            r matches Err(e) ==> e is InvalidTrustedSetup,
    {
        if g1_points.len() != NUM_G1_POINTS {
            return Err(KzgError::InvalidTrustedSetup("wrong number of G1 points".to_string()));
        }
        if g2_points.len() != NUM_G2_POINTS {
            return Err(KzgError::InvalidTrustedSetup("wrong number of G2 points".to_string()));
        }
        let mut g1: Vec<[u8; 48]> = Vec::new();
        let mut i: usize = 0;
        while i < NUM_G1_POINTS
            invariant
                g1_points@.len() == 4096,
                i <= 4096,
                g1@.len() == i,
                forall|k: int| 0 <= k < i ==> (#[trigger] g1@[k])@ == g1_affine_encoding(g1_points@[k]),
            decreases NUM_G1_POINTS - i,
        {
            g1.push(g1_to_compressed(&g1_points[i]));
            i = i + 1;
        }
        let mut g2: Vec<[u8; 96]> = Vec::new();
        let mut j: usize = 0;
        while j < NUM_G2_POINTS
            invariant
                g2_points@.len() == 65,
                j <= 65,
                g2@.len() == j,
                forall|k: int| 0 <= k < j ==> g2_valid((#[trigger] g2@[k])@),
                forall|k: int| 0 <= k < j ==> (#[trigger] g2@[k])@ == g2_affine_encoding(g2_points@[k]),
            decreases NUM_G2_POINTS - j,
        {
            let b = g2_to_compressed(&g2_points[j]);
            if g2_from_compressed(&b).is_none() {
                assert(!g2_valid(g2_affine_encoding(g2_points@[j as int])));
                return Err(KzgError::InvalidTrustedSetup("invalid G2 point".to_string()));
            }
            g2.push(b);
            j = j + 1;
        }
        let s = Self::from_encodings(g1, g2);
        proof {
            assert forall|i: int| 0 <= i < 4096 implies (#[trigger] s.g1_points@[i])@
                == g1_affine_encoding(g1_points@[bit_reverse(i as nat, 12) as int]) by {
                crate::domain::lemma_bit_reverse_bound(i as nat, 12);
                vstd::arithmetic::power2::lemma2_to64();
            }
            assert forall|j: int| 0 <= j < 65 implies (#[trigger] s.g2_points@[j])@
                == g2_affine_encoding(g2_points@[j]) by {
                assert(g2@[j]@ == g2_affine_encoding(g2_points@[j]));
            }
            assert forall|j: int| 0 <= j < 65 implies g2_valid(
                g2_affine_encoding(#[trigger] g2_points@[j]),
            ) by {
                assert(g2@[j]@ == g2_affine_encoding(g2_points@[j]));
                assert(g2_valid(g2@[j]@));
            }
        }
        Ok(s)
    }
}

/// Reads the token of `text` that starts at the first non-space from `pos` as
/// `out.len()` hex-encoded bytes, returning the position after it.
fn next_hex_token(text: &[u8], pos: usize, out: &mut [u8]) -> (r: Option<usize>)
    requires
        pos <= text@.len(),
        old(out)@.len() <= 96,
    ensures
        final(out)@.len() == old(out)@.len(),
        ({
            let a = skip_space(text@, pos as nat);
            let t = text@.subrange(a as int, token_end(text@, a) as int);
            &&& r is Some <==> is_hex_token(t, old(out)@.len() as nat)
            &&& r matches Some(p) ==> p == token_end(text@, a) && final(out)@ == hex_decode(t)
        }),
        r matches Some(p) ==> p <= text@.len(),
{
    let a = skip_whitespace(text, pos);
    let e = find_token_end(text, a);
    let ghost t = text@.subrange(a as int, e as int);
    if e - a != 2 * out.len() {
        return None;
    }
    let ok = decode_hex(text, a, out);
    proof {
        assert forall|j: int| 0 <= j < t.len() implies (hex_value(#[trigger] t[j]) >= 0) == (
        hex_value(text@[a + j]) >= 0) by {}
        if ok {
            assert(final(out)@ =~= hex_decode(t)) by {
                assert forall|k: int| 0 <= k < final(out)@.len() implies #[trigger] final(out)@[k]
                    == hex_decode(t)[k] by {
                    assert(t[2 * k] == text@[a + 2 * k]);
                    assert(t[2 * k + 1] == text@[a + 2 * k + 1]);
                }
            }
        } else {
            let j = choose|j: int| 0 <= j < t.len() && hex_value(#[trigger] text@[a + j]) < 0;
            assert(t[j] == text@[a + j]);
        }
    }
    if ok {
        Some(e)
    } else {
        None
    }
}

impl KzgSettings {
    /// Loads the trusted setup from its text form: the number of G1 points, the number of
    /// G2 points, then the points themselves as hex-encoded compressed encodings, all
    /// separated by whitespace.
    pub fn load_trusted_setup(text: &str) -> (r: Result<KzgSettings, KzgError>)
        ensures
            r is Ok <==> setup_text_valid(text.spec_bytes()),
            r matches Ok(s) ==> s.wf() && (forall|i: int|
                0 <= i < 4096 ==> (#[trigger] s.g1_points@[i])@ == hex_decode(
                    token(text.spec_bytes(), 2 + bit_reverse(i as nat, 12)),
                )) && (forall|j: int|
                0 <= j < 65 ==> (#[trigger] s.g2_points@[j])@ == hex_decode(
                    token(text.spec_bytes(), (4098 + j) as nat),
                )),
            r matches Err(e) ==> e is InvalidTrustedSetup,
    {
        let bytes = text.as_bytes();
        let ghost sb = bytes@;
        let a1 = skip_whitespace(bytes, 0);
        let e1 = find_token_end(bytes, a1);
        let a2 = skip_whitespace(bytes, e1);
        let e2 = find_token_end(bytes, a2);
        proof {
            assert(token(sb, 0) == sb.subrange(a1 as int, e1 as int));
            assert(token_start(sb, 1) == a2);
            assert(token(sb, 1) == sb.subrange(a2 as int, e2 as int));
        }
        let n1 = parse_decimal(bytes, a1, e1);
        let n2 = parse_decimal(bytes, a2, e2);
        let ok1 = match n1 {
            Some(v) => v == NUM_G1_POINTS,
            None => false,
        };
        let ok2 = match n2 {
            Some(v) => v == NUM_G2_POINTS,
            None => false,
        };
        if !ok1 || !ok2 {
            return Err(
                KzgError::InvalidTrustedSetup("wrong number of points in the setup".to_string()),
            );
        }
        let mut pos = e2;
        let mut g1: Vec<[u8; 48]> = Vec::new();
        let mut i: usize = 0;
        while i < NUM_G1_POINTS
            invariant
                sb == bytes@,
                sb == text.spec_bytes(),
                i <= 4096,
                g1@.len() == i,
                pos <= sb.len(),
                pos == token_end(sb, token_start(sb, (1 + i) as nat)),
                forall|k: nat| k < i ==> #[trigger] g1_token_ok(sb, 2 + k),
                forall|k: int| 0 <= k < i ==> (#[trigger] g1@[k])@ == hex_decode(token(sb, (2 + k) as nat)),
            decreases NUM_G1_POINTS - i,
        {
            let mut buf = [0u8; BYTES_PER_G1_POINT];
            let next = next_hex_token(bytes, pos, &mut buf);
            proof {
                assert(token_start(sb, (2 + i) as nat) == skip_space(sb, pos as nat));
            }
            match next {
                Some(p) => {
                    pos = p;
                },
                None => {
                    proof {
                        assert(!g1_token_ok(sb, (2 + i) as nat));
                    }
                    return Err(KzgError::InvalidTrustedSetup("malformed G1 point".to_string()));
                },
            }
            if g1_from_compressed(&buf).is_none() {
                proof {
                    assert(!g1_token_ok(sb, (2 + i) as nat));
                }
                return Err(KzgError::InvalidTrustedSetup("invalid G1 point".to_string()));
            }
            g1.push(buf);
            proof {
                assert(g1_token_ok(sb, (2 + i) as nat));
            }
            i = i + 1;
        }
        let mut g2: Vec<[u8; 96]> = Vec::new();
        let mut j: usize = 0;
        while j < NUM_G2_POINTS
            invariant
                sb == bytes@,
                sb == text.spec_bytes(),
                j <= 65,
                g2@.len() == j,
                pos <= sb.len(),
                pos == token_end(sb, token_start(sb, (4097 + j) as nat)),
                forall|k: nat| k < 4096 ==> #[trigger] g1_token_ok(sb, 2 + k),
                forall|k: nat| k < j ==> #[trigger] g2_token_ok(sb, 4098 + k),
                forall|k: int| 0 <= k < j ==> (#[trigger] g2@[k])@ == hex_decode(token(sb, (4098 + k) as nat)),
                forall|k: int| 0 <= k < j ==> g2_valid((#[trigger] g2@[k])@),
            decreases NUM_G2_POINTS - j,
        {
            let mut buf = [0u8; BYTES_PER_G2_POINT];
            let next = next_hex_token(bytes, pos, &mut buf);
            proof {
                assert(token_start(sb, (4098 + j) as nat) == skip_space(sb, pos as nat));
            }
            match next {
                Some(p) => {
                    pos = p;
                },
                None => {
                    proof {
                        assert(!g2_token_ok(sb, (4098 + j) as nat));
                    }
                    return Err(KzgError::InvalidTrustedSetup("malformed G2 point".to_string()));
                },
            }
            if g2_from_compressed(&buf).is_none() {
                proof {
                    assert(!g2_token_ok(sb, (4098 + j) as nat));
                }
                return Err(KzgError::InvalidTrustedSetup("invalid G2 point".to_string()));
            }
            g2.push(buf);
            proof {
                assert(g2_token_ok(sb, (4098 + j) as nat));
            }
            j = j + 1;
        }
        let s = Self::from_encodings(g1, g2);
        proof {
            assert forall|i: int| 0 <= i < 4096 implies (#[trigger] s.g1_points@[i])@ == hex_decode(
                token(sb, 2 + bit_reverse(i as nat, 12)),
            ) by {
                crate::domain::lemma_bit_reverse_bound(i as nat, 12);
                vstd::arithmetic::power2::lemma2_to64();
            }
        }
        Ok(s)
    }
}

} // verus!
