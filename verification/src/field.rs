//! Arithmetic in the scalar field of the proof system: the integers modulo
//! the prime `P`.  `P - 1` is a power of two, so the multiplicative group
//! contains a subgroup of size `2^k` for every `k` up to 8, which is what the
//! evaluation domains of the prover require.
use vstd::prelude::*;

verus! {

use vstd::arithmetic::div_mod::{
    lemma_add_mod_noop, lemma_mod_bound, lemma_mul_mod_noop_left, lemma_mul_mod_noop_right,
    lemma_small_mod,
};
use vstd::arithmetic::mul::lemma_mul_is_associative;
use vstd::assert_by_contradiction;

/// The field modulus: a prime whose multiplicative group has order 2^8.
pub const P: u64 = 257;

/// A value is a field element when it is a canonical residue modulo `P`.
pub open spec fn in_field(a: u64) -> bool {
    a < P
}

/// Every entry of the sequence is a canonical field element.
pub open spec fn all_in_field(s: Seq<u64>) -> bool {
    forall|i: int| 0 <= i < s.len() ==> in_field(#[trigger] s[i])
}

/// Field addition.
pub open spec fn fadd(a: u64, b: u64) -> u64 {
    (((a as int) + (b as int)) % (P as int)) as u64
}

/// Field multiplication.
pub open spec fn fmul(a: u64, b: u64) -> u64 {
    (((a as int) * (b as int)) % (P as int)) as u64
}

/// Field negation.
pub open spec fn fneg(a: u64) -> u64 {
    (((P as int) - ((a as int) % (P as int))) % (P as int)) as u64
}

/// Field subtraction.
pub open spec fn fsub(a: u64, b: u64) -> u64 {
    fadd(a, fneg(b))
}

/// Smallest `x >= lo` with `fmul(a, x) == 1`, or 0 when no such `x < P` exists.
pub open spec fn inv_search(a: u64, lo: u64) -> u64
    decreases P - lo when lo <= P
{
    if lo >= P {
        0
    } else if fmul(a, lo) == 1 {
        lo
    } else {
        inv_search(a, (lo + 1) as u64)
    }
}

/// The multiplicative inverse of `a`, with `finv(0) == 0`.
pub open spec fn finv(a: u64) -> u64 {
    inv_search(a, 1)
}

pub proof fn lemma_fadd_bound(a: u64, b: u64)
    ensures in_field(fadd(a, b)), in_field(fmul(a, b)), in_field(fneg(a)), in_field(fsub(a, b)),
{
    lemma_mod_bound((a as int) + (b as int), P as int);
    lemma_mod_bound((a as int) * (b as int), P as int);
    lemma_mod_bound((a as int) % (P as int), P as int);
    lemma_mod_bound((P as int) - ((a as int) % (P as int)), P as int);
}

/// `x % P` written as the witness of a concrete division.
pub proof fn lemma_mod_is(x: int, q: int, r: int)
    requires x == q * (P as int) + r, 0 <= r < P as int,
    ensures x % (P as int) == r,
{
    vstd::arithmetic::div_mod::lemma_fundamental_div_mod_converse(x, P as int, q, r);
}

/// A value below `2 P` reduces by at most one subtraction of `P`.
pub proof fn lemma_mod_once(x: int)
    requires 0 <= x < 2 * (P as int),
    ensures x % (P as int) == if x < P as int { x } else { x - P as int },
{
    if x < P as int {
        lemma_mod_is(x, 0, x);
    } else {
        lemma_mod_is(x, 1, x - P as int);
    }
}

/// Addition is associative modulo `P`.
pub proof fn lemma_fadd_assoc(a: u64, b: u64, c: u64)
    requires in_field(a), in_field(b), in_field(c),
    ensures fadd(fadd(a, b), c) == fadd(a, fadd(b, c)),
{
    lemma_mod_once((a as int) + (b as int));
    lemma_mod_once((b as int) + (c as int));
    lemma_mod_once((fadd(a, b) as int) + (c as int));
    lemma_mod_once((a as int) + (fadd(b, c) as int));
}

/// Multiplication is commutative modulo `P`.
pub proof fn lemma_fmul_comm(a: u64, b: u64)
    ensures fmul(a, b) == fmul(b, a),
{
    vstd::arithmetic::mul::lemma_mul_is_commutative(a as int, b as int);
}

/// Multiplication is associative modulo `P`.
pub proof fn lemma_fmul_assoc(a: u64, b: u64, c: u64)
    ensures fmul(fmul(a, b), c) == fmul(a, fmul(b, c)),
{
    lemma_mul_mod_noop_left((a as int) * (b as int), c as int, P as int);
    lemma_mul_mod_noop_right(a as int, (b as int) * (c as int), P as int);
    lemma_mul_is_associative(a as int, b as int, c as int);
}

/// Multiplication distributes over addition modulo `P`.
pub proof fn lemma_fmul_distrib(a: u64, b: u64, c: u64)
    ensures fmul(a, fadd(b, c)) == fadd(fmul(a, b), fmul(a, c)),
{
    lemma_mul_mod_noop_right(a as int, (b as int) + (c as int), P as int);
    lemma_add_mod_noop((a as int) * (b as int), (a as int) * (c as int), P as int);
    assert((a as int) * ((b as int) + (c as int))
        == (a as int) * (b as int) + (a as int) * (c as int)) by (nonlinear_arith);
}

/// One is the multiplicative unit.
pub proof fn lemma_fmul_one(a: u64)
    requires in_field(a),
    ensures fmul(1, a) == a, fmul(a, 1) == a,
{
    lemma_small_mod(a as nat, P as nat);
}

/// Zero annihilates multiplication and is the additive unit.
pub proof fn lemma_fmul_zero(a: u64)
    requires in_field(a),
    ensures fmul(0, a) == 0, fmul(a, 0) == 0, fadd(a, 0) == a, fadd(0, a) == a,
{
    lemma_small_mod(a as nat, P as nat);
    lemma_small_mod(0nat, P as nat);
}

/// Subtracting `b` undoes adding `b`, and `fsub(a, b) == 0` exactly when `a == b`.
pub proof fn lemma_fsub_cancel(a: u64, b: u64)
    requires in_field(a), in_field(b),
    ensures
        fsub(fadd(a, b), b) == a,
        fadd(b, fsub(a, b)) == a,
        (fsub(a, b) == 0) <==> (a == b),
{
    lemma_small_mod(b as nat, P as nat);
    if b == 0 {
        lemma_mod_is(P as int, 1, 0);
    } else {
        lemma_mod_once((P as int) - (b as int));
    }
    lemma_mod_once((a as int) + (fneg(b) as int));
    lemma_mod_once((fadd(a, b) as int) + (fneg(b) as int));
    lemma_mod_once((b as int) + (fsub(a, b) as int));
    lemma_mod_once((a as int) + (b as int));
}

/// Negation produces the additive inverse, and negating zero gives zero.
pub proof fn lemma_fneg_add(a: u64)
    requires in_field(a),
    ensures fadd(a, fneg(a)) == 0, fneg(0) == 0, fsub(a, 0) == a,
{
    lemma_fsub_cancel(a, a);
    lemma_mod_is(P as int, 1, 0);
    lemma_small_mod(0nat, P as nat);
    lemma_small_mod(a as nat, P as nat);
}

/// Additive inverses are unique.
pub proof fn lemma_fneg_unique(m: u64, u: u64, v: u64)
    requires in_field(m), in_field(u), in_field(v), fadd(m, u) == 0, fadd(m, v) == 0,
    ensures u == v,
{
    lemma_fadd_assoc(u, m, v);
    lemma_fmul_zero(u);
    lemma_fmul_zero(v);
}

/// Multiplication carries negation through.
pub proof fn lemma_fmul_fneg(a: u64, b: u64)
    requires in_field(a), in_field(b),
    ensures fmul(a, fneg(b)) == fneg(fmul(a, b)),
{
    lemma_fadd_bound(a, b);
    lemma_fneg_add(b);
    lemma_fmul_distrib(a, b, fneg(b));
    lemma_fmul_zero(a);
    lemma_fneg_add(fmul(a, b));
    lemma_fneg_unique(fmul(a, b), fmul(a, fneg(b)), fneg(fmul(a, b)));
}

/// The four-term rearrangement of two sums.
pub proof fn lemma_fadd4(a: u64, b: u64, c: u64, d: u64)
    ensures fadd(fadd(a, b), fadd(c, d)) == fadd(fadd(a, c), fadd(b, d)),
{
    lemma_add_mod_noop((a as int) + (b as int), (c as int) + (d as int), P as int);
    lemma_add_mod_noop((a as int) + (c as int), (b as int) + (d as int), P as int);
}

/// The search result is always a canonical field element.
pub proof fn lemma_inv_search_bound(a: u64, lo: u64)
    requires lo <= P,
    ensures in_field(inv_search(a, lo)),
    decreases P - lo,
{
    if lo < P && fmul(a, lo) != 1 {
        lemma_inv_search_bound(a, (lo + 1) as u64);
    }
}

/// When the search returns nonzero it returns a genuine inverse.
pub proof fn lemma_inv_search_hit(a: u64, lo: u64)
    requires lo <= P,
    ensures inv_search(a, lo) != 0 ==> fmul(a, inv_search(a, lo)) == 1,
    decreases P - lo,
{
    if lo < P && fmul(a, lo) != 1 {
        lemma_inv_search_hit(a, (lo + 1) as u64);
    }
}

/// `d` divides `x` over the integers.
pub open spec fn divides(d: int, x: int) -> bool {
    exists|k: int| x == #[trigger] (d * k)
}

/// The greatest common divisor by Euclid's recurrence.
pub open spec fn gcd(a: nat, b: nat) -> nat
    decreases b,
{
    if b == 0 {
        a
    } else {
        gcd(b, a % b)
    }
}

proof fn lemma_gcd_pos(a: nat, b: nat)
    requires a > 0,
    ensures gcd(a, b) > 0,
    decreases b,
{
    if b > 0 {
        lemma_gcd_pos(b, a % b);
    }
}

proof fn lemma_gcd_divides(a: nat, b: nat)
    ensures divides(gcd(a, b) as int, a as int), divides(gcd(a, b) as int, b as int),
    decreases b,
{
    if b == 0 {
        assert(a as int == (a as int) * 1);
        assert(0int == (a as int) * 0);
    } else {
        lemma_gcd_divides(b, a % b);
        let g = gcd(b, a % b) as int;
        let k1 = choose|k: int| b as int == #[trigger] (g * k);
        let k2 = choose|k: int| (a % b) as int == #[trigger] (g * k);
        vstd::arithmetic::div_mod::lemma_fundamental_div_mod(a as int, b as int);
        let q = (a as int) / (b as int);
        assert(a as int == g * (k1 * q + k2)) by (nonlinear_arith)
            requires
                b as int == g * k1,
                (a % b) as int == g * k2,
                a as int == (b as int) * q + (a % b) as int,
        ;
    }
}

proof fn lemma_bezout(a: nat, b: nat)
    ensures exists|x: int, y: int| gcd(a, b) as int == #[trigger] ((a as int) * x) + #[trigger] ((b as int) * y),
    decreases b,
{
    if b == 0 {
        assert(gcd(a, b) as int == (a as int) * 1 + (b as int) * 0);
    } else {
        lemma_bezout(b, a % b);
        let g = gcd(b, a % b) as int;
        let (x1, y1) = choose|x: int, y: int| g == #[trigger] ((b as int) * x) + #[trigger] (((a % b) as int) * y);
        vstd::arithmetic::div_mod::lemma_fundamental_div_mod(a as int, b as int);
        let q = (a as int) / (b as int);
        assert(g == (a as int) * y1 + (b as int) * (x1 - q * y1)) by (nonlinear_arith)
            requires
                g == (b as int) * x1 + ((a % b) as int) * y1,
                a as int == (b as int) * q + (a % b) as int,
        ;
    }
}

proof fn lemma_divides_bound(d: int, x: int)
    requires d > 0, x > 0, divides(d, x),
    ensures d <= x,
{
    let k = choose|k: int| x == #[trigger] (d * k);
    assert(k >= 1 && d * k >= d) by (nonlinear_arith)
        requires d > 0, x > 0, x == d * k,
    ;
}

/// The modulus has no factor in `2 .. P`.
proof fn lemma_no_factor(d: int)
    requires 2 <= d < P as int,
    ensures !divides(d, P as int),
{
    assert_by_contradiction!(!divides(d, P as int), {
        let k = choose|k: int| P as int == #[trigger] (d * k);
        assert(2 <= k <= 128) by (nonlinear_arith)
            requires 2 <= d < 257, 257 == d * k,
        ;
        let small = if d <= 16 { d } else { k };
        assert(2 <= small <= 16 && 257 == small * (if d <= 16 { k } else { d }))
            by (nonlinear_arith)
            requires 2 <= d < 257, 2 <= k, 257 == d * k, small == if d <= 16 { d } else { k },
        ;
        let m = if d <= 16 { k } else { d };
        assert(P as int == m * small + 0) by (nonlinear_arith)
            requires 257 == small * m,
        ;
        vstd::arithmetic::div_mod::lemma_fundamental_div_mod_converse(P as int, small, m, 0);
        assert(257int % 2 == 1 && 257int % 3 == 2 && 257int % 4 == 1 && 257int % 5 == 2
            && 257int % 6 == 5 && 257int % 7 == 5 && 257int % 8 == 1 && 257int % 9 == 5
            && 257int % 10 == 7 && 257int % 11 == 4 && 257int % 12 == 5 && 257int % 13 == 10
            && 257int % 14 == 5 && 257int % 15 == 2 && 257int % 16 == 1);
    });
}

/// Any nonzero residue is coprime to the prime modulus.
proof fn lemma_coprime(a: u64)
    requires 1 <= a < P,
    ensures gcd(P as nat, a as nat) == 1,
{
    let g = gcd(P as nat, a as nat);
    lemma_gcd_pos(P as nat, a as nat);
    lemma_gcd_divides(P as nat, a as nat);
    lemma_divides_bound(g as int, a as int);
    if g >= 2 {
        lemma_no_factor(g as int);
    }
}

/// Every nonzero residue modulo the prime `P` has a multiplicative inverse,
/// and `finv` names it.
pub proof fn lemma_finv(a: u64)
    requires 1 <= a < P,
    ensures fmul(a, finv(a)) == 1, in_field(finv(a)), finv(a) != 0,
{
    lemma_coprime(a);
    lemma_bezout(P as nat, a as nat);
    let (x, y) = choose|x: int, y: int| 1int == #[trigger] ((P as int) * x) + #[trigger] ((a as int) * y);
    let yi = y % (P as int);
    lemma_mod_bound(y, P as int);
    lemma_mul_mod_noop_right(a as int, y, P as int);
    assert((a as int) * y == (-x) * (P as int) + 1) by (nonlinear_arith)
        requires 1int == (P as int) * x + (a as int) * y,
    ;
    lemma_mod_is((a as int) * y, -x, 1);
    assert(fmul(a, yi as u64) == 1);
    lemma_fmul_zero(a);
    assert(yi != 0);
    lemma_search_finds(a, 1, yi as u64);
    lemma_inv_search_hit(a, 1);
    lemma_inv_search_bound(a, 1);
}

proof fn lemma_search_finds(a: u64, lo: u64, w: u64)
    requires 1 <= lo, lo <= w < P, fmul(a, w) == 1,
    ensures inv_search(a, lo) != 0,
    decreases P - lo,
{
    if fmul(a, lo) != 1 {
        lemma_search_finds(a, (lo + 1) as u64, w);
    }
}

/// Inverses are unique: two inverses of the same element coincide.
pub proof fn lemma_inv_unique(a: u64, x: u64, y: u64)
    requires in_field(a), in_field(x), in_field(y), fmul(a, x) == 1, fmul(a, y) == 1,
    ensures x == y,
{
    lemma_fmul_assoc(x, a, y);
    lemma_fmul_one(x);
    lemma_fmul_one(y);
}

/// The field has no zero divisors.
pub proof fn lemma_no_zero_divisors(a: u64, b: u64)
    requires in_field(a), in_field(b), a != 0, b != 0,
    ensures fmul(a, b) != 0,
{
    if fmul(a, b) == 0 {
        lemma_finv(a);
        lemma_fmul_assoc(finv(a), a, b);
        lemma_fmul_one(b);
        lemma_fmul_zero(finv(a));
    }
}

/// Field addition on canonical residues.
pub fn add_f(a: u64, b: u64) -> (r: u64)
    requires in_field(a), in_field(b),
    ensures r == fadd(a, b), in_field(r),
{
    (a + b) % P
}

/// Field multiplication on canonical residues.
pub fn mul_f(a: u64, b: u64) -> (r: u64)
    requires in_field(a), in_field(b),
    ensures r == fmul(a, b), in_field(r),
{
    proof {
        assert((a as int) * (b as int) < 66049) by (nonlinear_arith)
            requires a < 257, b < 257,
        ;
    }
    (a * b) % P
}

/// Field negation on canonical residues.
pub fn neg_f(a: u64) -> (r: u64)
    requires in_field(a),
    ensures r == fneg(a), in_field(r),
{
    proof {
        lemma_small_mod(a as nat, P as nat);
        if a == 0 {
            lemma_mod_is(P as int, 1, 0);
        } else {
            lemma_mod_once((P as int) - (a as int));
        }
    }
    if a == 0 {
        0
    } else {
        P - a
    }
}

/// Field subtraction on canonical residues.
pub fn sub_f(a: u64, b: u64) -> (r: u64)
    requires in_field(a), in_field(b),
    ensures r == fsub(a, b), in_field(r),
{
    let nb = neg_f(b);
    add_f(a, nb)
}

/// Multiplicative inverse, with `inv_f(0) == 0`.
pub fn inv_f(a: u64) -> (r: u64)
    requires in_field(a),
    ensures r == finv(a), in_field(r),
{
    let mut x: u64 = 1;
    while x < P
        invariant
            1 <= x <= P,
            in_field(a),
            finv(a) == inv_search(a, x),
        decreases P - x,
    {
        if mul_f(a, x) == 1 {
            return x;
        }
        x = x + 1;
    }
    0
}

/// The inverse of zero is zero: the search never hits.
pub proof fn lemma_finv_zero_from(lo: u64)
    requires lo <= P,
    ensures inv_search(0, lo) == 0,
    decreases P - lo,
{
    if lo < P {
        assert(fmul(0, lo) == 0) by {
            lemma_mod_is(0, 0, 0);
        }
        lemma_finv_zero_from((lo + 1) as u64);
    }
}

/// The running product of the nonzero entries of a prefix of `v`.
pub open spec fn nzprod(v: Seq<u64>, j: int) -> u64
    decreases j,
{
    if j <= 0 {
        1
    } else if v[j - 1] == 0 {
        nzprod(v, j - 1)
    } else {
        fmul(nzprod(v, j - 1), v[j - 1])
    }
}

proof fn lemma_nzprod_nonzero(v: Seq<u64>, j: int)
    requires all_in_field(v), j <= v.len(),
    ensures nzprod(v, j) != 0, in_field(nzprod(v, j)),
    decreases j,
{
    if j > 0 {
        lemma_nzprod_nonzero(v, j - 1);
        if v[j - 1] != 0 {
            lemma_no_zero_divisors(nzprod(v, j - 1), v[j - 1]);
            lemma_fadd_bound(nzprod(v, j - 1), v[j - 1]);
        }
    }
}

/// Batched inversion: one pass building a running product, a single field
/// inversion, and an unwinding pass recovering each inverse.  The result is
/// identical to inverting each entry on its own; zero entries stay zero.
pub fn batch_invert(v: &Vec<u64>) -> (r: Vec<u64>)
    requires all_in_field(v@),
    ensures
        r@.len() == v@.len(),
        forall|j: int| 0 <= j < v@.len() ==> r@[j] == finv(v@[j]),
        all_in_field(r@),
{
    let n = v.len();
    let mut prefix: Vec<u64> = Vec::new();
    let mut acc: u64 = 1;
    let mut j: usize = 0;
    while j < n
        invariant
            j <= n, n == v@.len(), all_in_field(v@),
            in_field(acc), acc == nzprod(v@, j as int),
            prefix@.len() == j,
            forall|t: int| 0 <= t < j && v@[t] != 0
                ==> #[trigger] prefix@[t] == nzprod(v@, t),
            forall|t: int| 0 <= t < j ==> in_field(#[trigger] prefix@[t]),
        decreases n - j,
    {
        if v[j] != 0 {
            prefix.push(acc);
            acc = mul_f(acc, v[j]);
        } else {
            prefix.push(0);
        }
        j = j + 1;
    }
    proof {
        lemma_nzprod_nonzero(v@, n as int);
        lemma_finv(acc);
    }
    let mut acc_inv = inv_f(acc);
    let mut r: Vec<u64> = Vec::new();
    let mut t: usize = 0;
    while t < n
        invariant t <= n, r@.len() == t, forall|i: int| 0 <= i < t ==> r@[i] == 0,
        decreases n - t,
    {
        r.push(0);
        t = t + 1;
    }
    let mut k: usize = n;
    while k > 0
        invariant
            k <= n, n == v@.len(), all_in_field(v@),
            prefix@.len() == n,
            forall|i: int| 0 <= i < n && v@[i] != 0
                ==> #[trigger] prefix@[i] == nzprod(v@, i),
            forall|i: int| 0 <= i < n ==> in_field(#[trigger] prefix@[i]),
            in_field(acc_inv),
            fmul(acc_inv, nzprod(v@, k as int)) == 1,
            r@.len() == n,
            forall|i: int| 0 <= i < k ==> #[trigger] r@[i] == 0,
            forall|i: int| k <= i < n ==> #[trigger] r@[i] == finv(v@[i])
                && in_field(r@[i]),
        decreases k,
    {
        k = k - 1;
        if v[k] != 0 {
            let rk = mul_f(acc_inv, prefix[k]);
            proof {
                lemma_nzprod_nonzero(v@, k as int);
                lemma_fmul_assoc(acc_inv, nzprod(v@, k as int), v@[k as int]);
                assert(fmul(rk, v@[k as int]) == 1);
                lemma_finv(v@[k as int]);
                lemma_inv_unique(v@[k as int], rk, finv(v@[k as int]));
                lemma_inv_search_bound(v@[k as int], 1);
            }
            r.set(k, rk);
            let ghost old_ai = acc_inv;
            acc_inv = mul_f(acc_inv, v[k]);
            proof {
                assert(nzprod(v@, k as int + 1) == fmul(nzprod(v@, k as int), v@[k as int]));
                lemma_fmul_assoc(old_ai, v@[k as int], nzprod(v@, k as int));
                assert(fmul(acc_inv, nzprod(v@, k as int))
                    == fmul(old_ai, fmul(v@[k as int], nzprod(v@, k as int))));
                lemma_fmul_comm(v@[k as int], nzprod(v@, k as int));
            }
        } else {
            proof {
                lemma_finv_zero_from(1);
            }
        }
    }
    r
}

/// Exponentiation in the field.
pub open spec fn fpow(a: u64, k: nat) -> u64
    decreases k,
{
    if k == 0 {
        1
    } else {
        fmul(a, fpow(a, (k - 1) as nat))
    }
}

pub proof fn lemma_fpow_bound(a: u64, k: nat)
    ensures in_field(fpow(a, k)),
    decreases k,
{
    if k == 0 {
    } else {
        lemma_fpow_bound(a, (k - 1) as nat);
        lemma_fadd_bound(a, 0);
        lemma_mod_bound((a as int) * (fpow(a, (k - 1) as nat) as int), P as int);
    }
}

/// Exponentiation by a running product.
pub fn pow_f(a: u64, k: u64) -> (r: u64)
    requires in_field(a),
    ensures r == fpow(a, k as nat), in_field(r),
{
    let mut r: u64 = 1;
    let mut i: u64 = 0;
    while i < k
        invariant in_field(a), in_field(r), i <= k, r == fpow(a, i as nat),
        decreases k - i,
    {
        proof {
            lemma_fpow_mul(a, i as nat);
        }
        r = mul_f(a, r);
        i = i + 1;
    }
    r
}

proof fn lemma_fpow_mul(a: u64, k: nat)
    ensures fpow(a, k + 1) == fmul(a, fpow(a, k)),
{
}

} // verus!
