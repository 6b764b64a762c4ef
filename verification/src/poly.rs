//! Dense univariate polynomials over the proof field, as vectors of
//! coefficients in ascending degree order.  Products are computed directly on
//! coefficients, so no extended evaluation domain is needed for degree
//! headroom; exact division by the vanishing polynomial and by linear factors
//! is stated as a coefficient identity and checked for a zero remainder by
//! the callers that require exactness.
use vstd::prelude::*;

verus! {

use crate::field::{
    all_in_field, fadd, finv, fmul, fneg, fsub, in_field, lemma_fadd_bound,
    lemma_finv, lemma_fmul_assoc, lemma_fmul_distrib, lemma_fmul_zero,
    lemma_fsub_cancel, lemma_no_zero_divisors, add_f, inv_f, mul_f, sub_f,
};

/// Coefficient `k` of a polynomial, with zero beyond the stored length.
pub open spec fn gi(s: Seq<u64>, k: int) -> u64 {
    if 0 <= k < s.len() {
        s[k]
    } else {
        0
    }
}

/// Coefficients of the sum of two polynomials.
pub open spec fn padd_s(a: Seq<u64>, b: Seq<u64>) -> Seq<u64> {
    Seq::new(if a.len() >= b.len() { a.len() } else { b.len() }, |k: int| fadd(gi(a, k), gi(b, k)))
}

/// Coefficients of the difference of two polynomials.
pub open spec fn psub_s(a: Seq<u64>, b: Seq<u64>) -> Seq<u64> {
    Seq::new(if a.len() >= b.len() { a.len() } else { b.len() }, |k: int| fsub(gi(a, k), gi(b, k)))
}

/// Coefficients of a polynomial scaled by the constant `c`.
pub open spec fn pscale_s(c: u64, a: Seq<u64>) -> Seq<u64> {
    Seq::new(a.len(), |k: int| fmul(c, a[k]))
}

/// Coefficients of `q(X) * (X - c)`.
pub open spec fn pmul_lin_s(q: Seq<u64>, c: u64) -> Seq<u64> {
    Seq::new(if q.len() == 0 { 0 } else { q.len() + 1 }, |k: int| fsub(gi(q, k - 1), fmul(c, gi(q, k))))
}

/// The polynomial evaluated at `x`, by the Horner recurrence.
pub open spec fn peval(s: Seq<u64>, x: u64) -> u64
    decreases s.len(),
{
    if s.len() == 0 {
        0
    } else {
        fadd(s[0], fmul(x, peval(s.drop_first(), x)))
    }
}

/// Partial convolution: the first `t` terms of coefficient `k` of a product.
pub open spec fn convp(a: Seq<u64>, b: Seq<u64>, k: int, t: int) -> u64
    decreases t,
{
    if t <= 0 {
        0
    } else {
        fadd(convp(a, b, k, t - 1), fmul(gi(a, t - 1), gi(b, k - (t - 1))))
    }
}

/// Coefficient `k` of the product of two polynomials.
pub open spec fn pmul_coef(a: Seq<u64>, b: Seq<u64>, k: int) -> u64 {
    convp(a, b, k, k + 1)
}

/// Coefficients of the product of two polynomials.
pub open spec fn pmul_s(a: Seq<u64>, b: Seq<u64>) -> Seq<u64> {
    Seq::new(
        if a.len() == 0 || b.len() == 0 { 0 } else { (a.len() + b.len() - 1) as nat },
        |k: int| pmul_coef(a, b, k),
    )
}

/// Coefficients of `q(w X)`: coefficient `k` is scaled by `w^k`.
pub open spec fn pshift_arg_s(q: Seq<u64>, w: u64) -> Seq<u64> {
    Seq::new(q.len(), |k: int| fmul(q[k], crate::field::fpow(w, k as nat)))
}

/// The evaluation of any polynomial is a canonical field element.
pub proof fn lemma_peval_bound(s: Seq<u64>, x: u64)
    ensures in_field(peval(s, x)),
    decreases s.len(),
{
    if s.len() != 0 {
        lemma_peval_bound(s.drop_first(), x);
        lemma_fadd_bound(x, peval(s.drop_first(), x));
        lemma_fadd_bound(s[0], fmul(x, peval(s.drop_first(), x)));
    }
}

/// Sum of two polynomials.
pub fn padd(a: &Vec<u64>, b: &Vec<u64>) -> (r: Vec<u64>)
    requires all_in_field(a@), all_in_field(b@),
    ensures r@ == padd_s(a@, b@), all_in_field(r@),
{
    let len = if a.len() >= b.len() { a.len() } else { b.len() };
    let mut r: Vec<u64> = Vec::new();
    let mut k: usize = 0;
    while k < len
        invariant
            k <= len,
            len == if a@.len() >= b@.len() { a@.len() } else { b@.len() },
            all_in_field(a@), all_in_field(b@),
            r@.len() == k,
            forall|i: int| 0 <= i < k ==> r@[i] == fadd(gi(a@, i), gi(b@, i)) && in_field(#[trigger] r@[i]),
        decreases len - k,
    {
        let av = if k < a.len() { a[k] } else { 0 };
        let bv = if k < b.len() { b[k] } else { 0 };
        r.push(add_f(av, bv));
        k = k + 1;
    }
    proof {
        assert(r@ =~= padd_s(a@, b@));
    }
    r
}

/// Difference of two polynomials.
pub fn psub(a: &Vec<u64>, b: &Vec<u64>) -> (r: Vec<u64>)
    requires all_in_field(a@), all_in_field(b@),
    ensures r@ == psub_s(a@, b@), all_in_field(r@),
{
    let len = if a.len() >= b.len() { a.len() } else { b.len() };
    let mut r: Vec<u64> = Vec::new();
    let mut k: usize = 0;
    while k < len
        invariant
            k <= len,
            len == if a@.len() >= b@.len() { a@.len() } else { b@.len() },
            all_in_field(a@), all_in_field(b@),
            r@.len() == k,
            forall|i: int| 0 <= i < k ==> r@[i] == fsub(gi(a@, i), gi(b@, i)) && in_field(#[trigger] r@[i]),
        decreases len - k,
    {
        let av = if k < a.len() { a[k] } else { 0 };
        let bv = if k < b.len() { b[k] } else { 0 };
        r.push(sub_f(av, bv));
        k = k + 1;
    }
    proof {
        assert(r@ =~= psub_s(a@, b@));
    }
    r
}

/// A polynomial scaled by a constant.
pub fn pscale(c: u64, a: &Vec<u64>) -> (r: Vec<u64>)
    requires in_field(c), all_in_field(a@),
    ensures r@ == pscale_s(c, a@), all_in_field(r@),
{
    let mut r: Vec<u64> = Vec::new();
    let mut k: usize = 0;
    while k < a.len()
        invariant
            k <= a@.len(),
            in_field(c), all_in_field(a@),
            r@.len() == k,
            forall|i: int| 0 <= i < k ==> r@[i] == fmul(c, a@[i]) && in_field(#[trigger] r@[i]),
        decreases a@.len() - k,
    {
        r.push(mul_f(c, a[k]));
        k = k + 1;
    }
    proof {
        assert(r@ =~= pscale_s(c, a@));
    }
    r
}

/// `q(X) * (X - c)`.
pub fn pmul_lin(q: &Vec<u64>, c: u64) -> (r: Vec<u64>)
    requires in_field(c), all_in_field(q@), q@.len() < usize::MAX,
    ensures r@ == pmul_lin_s(q@, c), all_in_field(r@),
{
    let mut r: Vec<u64> = Vec::new();
    if q.len() == 0 {
        proof {
            assert(r@ =~= pmul_lin_s(q@, c));
        }
        return r;
    }
    let len = q.len() + 1;
    let mut k: usize = 0;
    while k < len
        invariant
            k <= len,
            len == q@.len() + 1,
            in_field(c), all_in_field(q@),
            r@.len() == k,
            forall|i: int| 0 <= i < k
                ==> r@[i] == fsub(gi(q@, i - 1), fmul(c, gi(q@, i))) && in_field(#[trigger] r@[i]),
        decreases len - k,
    {
        let lo = if k >= 1 && k - 1 < q.len() { q[k - 1] } else { 0 };
        let hi = if k < q.len() { q[k] } else { 0 };
        let m = mul_f(c, hi);
        r.push(sub_f(lo, m));
        k = k + 1;
    }
    proof {
        assert(r@ =~= pmul_lin_s(q@, c));
    }
    r
}

/// Evaluation at a point, by Horner's rule.
pub fn eval_poly(s: &Vec<u64>, x: u64) -> (r: u64)
    requires all_in_field(s@), in_field(x),
    ensures r == peval(s@, x), in_field(r),
{
    let mut acc: u64 = 0;
    let mut i: usize = s.len();
    while i > 0
        invariant
            i <= s@.len(),
            all_in_field(s@), in_field(x), in_field(acc),
            acc == peval(s@.subrange(i as int, s@.len() as int), x),
        decreases i,
    {
        i = i - 1;
        let m = mul_f(x, acc);
        proof {
            let tail = s@.subrange(i as int, s@.len() as int);
            assert(tail.drop_first() =~= s@.subrange(i + 1, s@.len() as int));
        }
        acc = add_f(s[i], m);
    }
    proof {
        assert(s@.subrange(0, s@.len() as int) =~= s@);
    }
    acc
}

/// Product of two polynomials, by direct convolution.
pub fn pmul(a: &Vec<u64>, b: &Vec<u64>) -> (r: Vec<u64>)
    requires all_in_field(a@), all_in_field(b@), a@.len() + b@.len() < usize::MAX,
    ensures r@ == pmul_s(a@, b@), all_in_field(r@),
{
    let mut r: Vec<u64> = Vec::new();
    if a.len() == 0 || b.len() == 0 {
        proof {
            assert(r@ =~= pmul_s(a@, b@));
        }
        return r;
    }
    let len = a.len() + b.len() - 1;
    let mut k: usize = 0;
    while k < len
        invariant
            k <= len,
            len == a@.len() + b@.len() - 1,
            a@.len() >= 1, b@.len() >= 1,
            all_in_field(a@), all_in_field(b@),
            r@.len() == k,
            forall|i: int| 0 <= i < k ==> r@[i] == pmul_coef(a@, b@, i) && in_field(#[trigger] r@[i]),
        decreases len - k,
    {
        let mut acc: u64 = 0;
        let mut t: usize = 0;
        while t <= k
            invariant
                t <= k + 1,
                k < len, len == a@.len() + b@.len() - 1,
                all_in_field(a@), all_in_field(b@),
                in_field(acc),
                acc == convp(a@, b@, k as int, t as int),
            decreases k + 1 - t,
        {
            let av = if t < a.len() { a[t] } else { 0 };
            let bi = k - t;
            let bv = if bi < b.len() { b[bi] } else { 0 };
            let m = mul_f(av, bv);
            acc = add_f(acc, m);
            t = t + 1;
        }
        r.push(acc);
        k = k + 1;
    }
    proof {
        assert(r@ =~= pmul_s(a@, b@));
    }
    r
}

/// `q(w X)`: each coefficient scaled by the matching power of `w`.
pub fn pshift_arg(q: &Vec<u64>, w: u64) -> (r: Vec<u64>)
    requires in_field(w), all_in_field(q@),
    ensures r@ == pshift_arg_s(q@, w), all_in_field(r@),
{
    let mut r: Vec<u64> = Vec::new();
    let mut wp: u64 = 1;
    let mut k: usize = 0;
    while k < q.len()
        invariant
            k <= q@.len(),
            in_field(w), all_in_field(q@), in_field(wp),
            wp == crate::field::fpow(w, k as nat),
            r@.len() == k,
            forall|i: int| 0 <= i < k
                ==> r@[i] == fmul(q@[i], crate::field::fpow(w, i as nat))
                    && in_field(#[trigger] r@[i]),
        decreases q@.len() - k,
    {
        r.push(mul_f(q[k], wp));
        proof {
            crate::field::lemma_fpow_bound(w, k as nat);
        }
        wp = mul_f(w, wp);
        k = k + 1;
    }
    proof {
        assert(r@ =~= pshift_arg_s(q@, w));
    }
    r
}

/// Prepending a zero coefficient multiplies the evaluation by `x`.
pub proof fn lemma_eval_cons0(s: Seq<u64>, x: u64)
    requires in_field(x),
    ensures peval(seq![0u64] + s, x) == fmul(x, peval(s, x)),
{
    let c = seq![0u64] + s;
    assert(c.drop_first() =~= s);
    lemma_peval_bound(s, x);
    lemma_fadd_bound(x, peval(s, x));
    crate::field::lemma_fmul_zero(fmul(x, peval(s, x)));
}

/// Evaluation respects polynomial addition.
pub proof fn lemma_eval_padd(a: Seq<u64>, b: Seq<u64>, x: u64)
    requires all_in_field(a), all_in_field(b), in_field(x),
    ensures peval(padd_s(a, b), x) == fadd(peval(a, x), peval(b, x)),
    decreases a.len() + b.len(),
{
    lemma_peval_bound(a, x);
    lemma_peval_bound(b, x);
    if a.len() == 0 {
        assert(padd_s(a, b) =~= b) by {
            assert forall|k: int| 0 <= k < b.len() implies padd_s(a, b)[k] == b[k] by {
                crate::field::lemma_fmul_zero(b[k]);
            }
        }
        crate::field::lemma_fmul_zero(peval(b, x));
    } else if b.len() == 0 {
        assert(padd_s(a, b) =~= a) by {
            assert forall|k: int| 0 <= k < a.len() implies padd_s(a, b)[k] == a[k] by {
                crate::field::lemma_fmul_zero(a[k]);
            }
        }
        crate::field::lemma_fmul_zero(peval(a, x));
    } else {
        let a1 = a.drop_first();
        let b1 = b.drop_first();
        assert(all_in_field(a1) && all_in_field(b1)) by {
            assert(forall|i: int| 0 <= i < a1.len() ==> #[trigger] a1[i] == a[i + 1]);
            assert(forall|i: int| 0 <= i < b1.len() ==> #[trigger] b1[i] == b[i + 1]);
        }
        lemma_eval_padd(a1, b1, x);
        assert(padd_s(a, b).drop_first() =~= padd_s(a1, b1));
        let pa = peval(a1, x);
        let pb = peval(b1, x);
        lemma_peval_bound(a1, x);
        lemma_peval_bound(b1, x);
        lemma_fmul_distrib(x, pa, pb);
        lemma_fadd_bound(x, pa);
        lemma_fadd_bound(x, pb);
        crate::field::lemma_fadd4(a[0], fmul(x, pa), b[0], fmul(x, pb));
    }
}

/// Evaluation respects scaling by a constant.
pub proof fn lemma_eval_pscale(c: u64, a: Seq<u64>, x: u64)
    requires in_field(c), all_in_field(a), in_field(x),
    ensures peval(pscale_s(c, a), x) == fmul(c, peval(a, x)),
    decreases a.len(),
{
    if a.len() == 0 {
        crate::field::lemma_fmul_zero(c);
    } else {
        let a1 = a.drop_first();
        assert(all_in_field(a1)) by {
            assert(forall|i: int| 0 <= i < a1.len() ==> #[trigger] a1[i] == a[i + 1]);
        }
        lemma_eval_pscale(c, a1, x);
        assert(pscale_s(c, a).drop_first() =~= pscale_s(c, a1));
        let pa = peval(a1, x);
        lemma_peval_bound(a1, x);
        lemma_fmul_assoc(x, c, pa);
        lemma_fmul_assoc(c, x, pa);
        lemma_fmul_distrib(c, a[0], fmul(x, pa));
        lemma_fadd_bound(x, pa);
    }
}

/// `q(X)(X - c)` decomposed as `(q0 (X - c)) + X (q'(X)(X - c))`, on coefficients.
proof fn lemma_pml_decompose(q: Seq<u64>, c: u64)
    requires all_in_field(q), in_field(c), q.len() >= 1,
    ensures pmul_lin_s(q, c) == padd_s(
        seq![fneg(fmul(c, q[0])), q[0]],
        seq![0u64] + pmul_lin_s(q.drop_first(), c),
    ),
{
    let q0 = q[0];
    let q1 = q.drop_first();
    let n0 = fneg(fmul(c, q0));
    let two = seq![n0, q0];
    let rest = seq![0u64] + pmul_lin_s(q1, c);
    assert(forall|i: int| 0 <= i < q1.len() ==> #[trigger] q1[i] == q[i + 1]);
    assert(pmul_lin_s(q, c) =~= padd_s(two, rest)) by {
        assert forall|k: int| 0 <= k < pmul_lin_s(q, c).len()
            implies pmul_lin_s(q, c)[k] == padd_s(two, rest)[k] by {
            lemma_fadd_bound(c, gi(q, k));
            lemma_fadd_bound(gi(q1, k - 2), fneg(fmul(c, gi(q1, k - 1))));
            if k == 0 {
                lemma_fadd_bound(c, q0);
                crate::field::lemma_fmul_zero(n0);
            } else if k == 1 {
                if q1.len() >= 1 {
                    crate::field::lemma_fmul_zero(fneg(fmul(c, q1[0])));
                    crate::field::lemma_fneg_add(q1[0]);
                } else {
                    crate::field::lemma_fneg_add(q0);
                    crate::field::lemma_fmul_zero(q0);
                    assert(gi(q, 1) == 0);
                    crate::field::lemma_fmul_zero(c);
                }
            } else {
                assert(gi(rest, k) == gi(pmul_lin_s(q1, c), k - 1));
                assert(gi(q1, k - 2) == gi(q, k - 1));
                assert(gi(q1, k - 1) == gi(q, k));
                crate::field::lemma_fmul_zero(fsub(gi(q1, k - 2), fmul(c, gi(q1, k - 1))));
                lemma_fadd_bound(gi(q1, k - 2), fneg(fmul(c, gi(q1, k - 1))));
            }
        }
    }
}

/// Evaluation respects multiplication by a linear factor.
#[verifier::rlimit(100)]
pub proof fn lemma_eval_pmul_lin(q: Seq<u64>, c: u64, x: u64)
    requires all_in_field(q), in_field(c), in_field(x),
    ensures peval(pmul_lin_s(q, c), x) == fmul(peval(q, x), fsub(x, c)),
    decreases q.len(),
{
    lemma_fadd_bound(x, c);
    let s = fsub(x, c);
    if q.len() == 0 {
        crate::field::lemma_fmul_zero(s);
    } else {
        let q0 = q[0];
        let q1 = q.drop_first();
        assert(all_in_field(q1)) by {
            assert(forall|i: int| 0 <= i < q1.len() ==> #[trigger] q1[i] == q[i + 1]);
        }
        lemma_eval_pmul_lin(q1, c, x);
        let n0 = fneg(fmul(c, q0));
        let two = seq![n0, q0];
        let rest = seq![0u64] + pmul_lin_s(q1, c);
        lemma_pml_decompose(q, c);
        assert(all_in_field(pmul_lin_s(q1, c))) by {
            assert forall|i: int| 0 <= i < pmul_lin_s(q1, c).len()
                implies in_field(#[trigger] pmul_lin_s(q1, c)[i]) by {
                lemma_fadd_bound(gi(q1, i - 1), fneg(fmul(c, gi(q1, i))));
            }
        }
        assert(all_in_field(two)) by {
            lemma_fadd_bound(c, q0);
        }
        assert(all_in_field(rest)) by {
            assert(forall|i: int| 1 <= i < rest.len()
                ==> #[trigger] rest[i] == pmul_lin_s(q1, c)[i - 1]);
        }
        lemma_eval_padd(two, rest, x);
        lemma_eval_cons0(pmul_lin_s(q1, c), x);
        let pq1 = peval(q1, x);
        lemma_peval_bound(q1, x);
        assert(peval(two, x) == fadd(n0, fmul(x, q0))) by {
            crate::field::lemma_fmul_zero(x);
            crate::field::lemma_fmul_zero(q0);
            assert(seq![q0].drop_first() =~= Seq::<u64>::empty());
            assert(peval(seq![q0].drop_first(), x) == 0);
            assert(peval(seq![q0], x) == fadd(q0, fmul(x, 0)));
            assert(peval(seq![q0], x) == q0);
            assert(two.drop_first() =~= seq![q0]);
            assert(peval(two, x) == fadd(n0, fmul(x, peval(seq![q0], x))));
        }
        assert(peval(q, x) == fadd(q0, fmul(x, pq1)));
        lemma_fadd_bound(x, pq1);
        assert(fmul(peval(q, x), s) == fadd(fmul(q0, s), fmul(fmul(x, pq1), s))) by {
            crate::field::lemma_fmul_distrib(s, q0, fmul(x, pq1));
        }
        assert(fmul(q0, s) == fadd(fmul(x, q0), n0)) by {
            crate::field::lemma_fmul_distrib(q0, x, fneg(c));
            crate::field::lemma_fmul_fneg(q0, c);
        }
        assert(fmul(fmul(x, pq1), s) == fmul(x, fmul(pq1, s))) by {
            lemma_fmul_assoc(x, pq1, s);
        }
        lemma_fadd_bound(fmul(x, q0), n0);
    }
}

/// Coefficient `j` of the quotient of `num` by the vanishing polynomial
/// `X^n - 1`, from the top-down division recurrence.
pub open spec fn vquot(num: Seq<u64>, n: int, j: int) -> u64
    decreases num.len() - j when n >= 1
{
    if j + n >= num.len() {
        0
    } else {
        fadd(num[j + n], vquot(num, n, j + n))
    }
}

proof fn lemma_vquot_bound(num: Seq<u64>, n: int, j: int)
    requires n >= 1, all_in_field(num),
    ensures in_field(vquot(num, n, j)),
    decreases num.len() - j,
{
    if j + n < num.len() {
        lemma_vquot_bound(num, n, j + n);
        if 0 <= j + n {
            lemma_fadd_bound(num[j + n], vquot(num, n, j + n));
        }
    }
}

/// The division of `num` by `X^n - 1` is exact: every remainder
/// coefficient vanishes.
pub open spec fn vdiv_exact(num: Seq<u64>, n: int) -> bool {
    forall|k: int| 0 <= k < n ==> fadd(gi(num, k), vquot(num, n, k)) == 0
}

/// Division by the vanishing polynomial `X^n - 1`: returns `(q, r)` with
/// `num == q * (X^n - 1) + r` as an identity on coefficients and the degree
/// of `r` below `n`.  The remainder is zero exactly when the division is
/// exact; callers that require exactness must check it.
#[verifier::rlimit(100)]
pub fn divide_by_vanishing(num: &Vec<u64>, n: usize) -> (qr: (Vec<u64>, Vec<u64>))
    requires n >= 1, all_in_field(num@),
    ensures
        qr.0@.len() == if num@.len() >= n { (num@.len() - n) as int } else { 0 },
        qr.1@.len() == if num@.len() <= n { num@.len() } else { n as nat },
        all_in_field(qr.0@), all_in_field(qr.1@),
        forall|k: int| 0 <= k < num@.len()
            ==> num@[k] == fadd(fsub(gi(qr.0@, k - n), gi(qr.0@, k)), gi(qr.1@, k)),
        forall|j: int| 0 <= j < qr.0@.len() ==> qr.0@[j] == vquot(num@, n as int, j),
        forall|k: int| 0 <= k < qr.1@.len()
            ==> qr.1@[k] == fadd(num@[k], vquot(num@, n as int, k)),
{
    let len = num.len();
    let mut qv: Vec<u64> = Vec::new();
    let mut i: usize = 0;
    while i < len
        invariant i <= len, qv@.len() == i,
            forall|t: int| 0 <= t < i ==> qv@[t] == 0,
        decreases len - i,
    {
        qv.push(0);
        i = i + 1;
    }
    let mut j: usize = len;
    while j > 0
        invariant
            j <= len, len == num@.len(), n >= 1, all_in_field(num@),
            qv@.len() == len,
            forall|t: int| j <= t < len ==> qv@[t] == vquot(num@, n as int, t)
                && in_field(#[trigger] qv@[t]),
            forall|t: int| 0 <= t < j ==> qv@[t] == 0,
        decreases j,
    {
        j = j - 1;
        if n < len && j < len - n {
            let hv = qv[j + n];
            let nv = num[j + n];
            qv.set(j, add_f(nv, hv));
        }
    }
    let qlen = if len >= n { len - n } else { 0 };
    let rlen = if len <= n { len } else { n };
    let mut q: Vec<u64> = Vec::new();
    let mut k: usize = 0;
    while k < qlen
        invariant
            k <= qlen, qlen == if len >= n { (len - n) as int } else { 0 },
            len == num@.len(), n >= 1, all_in_field(num@),
            qv@.len() == len,
            forall|t: int| 0 <= t < len ==> qv@[t] == vquot(num@, n as int, t)
                && in_field(#[trigger] qv@[t]),
            q@.len() == k,
            forall|t: int| 0 <= t < k ==> q@[t] == vquot(num@, n as int, t)
                && in_field(#[trigger] q@[t]),
        decreases qlen - k,
    {
        q.push(qv[k]);
        k = k + 1;
    }
    let mut r: Vec<u64> = Vec::new();
    let mut k2: usize = 0;
    while k2 < rlen
        invariant
            k2 <= rlen, rlen == if len <= n { len as int } else { n as int },
            len == num@.len(), n >= 1, all_in_field(num@),
            qv@.len() == len,
            forall|t: int| 0 <= t < len ==> qv@[t] == vquot(num@, n as int, t)
                && in_field(#[trigger] qv@[t]),
            r@.len() == k2,
            forall|t: int| 0 <= t < k2
                ==> r@[t] == fadd(num@[t], vquot(num@, n as int, t))
                    && in_field(#[trigger] r@[t]),
        decreases rlen - k2,
    {
        let nv = num[k2];
        let hv = qv[k2];
        r.push(add_f(nv, hv));
        k2 = k2 + 1;
    }
    proof {
        assert forall|k: int| 0 <= k < num@.len()
            implies num@[k] == fadd(fsub(gi(q@, k - n), gi(q@, k)), gi(r@, k)) by {
            lemma_vquot_bound(num@, n as int, k);
            lemma_vquot_bound(num@, n as int, k - n);
            let qk = vquot(num@, n as int, k);
            if k >= n {
                // gi(r, k) == 0; q[k - n] == fadd(num[k], q[k])
                assert(gi(q@, k - n) == vquot(num@, n as int, k - n));
                assert(vquot(num@, n as int, k - n) == fadd(num@[k], qk));
                assert(gi(q@, k) == qk);
                lemma_fsub_cancel(num@[k], qk);
                crate::field::lemma_fadd_assoc(num@[k], qk, fneg(qk));
                crate::field::lemma_fneg_add(qk);
                crate::field::lemma_fmul_zero(num@[k]);
                lemma_fadd_bound(num@[k], qk);
            } else {
                // gi(q, k - n) == 0; r[k] == fadd(num[k], q-ext[k])
                assert(gi(r@, k) == fadd(num@[k], qk));
                assert(gi(q@, k) == qk);
                crate::field::lemma_fneg_add(qk);
                lemma_fadd_bound(num@[k], qk);
                crate::field::lemma_fmul_zero(fneg(qk));
                // fadd(fneg(qk), fadd(num[k], qk)) == num[k]
                crate::field::lemma_fadd_assoc(fneg(qk), qk, num@[k]);
                crate::field::lemma_fmul_zero(num@[k]);
            }
        }
    }
    (q, r)
}

/// The remainder of the vanishing division is all zero exactly when the
/// division is exact.
pub proof fn lemma_vdiv_exact_iff(num: Seq<u64>, n: int, r: Seq<u64>)
    requires
        n >= 1,
        r.len() == if num.len() <= n { num.len() as int } else { n },
        forall|k: int| 0 <= k < r.len() ==> r[k] == fadd(gi(num, k), vquot(num, n, k)),
    ensures
        (forall|k: int| #![auto] 0 <= k < r.len() ==> r[k] == 0) <==> vdiv_exact(num, n),
{
    if forall|k: int| #![auto] 0 <= k < r.len() ==> r[k] == 0 {
        assert forall|k: int| 0 <= k < n
            implies fadd(gi(num, k), vquot(num, n, k)) == 0 by {
            if k >= r.len() {
                assert(gi(num, k) == 0 && vquot(num, n, k) == 0);
                crate::field::lemma_fmul_zero(0);
            } else {
                assert(r[k] == 0);
                assert(r[k] == fadd(gi(num, k), vquot(num, n, k)));
            }
        }
    }
}

/// Coefficient `j` of the quotient of `num` by the linear factor `X - c`.
pub open spec fn lquot(num: Seq<u64>, c: u64, j: int) -> u64
    decreases num.len() - j,
{
    if j + 1 >= num.len() {
        0
    } else {
        fadd(num[j + 1], fmul(c, lquot(num, c, j + 1)))
    }
}

proof fn lemma_lquot_bound(num: Seq<u64>, c: u64, j: int)
    requires all_in_field(num),
    ensures in_field(lquot(num, c, j)),
    decreases num.len() - j,
{
    if j + 1 < num.len() {
        lemma_lquot_bound(num, c, j + 1);
        if 0 <= j + 1 {
            lemma_fadd_bound(num[j + 1], fmul(c, lquot(num, c, j + 1)));
        }
    }
}

/// The coefficients of the quotient of `num` by `X - c`.
pub open spec fn lin_quot_s(num: Seq<u64>, c: u64) -> Seq<u64> {
    Seq::new(if num.len() >= 1 { (num.len() - 1) as nat } else { 0 }, |j: int| lquot(num, c, j))
}

/// The remainder of dividing `num` by `X - c`.
pub open spec fn lin_rem_s(num: Seq<u64>, c: u64) -> u64 {
    fadd(gi(num, 0), fmul(c, lquot(num, c, 0)))
}

/// Division by the linear factor `X - c`: returns `(q, rem)` with
/// `num == q * (X - c) + rem` as an identity on coefficients, `rem` constant.
/// The remainder is zero exactly when `c` is a root of `num`.
pub fn divide_by_linear(num: &Vec<u64>, c: u64) -> (qr: (Vec<u64>, u64))
    requires in_field(c), all_in_field(num@),
    ensures
        qr.0@ == lin_quot_s(num@, c), qr.1 == lin_rem_s(num@, c),
        all_in_field(qr.0@), in_field(qr.1),
        forall|k: int| 0 <= k < num@.len()
            ==> num@[k] == fadd(
                fsub(gi(qr.0@, k - 1), fmul(c, gi(qr.0@, k))),
                if k == 0 { qr.1 } else { 0 },
            ),
        forall|j: int| 0 <= j < qr.0@.len() ==> qr.0@[j] == lquot(num@, c, j),
{
    let len = num.len();
    if len == 0 {
        proof {
            crate::field::lemma_fmul_zero(c);
            crate::field::lemma_fmul_zero(0);
            assert(Seq::<u64>::empty() =~= lin_quot_s(num@, c));
        }
        return (Vec::new(), 0);
    }
    let qlen = len - 1;
    let mut q: Vec<u64> = Vec::new();
    let mut i: usize = 0;
    while i < qlen
        invariant i <= qlen, q@.len() == i,
            forall|t: int| 0 <= t < i ==> q@[t] == 0,
        decreases qlen - i,
    {
        q.push(0);
        i = i + 1;
    }
    let mut j: usize = qlen;
    while j > 0
        invariant
            j <= qlen, qlen == len - 1, len == num@.len(), len >= 1,
            in_field(c), all_in_field(num@),
            q@.len() == qlen,
            forall|t: int| j <= t < qlen ==> q@[t] == lquot(num@, c, t)
                && in_field(#[trigger] q@[t]),
            forall|t: int| 0 <= t < j ==> q@[t] == 0,
        decreases j,
    {
        j = j - 1;
        let hv = if j + 1 < qlen { q[j + 1] } else { 0 };
        proof {
            if j + 1 >= qlen {
                assert(lquot(num@, c, j + 1) == 0);
            }
        }
        let m = mul_f(c, hv);
        q.set(j, add_f(num[j + 1], m));
    }
    let m0 = mul_f(c, if qlen > 0 { q[0] } else { 0 });
    proof {
        if qlen == 0 {
            assert(lquot(num@, c, 0) == 0);
        }
    }
    let rem = add_f(num[0], m0);
    proof {
        assert(q@ =~= lin_quot_s(num@, c));
        assert forall|k: int| 0 <= k < num@.len()
            implies num@[k] == fadd(
                fsub(gi(q@, k - 1), fmul(c, gi(q@, k))),
                if k == 0 { rem } else { 0 },
            ) by {
            lemma_lquot_bound(num@, c, k);
            let qk = fmul(c, lquot(num@, c, k));
            lemma_fadd_bound(c, lquot(num@, c, k));
            assert(gi(q@, k) == lquot(num@, c, k));
            if k >= 1 {
                assert(gi(q@, k - 1) == lquot(num@, c, k - 1));
                assert(lquot(num@, c, k - 1) == fadd(num@[k], qk));
                lemma_fsub_cancel(num@[k], qk);
                crate::field::lemma_fadd_assoc(num@[k], qk, fneg(qk));
                crate::field::lemma_fneg_add(qk);
                crate::field::lemma_fmul_zero(num@[k]);
                lemma_fadd_bound(num@[k], qk);
            } else {
                assert(rem == fadd(num@[0], qk));
                crate::field::lemma_fneg_add(qk);
                lemma_fadd_bound(num@[0], qk);
                crate::field::lemma_fmul_zero(fneg(qk));
                crate::field::lemma_fadd_assoc(fneg(qk), qk, num@[0]);
                crate::field::lemma_fmul_zero(num@[0]);
            }
        }
    }
    (q, rem)
}

/// The node polynomial `(X - pts[0]) ... (X - pts[k-1])`.
pub open spec fn node_poly(pts: Seq<u64>, k: int) -> Seq<u64>
    decreases k,
{
    if k <= 0 {
        seq![1u64]
    } else {
        pmul_lin_s(node_poly(pts, k - 1), pts[k - 1])
    }
}

proof fn lemma_node_shape(pts: Seq<u64>, k: int)
    requires all_in_field(pts), 0 <= k <= pts.len(),
    ensures node_poly(pts, k).len() == k + 1, all_in_field(node_poly(pts, k)),
    decreases k,
{
    if k > 0 {
        lemma_node_shape(pts, k - 1);
        let prev = node_poly(pts, k - 1);
        assert forall|i: int| 0 <= i < node_poly(pts, k).len()
            implies in_field(#[trigger] node_poly(pts, k)[i]) by {
            lemma_fadd_bound(gi(prev, i - 1), fneg(fmul(pts[k - 1], gi(prev, i))));
        }
    }
}

proof fn lemma_node_root(pts: Seq<u64>, k: int, j: int)
    requires all_in_field(pts), 0 <= j < k <= pts.len(),
    ensures peval(node_poly(pts, k), pts[j]) == 0,
    decreases k,
{
    lemma_node_shape(pts, k - 1);
    lemma_eval_pmul_lin(node_poly(pts, k - 1), pts[k - 1], pts[j]);
    lemma_peval_bound(node_poly(pts, k - 1), pts[j]);
    lemma_fadd_bound(pts[j], pts[k - 1]);
    if j < k - 1 {
        lemma_node_root(pts, k - 1, j);
        crate::field::lemma_fmul_zero(fsub(pts[j], pts[k - 1]));
    } else {
        lemma_fsub_cancel(pts[j], pts[k - 1]);
        crate::field::lemma_fmul_zero(peval(node_poly(pts, k - 1), pts[j]));
    }
}

proof fn lemma_node_nonroot(pts: Seq<u64>, k: int, x: u64)
    requires
        all_in_field(pts), in_field(x), 0 <= k <= pts.len(),
        forall|j: int| 0 <= j < k ==> x != pts[j],
    ensures peval(node_poly(pts, k), x) != 0,
    decreases k,
{
    if k == 0 {
        assert(seq![1u64].drop_first() =~= Seq::<u64>::empty());
        crate::field::lemma_fmul_zero(x);
        crate::field::lemma_fmul_zero(1u64);
        assert(peval(Seq::<u64>::empty(), x) == 0);
        assert(peval(seq![1u64].drop_first(), x) == 0);
        assert(peval(seq![1u64], x) == fadd(1u64, fmul(x, 0)));
        assert(peval(node_poly(pts, 0), x) == 1);
    } else {
        lemma_node_nonroot(pts, k - 1, x);
        lemma_node_shape(pts, k - 1);
        lemma_eval_pmul_lin(node_poly(pts, k - 1), pts[k - 1], x);
        lemma_peval_bound(node_poly(pts, k - 1), x);
        lemma_fadd_bound(x, pts[k - 1]);
        lemma_fsub_cancel(x, pts[k - 1]);
        assert(fsub(x, pts[k - 1]) != 0);
        lemma_no_zero_divisors(peval(node_poly(pts, k - 1), x), fsub(x, pts[k - 1]));
    }
}

/// The coefficients of the interpolant through the first `k` points, by
/// the incremental node-polynomial recurrence.  This names the exact
/// polynomial that `interpolate` computes, so the construction is a pure
/// function of its inputs at the specification level.
pub open spec fn newton_interp(pts: Seq<u64>, vals: Seq<u64>, k: int) -> Seq<u64>
    decreases k,
{
    if k <= 0 {
        Seq::<u64>::empty()
    } else {
        let prev = newton_interp(pts, vals, k - 1);
        let c = fmul(
            fsub(vals[k - 1], peval(prev, pts[k - 1])),
            finv(peval(node_poly(pts, k - 1), pts[k - 1])),
        );
        padd_s(prev, pscale_s(c, node_poly(pts, k - 1)))
    }
}

/// Interpolation through distinct points: returns the coefficients of the
/// polynomial `newton_interp` names, of degree below the number of points,
/// taking the value `vals[j]` at `pts[j]` for every `j`.
pub fn interpolate(pts: &Vec<u64>, vals: &Vec<u64>) -> (r: Vec<u64>)
    requires
        pts@.len() == vals@.len(),
        pts@.len() < usize::MAX,
        all_in_field(pts@), all_in_field(vals@),
        forall|i: int, j: int| 0 <= i < j < pts@.len() ==> pts@[i] != pts@[j],
    ensures
        r@ == newton_interp(pts@, vals@, pts@.len() as int),
        r@.len() == pts@.len(),
        all_in_field(r@),
        forall|j: int| 0 <= j < pts@.len() ==> peval(r@, #[trigger] pts@[j]) == vals@[j],
{
    let mut p: Vec<u64> = Vec::new();
    let mut npoly: Vec<u64> = Vec::new();
    npoly.push(1);
    proof {
        assert(npoly@ =~= node_poly(pts@, 0));
    }
    let mut k: usize = 0;
    while k < pts.len()
        invariant
            k <= pts@.len(), pts@.len() == vals@.len(), pts@.len() < usize::MAX,
            all_in_field(pts@), all_in_field(vals@),
            forall|i: int, j: int| 0 <= i < j < pts@.len() ==> pts@[i] != pts@[j],
            npoly@ == node_poly(pts@, k as int),
            p@ == newton_interp(pts@, vals@, k as int),
            p@.len() == if k == 0 { 0int } else { k as int },
            all_in_field(p@), all_in_field(npoly@),
            forall|j: int| 0 <= j < k ==> peval(p@, #[trigger] pts@[j]) == vals@[j],
        decreases pts@.len() - k,
    {
        let pk = pts[k];
        let ev_p = eval_poly(&p, pk);
        proof {
            lemma_node_shape(pts@, k as int);
            assert forall|j: int| 0 <= j < k implies pk != pts@[j] by {
                assert(pts@[j] != pts@[k as int]);
            }
            lemma_node_nonroot(pts@, k as int, pk);
        }
        let d = eval_poly(&npoly, pk);
        let dinv = inv_f(d);
        proof {
            lemma_finv(d);
        }
        let diff = sub_f(vals[k], ev_p);
        let coef = mul_f(diff, dinv);
        let scaled = pscale(coef, &npoly);
        let pnew = padd(&p, &scaled);
        proof {
            lemma_eval_padd(p@, scaled@, pk);
            lemma_eval_pscale(coef, npoly@, pk);
            lemma_fmul_assoc(diff, dinv, d);
            crate::field::lemma_fmul_one(diff);
            lemma_fsub_cancel(vals@[k as int], ev_p);
            assert(peval(pnew@, pk) == vals@[k as int]);
            assert forall|j: int| 0 <= j < k
                implies peval(pnew@, #[trigger] pts@[j]) == vals@[j] by {
                lemma_eval_padd(p@, scaled@, pts@[j]);
                lemma_eval_pscale(coef, npoly@, pts@[j]);
                lemma_node_root(pts@, k as int, j);
                crate::field::lemma_fmul_zero(coef);
                crate::field::lemma_fmul_zero(vals@[j]);
            }
        }
        p = pnew;
        npoly = pmul_lin(&npoly, pk);
        k = k + 1;
    }
    p
}

/// True exactly when every stored coefficient is zero.
pub fn is_zero_poly(s: &Vec<u64>) -> (r: bool)
    ensures r <==> (forall|k: int| #![auto] 0 <= k < s@.len() ==> s@[k] == 0),
{
    let mut k: usize = 0;
    while k < s.len()
        invariant
            k <= s@.len(),
            forall|i: int| #![auto] 0 <= i < k ==> s@[i] == 0,
        decreases s@.len() - k,
    {
        if s[k] != 0 {
            return false;
        }
        k = k + 1;
    }
    true
}

} // verus!
