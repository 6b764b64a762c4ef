//! The static, circuit-specific description: the evaluation domain, the
//! generic-gate selector columns, and the lookup table with its per-row
//! lookup selector.  Built once per circuit and shared read-only across
//! proof constructions.
use vstd::prelude::*;

verus! {

use crate::domain::Domain;
use crate::field::{all_in_field, in_field, P};
use crate::poly::{interpolate, peval};

/// The number of witness columns.
pub const COLUMNS: usize = 5;

/// Every column of the witness has exactly the domain's length and holds
/// canonical field elements.
pub open spec fn witness_wf(w: Seq<Vec<u64>>, n: nat) -> bool {
    &&& w.len() == COLUMNS
    &&& forall|i: int| 0 <= i < w.len() ==> (#[trigger] w[i])@.len() == n
    &&& forall|i: int| 0 <= i < w.len() ==> all_in_field((#[trigger] w[i])@)
}

/// The constraint system: domain, generic-gate selectors (in evaluation and
/// coefficient form), and the lookup structure.
pub struct ConstraintSystem {
    /// The base evaluation domain.
    pub domain: Domain,
    /// The number of public-input rows at the start of column 0.
    pub public: usize,
    /// Per-row lookup selector, for the first `n - 1` rows.
    pub lookup_sel: Vec<u64>,
    /// The static lookup table values over the domain.
    pub table1: Vec<u64>,
    /// The interpolated table polynomial.
    pub tablem: Vec<u64>,
    /// Generic-gate selector values over the domain.
    pub ql: Vec<u64>,
    pub qr: Vec<u64>,
    pub qo: Vec<u64>,
    pub qm: Vec<u64>,
    pub qc: Vec<u64>,
    /// Generic-gate selector polynomials (coefficient form).
    pub qlm: Vec<u64>,
    pub qrm: Vec<u64>,
    pub qom: Vec<u64>,
    pub qmm: Vec<u64>,
    pub qcm: Vec<u64>,
}

impl ConstraintSystem {
    /// Well-formedness: every column has the right length and canonical
    /// values, and each stored polynomial interpolates its value column
    /// over the domain.
    pub open spec fn wf(self) -> bool {
        &&& self.domain.wf()
        &&& self.public <= self.domain.n
        &&& self.lookup_sel@.len() == self.domain.n - 1
        &&& self.table1@.len() == self.domain.n
        &&& all_in_field(self.lookup_sel@) && all_in_field(self.table1@)
        &&& all_in_field(self.ql@) && all_in_field(self.qr@) && all_in_field(self.qo@)
        &&& all_in_field(self.qm@) && all_in_field(self.qc@)
        &&& self.ql@.len() == self.domain.n && self.qr@.len() == self.domain.n
        &&& self.qo@.len() == self.domain.n && self.qm@.len() == self.domain.n
        &&& self.qc@.len() == self.domain.n
        &&& all_in_field(self.tablem@) && self.tablem@.len() <= self.domain.n
        &&& all_in_field(self.qlm@) && self.qlm@.len() <= self.domain.n
        &&& all_in_field(self.qrm@) && self.qrm@.len() <= self.domain.n
        &&& all_in_field(self.qom@) && self.qom@.len() <= self.domain.n
        &&& all_in_field(self.qmm@) && self.qmm@.len() <= self.domain.n
        &&& all_in_field(self.qcm@) && self.qcm@.len() <= self.domain.n
        &&& forall|j: int| 0 <= j < self.domain.n
            ==> peval(self.tablem@, #[trigger] self.domain.pows@[j]) == self.table1@[j]
        &&& forall|j: int| 0 <= j < self.domain.n
            ==> peval(self.qlm@, #[trigger] self.domain.pows@[j]) == self.ql@[j]
        &&& forall|j: int| 0 <= j < self.domain.n
            ==> peval(self.qrm@, #[trigger] self.domain.pows@[j]) == self.qr@[j]
        &&& forall|j: int| 0 <= j < self.domain.n
            ==> peval(self.qom@, #[trigger] self.domain.pows@[j]) == self.qo@[j]
        &&& forall|j: int| 0 <= j < self.domain.n
            ==> peval(self.qmm@, #[trigger] self.domain.pows@[j]) == self.qm@[j]
        &&& forall|j: int| 0 <= j < self.domain.n
            ==> peval(self.qcm@, #[trigger] self.domain.pows@[j]) == self.qc@[j]
    }

    /// Build a constraint system, interpolating the selector and table
    /// polynomials over the domain.  Returns `None` when a column has the
    /// wrong length or a value outside the field.
    pub fn new(
        domain: Domain,
        public: usize,
        lookup_sel: Vec<u64>,
        table1: Vec<u64>,
        ql: Vec<u64>,
        qr: Vec<u64>,
        qo: Vec<u64>,
        qm: Vec<u64>,
        qc: Vec<u64>,
    ) -> (r: Option<ConstraintSystem>)
        requires domain.wf(),
        ensures
            r is Some ==> r->0.wf() && r->0.domain == domain && r->0.public == public
                && r->0.lookup_sel == lookup_sel && r->0.table1 == table1
                && r->0.ql == ql && r->0.qr == qr && r->0.qo == qo && r->0.qm == qm
                && r->0.qc == qc,
            (r is None) <==> !(
                public <= domain.n
                && lookup_sel@.len() == domain.n - 1 && table1@.len() == domain.n
                && ql@.len() == domain.n && qr@.len() == domain.n
                && qo@.len() == domain.n && qm@.len() == domain.n
                && qc@.len() == domain.n
                && all_in_field(lookup_sel@) && all_in_field(table1@)
                && all_in_field(ql@) && all_in_field(qr@) && all_in_field(qo@)
                && all_in_field(qm@) && all_in_field(qc@)
            ),
    {
        let n = domain.n;
        if public > n || lookup_sel.len() != n - 1 || table1.len() != n
            || ql.len() != n || qr.len() != n || qo.len() != n || qm.len() != n
            || qc.len() != n
        {
            return None;
        }
        if !all_below_p(&lookup_sel) || !all_below_p(&table1) || !all_below_p(&ql)
            || !all_below_p(&qr) || !all_below_p(&qo) || !all_below_p(&qm)
            || !all_below_p(&qc)
        {
            return None;
        }
        let tablem = interpolate(&domain.pows, &table1);
        let qlm = interpolate(&domain.pows, &ql);
        let qrm = interpolate(&domain.pows, &qr);
        let qom = interpolate(&domain.pows, &qo);
        let qmm = interpolate(&domain.pows, &qm);
        let qcm = interpolate(&domain.pows, &qc);
        Some(ConstraintSystem {
            domain, public, lookup_sel, table1, tablem,
            ql, qr, qo, qm, qc, qlm, qrm, qom, qmm, qcm,
        })
    }

    /// Local sanity check, not part of the cryptographic proof: the generic
    /// gate identity holds at every row of the witness, with the public
    /// inputs subtracted on their rows.
    pub fn verify_witness(&self, witness: &Vec<Vec<u64>>) -> (r: bool)
        requires self.wf(), witness_wf(witness@, self.domain.n as nat),
        ensures r <==> forall|j: int| 0 <= j < self.domain.n
            ==> generic_row_value(*self, witness@, j) == 0,
    {
        let n = self.domain.n;
        let mut j: usize = 0;
        while j < n
            invariant
                j <= n, n == self.domain.n,
                self.wf(),
                witness_wf(witness@, self.domain.n as nat),
                forall|t: int| 0 <= t < j ==> generic_row_value(*self, witness@, t) == 0,
            decreases n - j,
        {
            let a = crate::field::mul_f(self.ql[j], witness[0][j]);
            let b = crate::field::mul_f(self.qr[j], witness[1][j]);
            let c = crate::field::mul_f(self.qo[j], witness[2][j]);
            let m = crate::field::mul_f(self.qm[j], crate::field::mul_f(witness[0][j], witness[1][j]));
            let pub_term = if j < self.public {
                crate::field::neg_f(witness[0][j])
            } else {
                0
            };
            let total = crate::field::add_f(
                crate::field::add_f(crate::field::add_f(crate::field::add_f(a, b), c), m),
                crate::field::add_f(self.qc[j], pub_term),
            );
            proof {
                assert(total == generic_row_value(*self, witness@, j as int));
            }
            if total != 0 {
                return false;
            }
            j = j + 1;
        }
        true
    }
}

/// The generic gate identity evaluated on witness row `j`, with the public
/// input subtracted on its rows: zero exactly when the row is satisfied.
pub open spec fn generic_row_value(cs: ConstraintSystem, witness: Seq<Vec<u64>>, j: int) -> u64 {
    crate::field::fadd(
        crate::field::fadd(
            crate::field::fadd(
                crate::field::fadd(
                    crate::field::fmul(cs.ql@[j], witness[0]@[j]),
                    crate::field::fmul(cs.qr@[j], witness[1]@[j]),
                ),
                crate::field::fmul(cs.qo@[j], witness[2]@[j]),
            ),
            crate::field::fmul(cs.qm@[j], crate::field::fmul(witness[0]@[j], witness[1]@[j])),
        ),
        crate::field::fadd(
            cs.qc@[j],
            if j < cs.public {
                crate::field::fneg(witness[0]@[j])
            } else {
                0
            },
        ),
    )
}


/// Run-time check that every entry is a canonical field element.
pub fn all_below_p(v: &Vec<u64>) -> (r: bool)
    ensures r <==> all_in_field(v@),
{
    let mut i: usize = 0;
    while i < v.len()
        invariant i <= v@.len(), forall|t: int| 0 <= t < i ==> in_field(#[trigger] v@[t]),
        decreases v@.len() - i,
    {
        if v[i] >= P {
            return false;
        }
        i = i + 1;
    }
    true
}

} // verus!
