//! The polynomials that the prover sends in each round of the proof system,
//! the order in which they are committed to and opened, and the check that
//! each of them has the shape the verifier expects.
use crate::field::{copy_elements, Field};
use std::collections::BTreeMap;
use vstd::prelude::*;

verus! {

broadcast use vstd::laws_cmp::group_laws_cmp;

/// The name by which a polynomial is committed to and looked up.
pub type PolynomialLabel = u64;

/// What the verifier knows of a polynomial: its label and its bounds.
#[derive(Clone, Copy, Debug, PartialEq, Eq, Structural)]
pub struct PolynomialInfo {
    pub label: PolynomialLabel,
    pub degree_bound: Option<usize>,
    pub hiding_bound: Option<usize>,
}

/// A polynomial with its label and bounds, by its coefficients.
#[derive(Debug)]
pub struct LabeledPolynomial {
    pub info: PolynomialInfo,
    pub polynomial: Vec<Field>,
}

/// The basis in which a term of a polynomial is given.
#[derive(Clone, Copy, Debug, PartialEq, Eq, Structural)]
pub enum Basis {
    /// Coefficients of the powers of the variable.
    Monomial,
    /// Evaluations over a domain.
    Lagrange,
}

/// A weighted polynomial in one basis.
#[derive(Debug)]
pub struct BasisTerm {
    pub weight: Field,
    pub basis: Basis,
    pub elements: Vec<Field>,
}

/// A polynomial given as a weighted sum of terms in possibly different bases.
#[derive(Debug)]
pub struct LabeledPolynomialWithBasis {
    pub polynomial: Vec<BasisTerm>,
    pub info: PolynomialInfo,
}

/// The contents of a term.
pub type TermView = (Field, Basis, Seq<Field>);

/// The contents of a polynomial with basis.
pub type WithBasisView = (PolynomialInfo, Seq<TermView>);

impl View for LabeledPolynomial {
    type V = (PolynomialInfo, Seq<Field>);

    open spec fn view(&self) -> (PolynomialInfo, Seq<Field>) {
        (self.info, self.polynomial@)
    }
}

impl View for BasisTerm {
    type V = TermView;

    open spec fn view(&self) -> TermView {
        (self.weight, self.basis, self.elements@)
    }
}

impl View for LabeledPolynomialWithBasis {
    type V = WithBasisView;

    open spec fn view(&self) -> WithBasisView {
        (self.info, self.polynomial@.map_values(|t: BasisTerm| t@))
    }
}

/// A polynomial by coefficients, as the single term of a polynomial with basis.
pub open spec fn as_with_basis(p: (PolynomialInfo, Seq<Field>)) -> WithBasisView {
    (p.0, seq![(Field { low: 1, high: 0 }, Basis::Monomial, p.1)])
}

/// The views of a sequence of polynomials with basis.
pub open spec fn with_basis_views(s: Seq<LabeledPolynomialWithBasis>) -> Seq<WithBasisView> {
    s.map_values(|p: LabeledPolynomialWithBasis| p@)
}

/// Whether the verifier's table holds exactly `info` under its label.
pub open spec fn info_listed(table: Map<PolynomialLabel, PolynomialInfo>, info: PolynomialInfo) -> bool {
    table.contains_key(info.label) && table[info.label] == info
}

/// Looks up the label of `info` in the verifier's table and compares.
pub fn info_matches(table: &BTreeMap<PolynomialLabel, PolynomialInfo>, info: &PolynomialInfo) -> (r: bool)
    ensures
        r == info_listed(table@, *info),
{
    match table.get(&info.label) {
        Some(expected) => *expected == *info,
        None => false,
    }
}

impl LabeledPolynomial {
    /// The label and bounds of the polynomial.
    pub fn info(&self) -> (r: PolynomialInfo)
        ensures
            r == self.info,
    {
        self.info
    }

    /// The label of the polynomial.
    pub fn label(&self) -> (r: PolynomialLabel)
        ensures
            r == self.info.label,
    {
        self.info.label
    }

    /// A copy of the polynomial.
    pub fn copy(&self) -> (r: LabeledPolynomial)
        ensures
            r@ == self@,
    {
        LabeledPolynomial { info: self.info, polynomial: copy_elements(&self.polynomial) }
    }
}

impl LabeledPolynomialWithBasis {
    /// The label and bounds of the polynomial.
    pub fn info(&self) -> (r: PolynomialInfo)
        ensures
            r == self.info,
    {
        self.info
    }

    /// The polynomial `p` as a polynomial with basis: a single monomial term of weight one.
    pub fn from_polynomial(p: LabeledPolynomial) -> (r: LabeledPolynomialWithBasis)
        ensures
            r@ == as_with_basis(p@),
    {
        let term = BasisTerm { weight: Field::one(), basis: Basis::Monomial, elements: p.polynomial };
        let mut terms: Vec<BasisTerm> = Vec::new();
        terms.push(term);
        let r = LabeledPolynomialWithBasis { polynomial: terms, info: p.info };
        assert(r@.1 =~= as_with_basis(p@).1);
        r
    }

    /// The same label and bounds with no terms.
    pub fn emptied(info: PolynomialInfo) -> (r: LabeledPolynomialWithBasis)
        ensures
            r@ == (info, Seq::<TermView>::empty()),
    {
        let r = LabeledPolynomialWithBasis { polynomial: Vec::new(), info };
        assert(r@.1 =~= Seq::<TermView>::empty());
        r
    }
}

/// The first-round polynomials of one instance.
#[derive(Debug)]
pub struct SingleEntry {
    /// The evaluations of `Az`.
    pub z_a: LabeledPolynomialWithBasis,
    /// The evaluations of `Bz`.
    pub z_b: LabeledPolynomialWithBasis,
    /// The evaluations of `Cz`.
    pub z_c: LabeledPolynomialWithBasis,
    /// The low-degree extension of `w`.
    pub w_poly: LabeledPolynomial,
    /// The low-degree extension of `Az`.
    pub z_a_poly: LabeledPolynomial,
    /// The low-degree extension of `Bz`.
    pub z_b_poly: LabeledPolynomial,
    /// The low-degree extension of `Cz`.
    pub z_c_poly: LabeledPolynomial,
    /// The multiplication constraint selector polynomial.
    pub s_m_poly: LabeledPolynomial,
    /// The lookup constraint selector polynomial.
    pub s_l_poly: LabeledPolynomial,
    /// The query vector polynomial.
    pub f_poly: LabeledPolynomial,
}

impl SingleEntry {
    /// The polynomials committed to, in order.
    pub open spec fn commit_views(self) -> Seq<WithBasisView> {
        seq![
            as_with_basis(self.w_poly@),
            self.z_a@,
            self.z_b@,
            self.z_c@,
            as_with_basis(self.s_m_poly@),
            as_with_basis(self.s_l_poly@),
            as_with_basis(self.f_poly@),
        ]
    }

    /// The polynomials opened, in order.
    pub open spec fn open_views(self) -> Seq<(PolynomialInfo, Seq<Field>)> {
        seq![
            self.w_poly@,
            self.z_a_poly@,
            self.z_b_poly@,
            self.z_c_poly@,
            self.s_m_poly@,
            self.s_l_poly@,
            self.f_poly@,
        ]
    }

    /// The labels and bounds of all polynomials of the entry.
    pub open spec fn infos(self) -> Seq<PolynomialInfo> {
        seq![
            self.w_poly.info,
            self.z_a.info,
            self.z_b.info,
            self.z_c.info,
            self.z_a_poly.info,
            self.z_b_poly.info,
            self.z_c_poly.info,
            self.s_m_poly.info,
            self.s_l_poly.info,
            self.f_poly.info,
        ]
    }

    /// Every polynomial of the entry is listed in the table as it is.
    pub open spec fn spec_matches_info(self, table: Map<PolynomialLabel, PolynomialInfo>) -> bool {
        forall|k: int| 0 <= k < self.infos().len() ==> info_listed(table, #[trigger] self.infos()[k])
    }

    /// `after` is `before` once its evaluations have been handed out for
    /// committing: the evaluations are gone, everything else is kept.
    pub open spec fn committed_from(after: SingleEntry, before: SingleEntry) -> bool {
        &&& after.z_a@ == (before.z_a.info, Seq::<TermView>::empty())
        &&& after.z_b@ == (before.z_b.info, Seq::<TermView>::empty())
        &&& after.z_c@ == (before.z_c.info, Seq::<TermView>::empty())
        &&& after.w_poly == before.w_poly
        &&& after.z_a_poly == before.z_a_poly
        &&& after.z_b_poly == before.z_b_poly
        &&& after.z_c_poly == before.z_c_poly
        &&& after.s_m_poly == before.s_m_poly
        &&& after.s_l_poly == before.s_l_poly
        &&& after.f_poly == before.f_poly
    }

    /// The polynomials of the first round, for committing: `w`, the
    /// evaluations of `Az`, `Bz` and `Cz` (which are moved out, leaving their
    /// label and bounds behind), and the selector and query polynomials.
    pub fn iter_for_commit(&mut self) -> (r: Vec<LabeledPolynomialWithBasis>)
        ensures
            with_basis_views(r@) == old(self).commit_views(),
            SingleEntry::committed_from(*final(self), *old(self)),
            final(self).infos() == old(self).infos(),
            r@.len() == 7,
            r@[1]@ == old(self).z_a@,
            r@[2]@ == old(self).z_b@,
            r@[3]@ == old(self).z_c@,
    {
        let w_poly = LabeledPolynomialWithBasis::from_polynomial(self.w_poly.copy());

        let mut z_a = LabeledPolynomialWithBasis::emptied(self.z_a.info());
        std::mem::swap(&mut z_a, &mut self.z_a);

        let mut z_b = LabeledPolynomialWithBasis::emptied(self.z_b.info());
        std::mem::swap(&mut z_b, &mut self.z_b);

        let mut z_c = LabeledPolynomialWithBasis::emptied(self.z_c.info());
        std::mem::swap(&mut z_c, &mut self.z_c);

        let s_m_poly = LabeledPolynomialWithBasis::from_polynomial(self.s_m_poly.copy());
        let s_l_poly = LabeledPolynomialWithBasis::from_polynomial(self.s_l_poly.copy());
        let f_poly = LabeledPolynomialWithBasis::from_polynomial(self.f_poly.copy());
        let mut r: Vec<LabeledPolynomialWithBasis> = Vec::new();
        r.push(w_poly);
        r.push(z_a);
        r.push(z_b);
        r.push(z_c);
        r.push(s_m_poly);
        r.push(s_l_poly);
        r.push(f_poly);
        assert(with_basis_views(r@) =~= old(self).commit_views());
        assert(self.infos() =~= old(self).infos());
        assert(r@[1]@ == with_basis_views(r@)[1]);
        assert(r@[2]@ == with_basis_views(r@)[2]);
        assert(r@[3]@ == with_basis_views(r@)[3]);
        r
    }

    /// The polynomials of the first round, for opening: `w`, the
    /// low-degree extensions of `Az`, `Bz` and `Cz`, and the selector and
    /// query polynomials.
    pub fn iter_for_open(&self) -> (r: Vec<&LabeledPolynomial>)
        ensures
            r@.map_values(|p: &LabeledPolynomial| p@) == self.open_views(),
    {
        let mut r: Vec<&LabeledPolynomial> = Vec::new();
        r.push(&self.w_poly);
        r.push(&self.z_a_poly);
        r.push(&self.z_b_poly);
        r.push(&self.z_c_poly);
        r.push(&self.s_m_poly);
        r.push(&self.s_l_poly);
        r.push(&self.f_poly);
        assert(r@.map_values(|p: &LabeledPolynomial| p@) =~= self.open_views());
        r
    }

    /// Whether every polynomial of the entry has the label and bounds under
    /// which the table lists its label.
    pub fn matches_info(&self, info: &BTreeMap<PolynomialLabel, PolynomialInfo>) -> (r: bool)
        ensures
            r == self.spec_matches_info(info@),
            r == (info_listed(info@, self.w_poly.info) && info_listed(info@, self.z_a.info)
                && info_listed(info@, self.z_b.info) && info_listed(info@, self.z_c.info)
                && info_listed(info@, self.z_a_poly.info) && info_listed(info@, self.z_b_poly.info)
                && info_listed(info@, self.z_c_poly.info) && info_listed(info@, self.s_m_poly.info)
                && info_listed(info@, self.s_l_poly.info) && info_listed(info@, self.f_poly.info)),
    {
        let r = info_matches(info, &self.w_poly.info) && info_matches(info, &self.z_a.info)
            && info_matches(info, &self.z_b.info) && info_matches(info, &self.z_c.info)
            && info_matches(info, &self.z_a_poly.info) && info_matches(info, &self.z_b_poly.info)
            && info_matches(info, &self.z_c_poly.info) && info_matches(info, &self.s_m_poly.info)
            && info_matches(info, &self.s_l_poly.info) && info_matches(info, &self.f_poly.info);
        proof {
            if !r {
                let s = self.infos();
                if !info_listed(info@, s[0]) {
                } else if !info_listed(info@, s[1]) {
                } else if !info_listed(info@, s[2]) {
                } else if !info_listed(info@, s[3]) {
                } else if !info_listed(info@, s[4]) {
                } else if !info_listed(info@, s[5]) {
                } else if !info_listed(info@, s[6]) {
                } else if !info_listed(info@, s[7]) {
                } else if !info_listed(info@, s[8]) {
                } else {
                    assert(!info_listed(info@, s[9]));
                }
            }
            lemma_matches_info_fieldwise(*self, info@);
        }
        r
    }
}

/// An entry matches a table exactly when each of its ten polynomials, the
/// evaluations of `Az`, `Bz` and `Cz` and the polynomials `w`, `Az`, `Bz`,
/// `Cz`, `s_m`, `s_l` and `f`, is listed under its label with exactly its
/// label and bounds.
pub proof fn lemma_matches_info_fieldwise(e: SingleEntry, t: Map<PolynomialLabel, PolynomialInfo>)
    ensures
        e.spec_matches_info(t) == (
            (t.contains_key(e.w_poly.info.label) && t[e.w_poly.info.label] == e.w_poly.info)
            && (t.contains_key(e.z_a.info.label) && t[e.z_a.info.label] == e.z_a.info)
            && (t.contains_key(e.z_b.info.label) && t[e.z_b.info.label] == e.z_b.info)
            && (t.contains_key(e.z_c.info.label) && t[e.z_c.info.label] == e.z_c.info)
            && (t.contains_key(e.z_a_poly.info.label) && t[e.z_a_poly.info.label] == e.z_a_poly.info)
            && (t.contains_key(e.z_b_poly.info.label) && t[e.z_b_poly.info.label] == e.z_b_poly.info)
            && (t.contains_key(e.z_c_poly.info.label) && t[e.z_c_poly.info.label] == e.z_c_poly.info)
            && (t.contains_key(e.s_m_poly.info.label) && t[e.s_m_poly.info.label] == e.s_m_poly.info)
            && (t.contains_key(e.s_l_poly.info.label) && t[e.s_l_poly.info.label] == e.s_l_poly.info)
            && (t.contains_key(e.f_poly.info.label) && t[e.f_poly.info.label] == e.f_poly.info)
        ),
{
    let s = e.infos();
    if e.spec_matches_info(t) {
        assert(info_listed(t, s[0]) && info_listed(t, s[1]) && info_listed(t, s[2])
            && info_listed(t, s[3]) && info_listed(t, s[4]) && info_listed(t, s[5])
            && info_listed(t, s[6]) && info_listed(t, s[7]) && info_listed(t, s[8])
            && info_listed(t, s[9]));
    }
}

/// Handing out an entry for committing gives, in order: `w` as a single
/// monomial term of weight one, the evaluations of `Az`, `Bz` and `Cz` exactly
/// as the entry held them, and the selector and query polynomials as single
/// monomial terms of weight one.
pub proof fn lemma_commit_views_content(e: SingleEntry)
    ensures
        e.commit_views().len() == 7,
        e.commit_views()[0] == (e.w_poly.info, seq![(Field { low: 1, high: 0 }, Basis::Monomial, e.w_poly.polynomial@)]),
        e.commit_views()[1] == (e.z_a.info, e.z_a.polynomial@.map_values(|t: BasisTerm| t@)),
        e.commit_views()[2] == (e.z_b.info, e.z_b.polynomial@.map_values(|t: BasisTerm| t@)),
        e.commit_views()[3] == (e.z_c.info, e.z_c.polynomial@.map_values(|t: BasisTerm| t@)),
        e.commit_views()[4] == (e.s_m_poly.info, seq![(Field { low: 1, high: 0 }, Basis::Monomial, e.s_m_poly.polynomial@)]),
        e.commit_views()[5] == (e.s_l_poly.info, seq![(Field { low: 1, high: 0 }, Basis::Monomial, e.s_l_poly.polynomial@)]),
        e.commit_views()[6] == (e.f_poly.info, seq![(Field { low: 1, high: 0 }, Basis::Monomial, e.f_poly.polynomial@)]),
{
}

/// Opening an entry lists, in order, `w`, the polynomials of `Az`, `Bz` and
/// `Cz`, and the selector and query polynomials, each as it is.
pub proof fn lemma_open_views_content(e: SingleEntry)
    ensures
        e.open_views() == seq![
            (e.w_poly.info, e.w_poly.polynomial@),
            (e.z_a_poly.info, e.z_a_poly.polynomial@),
            (e.z_b_poly.info, e.z_b_poly.polynomial@),
            (e.z_c_poly.info, e.z_c_poly.polynomial@),
            (e.s_m_poly.info, e.s_m_poly.polynomial@),
            (e.s_l_poly.info, e.s_l_poly.polynomial@),
            (e.f_poly.info, e.f_poly.polynomial@),
        ],
{
}

/// Handing out a single entry's polynomials for committing leaves its labels
/// and bounds, and so its agreement with any table, as they were.
pub proof fn lemma_commit_keeps_matches(
    before: SingleEntry,
    after: SingleEntry,
    table: Map<PolynomialLabel, PolynomialInfo>,
)
    requires
        SingleEntry::committed_from(after, before),
    ensures
        after.spec_matches_info(table) == before.spec_matches_info(table),
{
    assert(after.infos() =~= before.infos());
}

/// The committed polynomials of a sequence of entries, entry by entry.
pub open spec fn flat_commit_views(b: Seq<SingleEntry>) -> Seq<WithBasisView>
    decreases b.len(),
{
    if b.len() == 0 {
        seq![]
    } else {
        flat_commit_views(b.drop_last()) + b.last().commit_views()
    }
}

/// The opened polynomials of a sequence of entries, entry by entry.
pub open spec fn flat_open_views(b: Seq<SingleEntry>) -> Seq<(PolynomialInfo, Seq<Field>)>
    decreases b.len(),
{
    if b.len() == 0 {
        seq![]
    } else {
        flat_open_views(b.drop_last()) + b.last().open_views()
    }
}

/// The views of a sequence of references to polynomials.
pub open spec fn polynomial_views(s: Seq<&LabeledPolynomial>) -> Seq<(PolynomialInfo, Seq<Field>)> {
    s.map_values(|p: &LabeledPolynomial| p@)
}

/// The first set of prover oracles.
#[derive(Debug)]
pub struct FirstOracles {
    pub batches: Vec<SingleEntry>,
    /// The sum-check hiding polynomial.
    pub mask_poly: Option<LabeledPolynomial>,
}

impl FirstOracles {
    /// The hiding polynomial, if any, for committing.
    pub open spec fn mask_commit_views(self) -> Seq<WithBasisView> {
        match self.mask_poly {
            Some(p) => seq![as_with_basis(p@)],
            None => seq![],
        }
    }

    /// The hiding polynomial, if any, for opening.
    pub open spec fn mask_open_views(self) -> Seq<(PolynomialInfo, Seq<Field>)> {
        match self.mask_poly {
            Some(p) => seq![p@],
            None => seq![],
        }
    }

    /// Every entry matches the table, and so does the hiding polynomial if there is one.
    pub open spec fn spec_matches_info(self, table: Map<PolynomialLabel, PolynomialInfo>) -> bool {
        &&& forall|k: int|
            0 <= k < self.batches@.len() ==> (#[trigger] self.batches@[k]).spec_matches_info(table)
        &&& match self.mask_poly {
            Some(p) => info_listed(table, p.info),
            None => true,
        }
    }

    /// Iterates over the polynomials output by the prover in the first round,
    /// for committing: those of each entry in turn, then the hiding polynomial.
    /// The entries give up their evaluations.
    pub fn iter_for_commit(&mut self) -> (r: Vec<LabeledPolynomialWithBasis>)
        ensures
            with_basis_views(r@) == flat_commit_views(old(self).batches@) + old(
                self,
            ).mask_commit_views(),
            final(self).batches@.len() == old(self).batches@.len(),
            forall|k: int|
                0 <= k < old(self).batches@.len() ==> SingleEntry::committed_from(
                    #[trigger] final(self).batches@[k],
                    old(self).batches@[k],
                ),
            final(self).mask_poly == old(self).mask_poly,
            forall|table: Map<PolynomialLabel, PolynomialInfo>|
                #[trigger] final(self).spec_matches_info(table) == old(self).spec_matches_info(table),
    {
        let ghost before = self.batches@;
        let mut rest: Vec<SingleEntry> = Vec::new();
        std::mem::swap(&mut rest, &mut self.batches);
        let mut done: Vec<SingleEntry> = Vec::new();
        let mut t: Vec<LabeledPolynomialWithBasis> = Vec::new();
        assert(before.subrange(0, 0) =~= Seq::<SingleEntry>::empty());
        assert(with_basis_views(t@) =~= Seq::<WithBasisView>::empty());
        assert(rest@ =~= before.subrange(0, before.len() as int));
        while rest.len() > 0
            invariant
                done@.len() + rest@.len() == before.len(),
                rest@ == before.subrange(done@.len() as int, before.len() as int),
                forall|k: int|
                    0 <= k < done@.len() ==> SingleEntry::committed_from(
                        #[trigger] done@[k],
                        before[k],
                    ),
                with_basis_views(t@) == flat_commit_views(before.subrange(0, done@.len() as int)),
            decreases rest.len(),
        {
            let ghost k = done@.len() as int;
            let mut entry = rest.remove(0);
            assert(entry == before[k]);
            let mut part = entry.iter_for_commit();
            let ghost t_before = t@;
            t.append(&mut part);
            done.push(entry);
            proof {
                let sub = before.subrange(0, k + 1);
                assert(sub.drop_last() =~= before.subrange(0, k));
                assert(sub.last() == before[k]);
                assert(with_basis_views(t@) =~= with_basis_views(t_before) + before[k].commit_views());
                assert(rest@ =~= before.subrange(k + 1, before.len() as int));
            }
        }
        assert(before.subrange(0, before.len() as int) =~= before);
        self.batches = done;
        match &self.mask_poly {
            Some(p) => {
                let ghost t_before = t@;
                t.push(LabeledPolynomialWithBasis::from_polynomial(p.copy()));
                assert(with_basis_views(t@) =~= with_basis_views(t_before) + self.mask_commit_views());
            },
            None => {
                assert(with_basis_views(t@) =~= with_basis_views(t@) + self.mask_commit_views());
            },
        }
        proof {
            assert forall|table: Map<PolynomialLabel, PolynomialInfo>|
                #[trigger] self.spec_matches_info(table) == old(self).spec_matches_info(table) by {
                assert forall|k: int| 0 <= k < before.len() implies (#[trigger] self.batches@[k]).spec_matches_info(
                    table,
                ) == before[k].spec_matches_info(table) by {
                    lemma_commit_keeps_matches(before[k], self.batches@[k], table);
                }
                if self.spec_matches_info(table) {
                    assert forall|k: int| 0 <= k < before.len() implies (
                    #[trigger] before[k]).spec_matches_info(table) by {
                        assert(self.batches@[k].spec_matches_info(table));
                    }
                }
                if old(self).spec_matches_info(table) {
                    assert forall|k: int| 0 <= k < self.batches@.len() implies (
                    #[trigger] self.batches@[k]).spec_matches_info(table) by {
                        assert(before[k].spec_matches_info(table));
                    }
                }
            }
        }
        t
    }

    /// Iterates over the polynomials output by the prover in the first round,
    /// for opening: those of each entry in turn, then the hiding polynomial.
    pub fn iter_for_open(&self) -> (r: Vec<&LabeledPolynomial>)
        ensures
            polynomial_views(r@) == flat_open_views(self.batches@) + self.mask_open_views(),
    {
        let mut r: Vec<&LabeledPolynomial> = Vec::new();
        let mut k: usize = 0;
        assert(self.batches@.subrange(0, 0) =~= Seq::<SingleEntry>::empty());
        assert(polynomial_views(r@) =~= Seq::<(PolynomialInfo, Seq<Field>)>::empty());
        while k < self.batches.len()
            invariant
                k <= self.batches@.len(),
                polynomial_views(r@) == flat_open_views(self.batches@.subrange(0, k as int)),
            decreases self.batches.len() - k,
        {
            let mut part = self.batches[k].iter_for_open();
            let ghost r_before = r@;
            r.append(&mut part);
            proof {
                let sub = self.batches@.subrange(0, k + 1);
                assert(sub.drop_last() =~= self.batches@.subrange(0, k as int));
                assert(polynomial_views(r@) =~= polynomial_views(r_before)
                    + self.batches@[k as int].open_views());
            }
            k += 1;
        }
        assert(self.batches@.subrange(0, self.batches.len() as int) =~= self.batches@);
        match &self.mask_poly {
            Some(p) => {
                let ghost r_before = r@;
                r.push(p);
                assert(polynomial_views(r@) =~= polynomial_views(r_before) + self.mask_open_views());
            },
            None => {
                assert(polynomial_views(r@) =~= polynomial_views(r@) + self.mask_open_views());
            },
        }
        r
    }

    /// Whether every polynomial of the first round has the label and bounds
    /// under which the table lists its label.
    pub fn matches_info(&self, info: &BTreeMap<PolynomialLabel, PolynomialInfo>) -> (r: bool)
        ensures
            r == self.spec_matches_info(info@),
    {
        let mut all = true;
        let mut k: usize = 0;
        while k < self.batches.len()
            invariant
                k <= self.batches@.len(),
                all == forall|j: int| 0 <= j < k ==> (#[trigger] self.batches@[j]).spec_matches_info(info@),
            decreases self.batches.len() - k,
        {
            all = all && self.batches[k].matches_info(info);
            k += 1;
        }
        all && match &self.mask_poly {
            Some(p) => info_matches(info, &p.info),
            None => true,
        }
    }
}

/// The second set of prover oracles.
#[derive(Debug)]
pub struct SecondOracles {
    /// The polynomial `g` resulting from the lincheck sumcheck.
    pub g_1: LabeledPolynomial,
}

impl SecondOracles {
    /// Iterates over the polynomials output by the prover in the second round.
    pub fn iter(&self) -> (r: Vec<&LabeledPolynomial>)
        ensures
            polynomial_views(r@) == seq![self.g_1@],
    {
        let mut r: Vec<&LabeledPolynomial> = Vec::new();
        r.push(&self.g_1);
        assert(polynomial_views(r@) =~= seq![self.g_1@]);
        r
    }

    /// Whether `g` has the label and bounds under which the table lists its label.
    pub fn matches_info(&self, info: &BTreeMap<PolynomialLabel, PolynomialInfo>) -> (r: bool)
        ensures
            r == info_listed(info@, self.g_1.info),
    {
        info_matches(info, &self.g_1.info)
    }
}

/// The third set of prover oracles.
#[derive(Debug)]
pub struct ThirdOracles {
    /// The polynomial `h` resulting from combining the lincheck sumcheck and the rowcheck.
    pub h_1: LabeledPolynomial,
}

impl ThirdOracles {
    /// Iterates over the polynomials output by the prover in the third round.
    pub fn iter(&self) -> (r: Vec<&LabeledPolynomial>)
        ensures
            polynomial_views(r@) == seq![self.h_1@],
    {
        let mut r: Vec<&LabeledPolynomial> = Vec::new();
        r.push(&self.h_1);
        assert(polynomial_views(r@) =~= seq![self.h_1@]);
        r
    }

    /// Whether `h` has the label and bounds under which the table lists its label.
    pub fn matches_info(&self, info: &BTreeMap<PolynomialLabel, PolynomialInfo>) -> (r: bool)
        ensures
            r == info_listed(info@, self.h_1.info),
    {
        info_matches(info, &self.h_1.info)
    }
}

/// The fourth set of prover oracles.
#[derive(Debug)]
pub struct FourthOracles {
    /// The polynomial `g_a` resulting from the second sumcheck.
    pub g_a: LabeledPolynomial,
    /// The polynomial `g_b` resulting from the second sumcheck.
    pub g_b: LabeledPolynomial,
    /// The polynomial `g_c` resulting from the second sumcheck.
    pub g_c: LabeledPolynomial,
}

impl FourthOracles {
    /// Iterates over the polynomials output by the prover in the fourth round.
    pub fn iter(&self) -> (r: Vec<&LabeledPolynomial>)
        ensures
            polynomial_views(r@) == seq![self.g_a@, self.g_b@, self.g_c@],
    {
        let mut r: Vec<&LabeledPolynomial> = Vec::new();
        r.push(&self.g_a);
        r.push(&self.g_b);
        r.push(&self.g_c);
        assert(polynomial_views(r@) =~= seq![self.g_a@, self.g_b@, self.g_c@]);
        r
    }

    /// Whether `g_a`, `g_b` and `g_c` have the labels and bounds under which
    /// the table lists their labels.
    pub fn matches_info(&self, info: &BTreeMap<PolynomialLabel, PolynomialInfo>) -> (r: bool)
        ensures
            r == (info_listed(info@, self.g_a.info) && info_listed(info@, self.g_b.info)
                && info_listed(info@, self.g_c.info)),
    {
        info_matches(info, &self.g_a.info) && info_matches(info, &self.g_b.info) && info_matches(
            info,
            &self.g_c.info,
        )
    }
}

/// The fifth set of prover oracles.
#[derive(Debug)]
pub struct FifthOracles {
    /// The polynomial `h_2` resulting from the second sumcheck.
    pub h_2: LabeledPolynomial,
}

impl FifthOracles {
    /// Iterates over the polynomials output by the prover in the fifth round.
    pub fn iter(&self) -> (r: Vec<&LabeledPolynomial>)
        ensures
            polynomial_views(r@) == seq![self.h_2@],
    {
        let mut r: Vec<&LabeledPolynomial> = Vec::new();
        r.push(&self.h_2);
        assert(polynomial_views(r@) =~= seq![self.h_2@]);
        r
    }

    /// Whether `h_2` has the label and bounds under which the table lists its label.
    pub fn matches_info(&self, info: &BTreeMap<PolynomialLabel, PolynomialInfo>) -> (r: bool)
        ensures
            r == info_listed(info@, self.h_2.info),
    {
        info_matches(info, &self.h_2.info)
    }
}

} // verus!
