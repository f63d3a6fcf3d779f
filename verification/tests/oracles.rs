use lib::field::Field;
use lib::oracles::{
    Basis, BasisTerm, FifthOracles, FirstOracles, FourthOracles, LabeledPolynomial,
    LabeledPolynomialWithBasis, PolynomialInfo, SecondOracles, SingleEntry, ThirdOracles,
};
use std::collections::BTreeMap;

fn fe(v: u128) -> Field {
    Field { low: v, high: 0 }
}

fn info(label: u64) -> PolynomialInfo {
    PolynomialInfo { label, degree_bound: None, hiding_bound: Some(1) }
}

fn poly(label: u64, coeffs: &[u128]) -> LabeledPolynomial {
    LabeledPolynomial { info: info(label), polynomial: coeffs.iter().map(|c| fe(*c)).collect() }
}

fn evals(label: u64, values: &[u128]) -> LabeledPolynomialWithBasis {
    LabeledPolynomialWithBasis {
        polynomial: vec![BasisTerm {
            weight: fe(1),
            basis: Basis::Lagrange,
            elements: values.iter().map(|c| fe(*c)).collect(),
        }],
        info: info(label),
    }
}

/// An entry whose labels start at `base`.
fn entry(base: u64) -> SingleEntry {
    SingleEntry {
        z_a: evals(base + 1, &[1, 2]),
        z_b: evals(base + 2, &[3, 4]),
        z_c: evals(base + 3, &[5, 6]),
        w_poly: poly(base, &[7]),
        z_a_poly: poly(base + 4, &[8]),
        z_b_poly: poly(base + 5, &[9]),
        z_c_poly: poly(base + 6, &[10]),
        s_m_poly: poly(base + 7, &[11]),
        s_l_poly: poly(base + 8, &[12]),
        f_poly: poly(base + 9, &[13]),
    }
}

fn table(labels: std::ops::Range<u64>) -> BTreeMap<u64, PolynomialInfo> {
    labels.map(|l| (l, info(l))).collect()
}

#[test]
fn single_entry_commit_order_and_emptied_evaluations() {
    let mut e = entry(0);
    let committed = e.iter_for_commit();
    let labels: Vec<u64> = committed.iter().map(|p| p.info().label).collect();
    assert_eq!(labels, vec![0, 1, 2, 3, 7, 8, 9]);
    // The polynomials by coefficients become single monomial terms.
    assert_eq!(committed[0].polynomial.len(), 1);
    assert_eq!(committed[0].polynomial[0].basis, Basis::Monomial);
    assert_eq!(committed[0].polynomial[0].weight, fe(1));
    assert_eq!(committed[0].polynomial[0].elements, vec![fe(7)]);
    // The evaluations move out, whole.
    assert_eq!(committed[1].polynomial[0].elements, vec![fe(1), fe(2)]);
    assert_eq!(committed[1].polynomial[0].basis, Basis::Lagrange);
    assert!(e.z_a.polynomial.is_empty());
    assert!(e.z_b.polynomial.is_empty());
    assert!(e.z_c.polynomial.is_empty());
    assert_eq!(e.z_a.info(), info(1));
    // A second round hands out empty evaluations.
    let again = e.iter_for_commit();
    assert!(again[1].polynomial.is_empty());
    assert_eq!(again[1].info(), info(1));
}

#[test]
fn single_entry_open_order() {
    let e = entry(0);
    let opened: Vec<u64> = e.iter_for_open().iter().map(|p| p.label()).collect();
    assert_eq!(opened, vec![0, 4, 5, 6, 7, 8, 9]);
}

#[test]
fn single_entry_matches_info() {
    let e = entry(0);
    assert!(e.matches_info(&table(0..10)));
    assert!(!e.matches_info(&table(0..9)));
    let mut wrong = table(0..10);
    wrong.insert(5, PolynomialInfo { label: 5, degree_bound: Some(3), hiding_bound: Some(1) });
    assert!(!e.matches_info(&wrong));
}

#[test]
fn first_oracles_commit_then_open() {
    let mut first = FirstOracles { batches: vec![entry(0), entry(100)], mask_poly: Some(poly(500, &[1, 2, 3])) };
    let t = table(0..10).into_iter().chain(table(100..110)).chain(table(500..501)).collect();
    assert!(first.matches_info(&t));
    let committed: Vec<u64> = first.iter_for_commit().iter().map(|p| p.info().label).collect();
    assert_eq!(committed, vec![0, 1, 2, 3, 7, 8, 9, 100, 101, 102, 103, 107, 108, 109, 500]);
    // Committing leaves the labels and bounds, and so the match, as they were.
    assert!(first.matches_info(&t));
    assert!(first.batches[1].z_c.polynomial.is_empty());
    let opened: Vec<u64> = first.iter_for_open().iter().map(|p| p.label()).collect();
    assert_eq!(opened, vec![0, 4, 5, 6, 7, 8, 9, 100, 104, 105, 106, 107, 108, 109, 500]);
}

#[test]
fn first_oracles_without_mask() {
    let mut first = FirstOracles { batches: vec![entry(0)], mask_poly: None };
    assert_eq!(first.iter_for_commit().len(), 7);
    assert_eq!(first.iter_for_open().len(), 7);
    assert!(first.matches_info(&table(0..10)));
    let empty = FirstOracles { batches: vec![], mask_poly: None };
    assert!(empty.matches_info(&BTreeMap::new()));
    assert!(empty.iter_for_open().is_empty());
    let masked = FirstOracles { batches: vec![], mask_poly: Some(poly(7, &[])) };
    assert!(!masked.matches_info(&table(0..7)));
}

#[test]
fn later_rounds() {
    let second = SecondOracles { g_1: poly(1, &[1]) };
    assert_eq!(second.iter().len(), 1);
    assert!(second.matches_info(&table(0..2)));
    assert!(!second.matches_info(&table(2..3)));
    let third = ThirdOracles { h_1: poly(2, &[]) };
    assert_eq!(third.iter()[0].label(), 2);
    assert!(third.matches_info(&table(2..3)));
    let fourth = FourthOracles { g_a: poly(3, &[]), g_b: poly(4, &[]), g_c: poly(5, &[]) };
    let labels: Vec<u64> = fourth.iter().iter().map(|p| p.label()).collect();
    assert_eq!(labels, vec![3, 4, 5]);
    assert!(fourth.matches_info(&table(3..6)));
    assert!(!fourth.matches_info(&table(3..5)));
    let fifth = FifthOracles { h_2: poly(6, &[4]) };
    assert_eq!(fifth.iter()[0].polynomial, vec![fe(4)]);
    assert!(!fifth.matches_info(&table(0..6)));
}
