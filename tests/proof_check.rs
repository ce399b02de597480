use i64_air::air::{constraint_values, eval_add, eval_constraints, fold_constraints, LOG_QUOTIENT_DEGREE};
use i64_air::domain::{base_exp, ext_exp_power_of_2, Coset};
use i64_air::field::{Ext, P};
use p3_baby_bear::BabyBear;
use p3_field::extension::BinomialExtensionField;
use p3_field::{AbstractExtensionField, AbstractField, Field, PrimeField32};

type F4 = BinomialExtensionField<BabyBear, 4>;

fn into_field(e: Ext) -> F4 {
    F4::from_base_slice(&[e.c0, e.c1, e.c2, e.c3].map(BabyBear::from_canonical_u32))
}

fn back(x: F4) -> Ext {
    let s: &[BabyBear] = x.as_base_slice();
    Ext {
        c0: s[0].as_canonical_u32(),
        c1: s[1].as_canonical_u32(),
        c2: s[2].as_canonical_u32(),
        c3: s[3].as_canonical_u32(),
    }
}

fn ext_mul(a: Ext, b: Ext) -> Ext {
    back(into_field(a) * into_field(b))
}

fn ext_sub(a: Ext, b: Ext) -> Ext {
    back(into_field(a) - into_field(b))
}

fn ext_add(a: Ext, b: Ext) -> Ext {
    back(into_field(a) + into_field(b))
}

fn ext_inverse(a: Ext) -> Ext {
    back(into_field(a).inverse())
}
use i64_air::layout::BIN_OP_ROW_SIZE;
use i64_air::proof_check::{
    check_ood, check_shape, chunk_weights, opening_claims, quotient_chunk_domains, OpenedValues,
    StarkProof, VerificationError, VerifierAction, VerifierEvent, VerifierPhase, VerifierSession,
};

fn e(c0: u32, c1: u32, c2: u32, c3: u32) -> Ext {
    Ext { c0, c1, c2, c3 }
}

fn zero_proof(degree_bits: usize) -> StarkProof {
    StarkProof {
        opened_values: OpenedValues {
            trace_local: vec![Ext::zero(); BIN_OP_ROW_SIZE],
            trace_next: vec![Ext::zero(); BIN_OP_ROW_SIZE],
            quotient_chunks: vec![vec![Ext::zero(); 4]; 2],
        },
        degree_bits,
    }
}

#[test]
fn extension_arithmetic() {
    let x = e(0, 1, 0, 0);
    let x3 = e(0, 0, 0, 1);
    // (1 + 5x^3) + x^3 * x = 1 + 11 + 5x^3
    assert_eq!(fold_constraints(&vec![e(1, 0, 0, 5), x3], x), e(12, 0, 0, 5));
    // (x^3 * x^3) wraps through x^4 = 11
    assert_eq!(fold_constraints(&vec![Ext::zero(), x3], x3), e(0, 0, 11, 0));
    // coefficient-wise addition mod P
    assert_eq!(
        fold_constraints(&vec![e(P - 1, 2, 0, 5), e(1, P - 1, 0, 5)], Ext::one()),
        e(0, 1, 0, 10)
    );
    // (x^2)^(2^1) = x^4 = 11
    assert_eq!(ext_exp_power_of_2(e(0, 0, 1, 0), 1), e(11, 0, 0, 0));
    assert_eq!(ext_exp_power_of_2(e(2, 0, 0, 0), 3), e(256, 0, 0, 0));
    assert_eq!(base_exp(3, 4), 81);
    assert_eq!(base_exp(P - 1, 3), P - 1);
}

#[test]
fn coset_construction() {
    let t = Coset::natural_domain_for_degree(3);
    assert_eq!(t, Coset { log_n: 3, shift: 1 });
    assert_eq!(t.first_point(), 1);
    let q = t.create_disjoint_domain(4);
    assert_eq!(q, Coset { log_n: 4, shift: 31 });
    let chunks = q.split_domains(1);
    assert_eq!(chunks, vec![Coset { log_n: 3, shift: 31 }, Coset { log_n: 3, shift: 48486297 }]);
    assert_eq!(quotient_chunk_domains(3), chunks);
    assert_eq!(LOG_QUOTIENT_DEGREE, 1);
}

#[test]
fn vanishing_polynomial_and_successor() {
    let t = Coset::natural_domain_for_degree(3);
    let g = 1592366214u32;
    // g generates the subgroup of order 8
    assert_eq!(t.next_point(Ext::one()), e(g, 0, 0, 0));
    assert_eq!(t.zp_at_point(e(g, 0, 0, 0)), Ext::zero());
    assert_eq!(t.zp_at_point(Ext::one()), Ext::zero());
    // 2^8 - 1
    assert_eq!(t.zp_at_point(e(2, 0, 0, 0)), e(255, 0, 0, 0));
    let s = Coset { log_n: 1, shift: 2 };
    // (4 / 2)^2 - 1
    assert_eq!(s.zp_at_point(e(4, 0, 0, 0)), e(3, 0, 0, 0));
}

#[test]
fn selectors_off_and_on_the_domain() {
    let t = Coset::natural_domain_for_degree(3);
    assert!(t.selectors_at_point(Ext::one()).is_none());
    assert!(t.selectors_at_point(e(1592366214, 0, 0, 0)).is_none());
    let zeta = e(5, 6, 7, 8);
    let sels = t.selectors_at_point(zeta).unwrap();
    assert_eq!(ext_mul(sels.inv_zeroifier, t.zp_at_point(zeta)), Ext::one());
    assert_eq!(sels.inv_zeroifier, ext_inverse(ext_sub(back(into_field(zeta).exp_power_of_2(3)), Ext::one())));
    let g_inv = ext_inverse(e(1592366214, 0, 0, 0));
    assert_eq!(sels.is_transition, ext_sub(zeta, g_inv));
    assert_eq!(
        ext_mul(sels.is_first_row, ext_sub(zeta, Ext::one())),
        t.zp_at_point(zeta)
    );
}

#[test]
fn folding_is_horner() {
    let alpha = e(2, 0, 0, 0);
    let terms = vec![e(1, 0, 0, 0), e(3, 0, 0, 0), e(5, 0, 0, 0)];
    // 1 + 3 * 2 + 5 * 2^2
    assert_eq!(fold_constraints(&terms, alpha), e(27, 0, 0, 0));
    assert_eq!(fold_constraints(&vec![], alpha), Ext::zero());
}

#[test]
fn constraints_vanish_on_an_honest_add_row() {
    // the row of 65535 + 4294901761, lifted into the extension
    let left: i64 = 65535;
    let right: i64 = 4294901761;
    let row = i64_air::math_ops::populate_add_trace_record(
        i64_air::math_ops::I64MathOps::Add,
        1,
        left,
        right,
        left.wrapping_add(right),
    );
    let local: Vec<Ext> = row.iter().map(|&v| Ext::from_base(v)).collect();
    let mut terms = Vec::new();
    eval_add(&local, ext_add(local[1], local[2]), &mut terms);
    assert_eq!(terms.len(), 30);
    assert!(terms.iter().all(|t| *t == Ext::zero()));
    // a wrong carry bit breaks it
    let mut bad = local.clone();
    bad[35] = Ext::zero();
    let mut bad_terms = Vec::new();
    eval_add(&bad, ext_add(bad[1], bad[2]), &mut bad_terms);
    assert!(bad_terms.iter().any(|t| *t != Ext::zero()));
}

#[test]
fn constraint_order_and_count() {
    let local = vec![Ext::zero(); BIN_OP_ROW_SIZE];
    let mut next = vec![Ext::zero(); BIN_OP_ROW_SIZE];
    next[0] = Ext::one();
    let t = Coset::natural_domain_for_degree(3);
    let sels = t.selectors_at_point(e(5, 6, 7, 8)).unwrap();
    let pv: Vec<u32> = (0..40).collect();
    let values = constraint_values(&local, &next, &pv, sels);
    // 30 arithmetic, 1 transition, 32 public values
    assert_eq!(values.len(), 63);
    assert_eq!(values[31 + 3], ext_mul(sels.is_first_row, e(3, 0, 0, 0)));
    assert_eq!(values[30], Ext::zero());
    let folded = eval_constraints(&local, &next, &pv, sels, e(9, 0, 0, 0));
    assert_eq!(folded, fold_constraints(&values, e(9, 0, 0, 0)));
}

#[test]
fn limb_zero_is_weighed_by_alpha_to_the_zero() {
    // a real Add row of zero bytes whose carry slot 6 holds 2
    let mut local = vec![Ext::zero(); BIN_OP_ROW_SIZE];
    local[1] = Ext::one();
    local[35 + 6] = e(2, 0, 0, 0);
    let next = vec![Ext::zero(); BIN_OP_ROW_SIZE];
    let t = Coset::natural_domain_for_degree(3);
    let sels = t.selectors_at_point(e(5, 6, 7, 8)).unwrap();
    let values = constraint_values(&local, &next, &vec![], sels);
    // limb 0: overflow, carry => 256, no carry => 0, carry bit
    assert_eq!(&values[..4], &[Ext::zero(); 4]);
    // limb 6's carry bit: 2 * (2 - 1)
    assert_eq!(values[4 * 6 + 3], e(2, 0, 0, 0));
    // limb 7: 2 + 0 - 0 overflows by 2: 2 * (2 - 256)
    assert_eq!(values[28], e(((2 * (P as u64 - 254)) % P as u64) as u32, 0, 0, 0));
    assert_eq!(eval_constraints(&local, &next, &vec![], sels, Ext::zero()), Ext::zero());
    assert_eq!(eval_constraints(&local, &next, &vec![], sels, Ext::one()), fold_constraints(&values, Ext::one()));
}

#[test]
fn shape_check_accepts_the_fixed_shape() {
    assert_eq!(check_shape(&zero_proof(3)), Ok(()));
}

#[test]
fn shape_check_rejects_wrong_width() {
    let mut p = zero_proof(3);
    p.opened_values.trace_local.pop();
    assert_eq!(check_shape(&p), Err(VerificationError::InvalidProofShape));
    let mut p = zero_proof(3);
    p.opened_values.trace_next.push(Ext::zero());
    assert_eq!(check_shape(&p), Err(VerificationError::InvalidProofShape));
}

#[test]
fn shape_check_rejects_wrong_chunks_and_values() {
    let mut p = zero_proof(3);
    p.opened_values.quotient_chunks.pop();
    assert_eq!(check_shape(&p), Err(VerificationError::InvalidProofShape));
    let mut p = zero_proof(3);
    p.opened_values.quotient_chunks[1].pop();
    assert_eq!(check_shape(&p), Err(VerificationError::InvalidProofShape));
    let mut p = zero_proof(3);
    p.opened_values.trace_local[4] = e(P, 0, 0, 0);
    assert_eq!(check_shape(&p), Err(VerificationError::InvalidProofShape));
    assert_eq!(check_shape(&zero_proof(27)), Err(VerificationError::InvalidProofShape));
}

#[test]
fn ood_check_compares_quotient_with_constraints() {
    let zeta = e(5, 6, 7, 8);
    let alpha = e(3, 1, 4, 1);
    let pv: Vec<u32> = vec![];
    let mut p = zero_proof(3);
    // all-zero rows violate the counter transition
    assert_eq!(check_ood(&p, &pv, alpha, zeta), Err(VerificationError::OodEvaluationMismatch));
    // open the first chunk at exactly the value that balances the identity
    let t = Coset::natural_domain_for_degree(3);
    let sels = t.selectors_at_point(zeta).unwrap();
    let folded = eval_constraints(&p.opened_values.trace_local, &p.opened_values.trace_next, &pv, sels, alpha);
    let target = ext_mul(folded, sels.inv_zeroifier);
    let weights = chunk_weights(&quotient_chunk_domains(3), zeta).unwrap();
    assert_eq!(weights.len(), 2);
    p.opened_values.quotient_chunks[0][0] = ext_mul(target, ext_inverse(weights[0]));
    assert_eq!(check_ood(&p, &pv, alpha, zeta), Ok(()));
    // the same value opened on the second basis coordinate, scaled by x^-1
    let mut other = zero_proof(3);
    other.opened_values.quotient_chunks[1][1] =
        ext_mul(target, ext_inverse(ext_mul(weights[1], e(0, 1, 0, 0))));
    assert_eq!(check_ood(&other, &pv, alpha, zeta), Ok(()));
    // flipping one opened value breaks it
    p.opened_values.trace_next[0] = e(1, 0, 0, 0);
    assert_eq!(check_ood(&p, &pv, alpha, zeta), Err(VerificationError::OodEvaluationMismatch));
}

#[test]
fn opening_claims_name_domains_and_points() {
    let p = zero_proof(3);
    let zeta = e(5, 6, 7, 8);
    let c = opening_claims(&p, zeta);
    assert_eq!(c.trace_domain, Coset { log_n: 3, shift: 1 });
    assert_eq!(c.zeta, zeta);
    assert_eq!(c.zeta_next, ext_mul(zeta, e(1592366214, 0, 0, 0)));
    assert_eq!(c.quotient_chunk_domains, quotient_chunk_domains(3));
}

#[test]
fn session_rejects_bad_shape_first() {
    let mut p = zero_proof(3);
    p.opened_values.trace_local.pop();
    let mut s = VerifierSession::new();
    let a = s.step(&p, &vec![], VerifierEvent::Begin);
    assert!(matches!(a, VerifierAction::Done(Err(VerificationError::InvalidProofShape))));
    assert_eq!(s.phase, VerifierPhase::Finished);
    assert!(!s.accepts(&VerifierEvent::Begin));
}

#[test]
fn session_runs_the_protocol_in_order() {
    let p = zero_proof(3);
    let pv: Vec<u32> = vec![];
    let mut s = VerifierSession::new();
    assert!(matches!(s.step(&p, &pv, VerifierEvent::Begin), VerifierAction::ObserveTraceCommitment));
    assert!(!s.accepts(&VerifierEvent::Sampled(Ext::one())));
    assert!(matches!(s.step(&p, &pv, VerifierEvent::Observed), VerifierAction::SampleAlpha));
    assert!(!s.accepts(&VerifierEvent::Sampled(e(P, 0, 0, 0))));
    let alpha = e(3, 1, 4, 1);
    assert!(matches!(s.step(&p, &pv, VerifierEvent::Sampled(alpha)), VerifierAction::ObserveQuotientCommitment));
    assert_eq!(s.alpha, alpha);
    assert!(matches!(s.step(&p, &pv, VerifierEvent::Observed), VerifierAction::SampleZeta));
    let zeta = e(5, 6, 7, 8);
    match s.step(&p, &pv, VerifierEvent::Sampled(zeta)) {
        VerifierAction::VerifyOpenings(c) => assert_eq!(c.zeta, zeta),
        _ => panic!("expected the opening claims"),
    }
    let mut s2 = VerifierSession { phase: s.phase, alpha: s.alpha, zeta: s.zeta };
    assert!(matches!(
        s.step(&p, &pv, VerifierEvent::OpeningsChecked(false)),
        VerifierAction::Done(Err(VerificationError::InvalidOpeningArgument))
    ));
    assert!(matches!(
        s2.step(&p, &pv, VerifierEvent::OpeningsChecked(true)),
        VerifierAction::Done(Err(VerificationError::OodEvaluationMismatch))
    ));
}
