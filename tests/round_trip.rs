use p3_air::{Air, AirBuilder, AirBuilderWithPublicValues, BaseAir};
use p3_baby_bear::BabyBear;
use p3_challenger::{CanObserve, CanSample, FieldChallenger};
use p3_commit::{Pcs, TwoAdicMultiplicativeCoset};
use p3_field::{AbstractExtensionField, AbstractField, Field, PrimeField32};
use p3_matrix::dense::RowMajorMatrix;
use p3_matrix::Matrix;
use p3_uni_stark::{prove, verify, Proof, StarkConfig};
use sp1_stark::{
    inner_fri_config, inner_perm, InnerChallenge, InnerChallenger, InnerCompress, InnerDft,
    InnerDigestHash, InnerHash, InnerPcs, InnerPcsProof, InnerValMmcs,
};

use i64_air::domain::Coset;
use i64_air::field::{Ext, P};
use i64_air::layout::{
    BIN_OP_ROW_SIZE, CARRY, CARRY_START, DIGEST_LEN, DIGEST_START, LEFT_ARG, RESULT, RIGHT_ARG,
};
use i64_air::math_ops::{add_op, sub_op};
use i64_air::prog_exec::{
    dummy_32b_public_values, dummy_public_values_hash, generate_program_trace, to_field_values,
    Cli, ProgExec,
};
use i64_air::proof_check::{
    OpenedValues, OpeningClaims, StarkProof, VerificationError, VerifierAction, VerifierEvent,
    VerifierSession,
};
use i64_air::register::init_regs;

type Config = StarkConfig<InnerPcs, InnerChallenge, InnerChallenger>;

struct ProgAir;

impl<F: Field> BaseAir<F> for ProgAir {
    fn width(&self) -> usize {
        BIN_OP_ROW_SIZE
    }
}

fn eval_add<AB: AirBuilder>(builder: &mut AB, local: &[AB::Var], is_real: AB::Expr) {
    let base = AB::Expr::from_canonical_u32(256);
    let mut when_is_real = builder.when(is_real.clone());
    let overflow = |k: usize| -> AB::Expr {
        let o = local[LEFT_ARG + k] + local[RIGHT_ARG + k] - local[RESULT + k];
        if k == 0 { o } else { o + local[CARRY_START + k - 1] }
    };
    when_is_real.assert_bool(is_real.clone());
    when_is_real.assert_zero(overflow(7) * (overflow(7) - base.clone()));
    for k in (0..CARRY).rev() {
        let carry = local[CARRY_START + k];
        when_is_real.assert_bool(carry);
        when_is_real.assert_zero((carry - AB::Expr::one()) * overflow(k));
        when_is_real.assert_zero(carry * (overflow(k) - base.clone()));
        when_is_real.assert_zero(overflow(k) * (overflow(k) - base.clone()));
    }
}

impl<AB: AirBuilderWithPublicValues> Air<AB> for ProgAir {
    fn eval(&self, builder: &mut AB) {
        let main = builder.main();
        let local: Vec<AB::Var> = main.row_slice(0).to_vec();
        let next: Vec<AB::Var> = main.row_slice(1).to_vec();
        let pub_values = builder.public_values().to_vec();
        let mut when_first_row = builder.when_first_row();
        for i in (0..pub_values.len().min(DIGEST_LEN)).rev() {
            when_first_row.assert_eq(pub_values[i], local[DIGEST_START + i]);
        }
        builder.when_transition().assert_eq(next[0], local[0] + AB::Expr::one());
        eval_add(builder, &local, local[1] + local[2]);
    }
}

fn to_ext(x: &InnerChallenge) -> Ext {
    let s: &[BabyBear] = x.as_base_slice();
    Ext {
        c0: s[0].as_canonical_u32(),
        c1: s[1].as_canonical_u32(),
        c2: s[2].as_canonical_u32(),
        c3: s[3].as_canonical_u32(),
    }
}

fn from_ext(e: &Ext) -> InnerChallenge {
    InnerChallenge::from_base_slice(&[e.c0, e.c1, e.c2, e.c3].map(BabyBear::from_canonical_u32))
}

fn from_exts(v: &[Ext]) -> Vec<InnerChallenge> {
    v.iter().map(from_ext).collect()
}

fn domain(c: &Coset) -> TwoAdicMultiplicativeCoset<BabyBear> {
    TwoAdicMultiplicativeCoset { log_n: c.log_n, shift: BabyBear::from_canonical_u32(c.shift) }
}

fn small_pcs() -> InnerPcs {
    let perm = inner_perm();
    let val_mmcs = InnerValMmcs::new(InnerHash::new(perm.clone()), InnerCompress::new(perm));
    let mut fri = inner_fri_config();
    fri.num_queries = 8;
    fri.proof_of_work_bits = 1;
    InnerPcs::new(27, InnerDft {}, val_mmcs, fri)
}

struct Parts {
    trace_commit: InnerDigestHash,
    quotient_commit: InnerDigestHash,
    opening_proof: InnerPcsProof,
    proof: StarkProof,
}

fn parts(p: &Proof<Config>) -> Parts {
    let v = serde_json::to_value(p).unwrap();
    let exts = |x: &serde_json::Value| -> Vec<Ext> {
        serde_json::from_value::<Vec<InnerChallenge>>(x.clone()).unwrap().iter().map(to_ext).collect()
    };
    let chunks: Vec<Vec<InnerChallenge>> =
        serde_json::from_value(v["opened_values"]["quotient_chunks"].clone()).unwrap();
    Parts {
        trace_commit: serde_json::from_value(v["commitments"]["trace"].clone()).unwrap(),
        quotient_commit: serde_json::from_value(v["commitments"]["quotient_chunks"].clone()).unwrap(),
        opening_proof: serde_json::from_value(v["opening_proof"].clone()).unwrap(),
        proof: StarkProof {
            opened_values: OpenedValues {
                trace_local: exts(&v["opened_values"]["trace_local"]),
                trace_next: exts(&v["opened_values"]["trace_next"]),
                quotient_chunks: chunks.iter().map(|c| c.iter().map(to_ext).collect()).collect(),
            },
            degree_bits: serde_json::from_value(v["degree_bits"].clone()).unwrap(),
        },
    }
}

fn check_openings(pcs: &InnerPcs, parts: &Parts, claims: &OpeningClaims, ch: &mut InnerChallenger) -> bool {
    let o = &parts.proof.opened_values;
    let zeta = from_ext(&claims.zeta);
    let rounds = vec![
        (
            parts.trace_commit,
            vec![(
                domain(&claims.trace_domain),
                vec![(zeta, from_exts(&o.trace_local)), (from_ext(&claims.zeta_next), from_exts(&o.trace_next))],
            )],
        ),
        (
            parts.quotient_commit,
            claims
                .quotient_chunk_domains
                .iter()
                .zip(&o.quotient_chunks)
                .map(|(d, values)| (domain(d), vec![(zeta, from_exts(values))]))
                .collect(),
        ),
    ];
    <InnerPcs as Pcs<InnerChallenge, InnerChallenger>>::verify(pcs, rounds, &parts.opening_proof, ch).is_ok()
}

fn run_verifier(pcs: &InnerPcs, parts: &Parts, pv: &Vec<u32>) -> Result<(), VerificationError> {
    let mut ch = InnerChallenger::new(inner_perm());
    let mut session = VerifierSession::new();
    let mut event = VerifierEvent::Begin;
    loop {
        assert!(session.accepts(&event));
        event = match session.step(&parts.proof, pv, event) {
            VerifierAction::ObserveTraceCommitment => {
                ch.observe(parts.trace_commit);
                VerifierEvent::Observed
            }
            VerifierAction::SampleAlpha => {
                let a: InnerChallenge = ch.sample_ext_element();
                VerifierEvent::Sampled(to_ext(&a))
            }
            VerifierAction::ObserveQuotientCommitment => {
                ch.observe(parts.quotient_commit);
                VerifierEvent::Observed
            }
            VerifierAction::SampleZeta => {
                let z: InnerChallenge = ch.sample();
                VerifierEvent::Sampled(to_ext(&z))
            }
            VerifierAction::VerifyOpenings(claims) => {
                VerifierEvent::OpeningsChecked(check_openings(pcs, parts, &claims, &mut ch))
            }
            VerifierAction::Done(r) => return r,
        };
    }
}

/// Proves a run of four alternating additions and subtractions; returns the
/// configuration, the proof and the public values.
fn honest_proof() -> (Config, Proof<Config>, Vec<u32>) {
    let mut regs = init_regs(2);
    regs.int_regs[0] = 65535;
    regs.int_regs[1] = 4294901761;
    let mut prog = ProgExec {
        ops: vec![add_op(), sub_op(), add_op(), sub_op()],
        regs,
        global_nonce: dummy_32b_public_values(42),
        local_nonce: dummy_32b_public_values(43),
        hash_value: dummy_32b_public_values(44),
    };
    let trace = generate_program_trace(&mut prog, &Cli { programs: 1, repetitions: 1, recursive: false })
        .unwrap();
    let digest = dummy_public_values_hash(&prog.global_nonce, &prog.local_nonce, &prog.hash_value);
    let pv = to_field_values(&digest);
    let pv_field: Vec<BabyBear> = pv.iter().map(|&v| BabyBear::from_canonical_u32(v)).collect();
    let matrix = RowMajorMatrix::new(
        trace.values().into_iter().map(BabyBear::from_canonical_u32).collect(),
        trace.width(),
    );
    let config = Config::new(small_pcs());
    let mut ch = InnerChallenger::new(inner_perm());
    let proof = prove(&config, &ProgAir, &mut ch, matrix, &pv_field);
    let mut ch = InnerChallenger::new(inner_perm());
    verify(&config, &ProgAir, &mut ch, &proof, &pv_field).unwrap();
    (config, proof, pv)
}

fn bump(e: &mut Ext) {
    e.c0 = (e.c0 + 1) % P;
}

#[test]
fn honest_proof_verifies() {
    let (config, proof, pv) = honest_proof();
    let parts = parts(&proof);
    assert_eq!(parts.proof.degree_bits, 3);
    assert_eq!(run_verifier(&config.pcs_ref(), &parts, &pv), Ok(()));
}

#[test]
fn tampered_opened_values_are_rejected() {
    let (config, proof, pv) = honest_proof();
    for target in 0..4 {
        let mut p = parts(&proof);
        let o = &mut p.proof.opened_values;
        match target {
            0 => bump(&mut o.trace_local[5]),
            1 => bump(&mut o.trace_next[0]),
            2 => bump(&mut o.trace_local[CARRY_START]),
            _ => bump(&mut o.quotient_chunks[1][2]),
        }
        let r = run_verifier(&config.pcs_ref(), &p, &pv);
        assert!(
            r == Err(VerificationError::InvalidOpeningArgument)
                || r == Err(VerificationError::OodEvaluationMismatch),
            "target {}: {:?}",
            target,
            r
        );
    }
}

#[test]
fn wrong_public_values_are_rejected() {
    let (config, proof, mut pv) = honest_proof();
    let p = parts(&proof);
    pv[0] = (pv[0] + 1) % 256;
    assert_eq!(run_verifier(&config.pcs_ref(), &p, &pv), Err(VerificationError::OodEvaluationMismatch));
}

#[test]
fn narrow_rows_fail_the_shape_check() {
    let (config, proof, pv) = honest_proof();
    let mut p = parts(&proof);
    p.proof.opened_values.trace_local.pop();
    assert_eq!(run_verifier(&config.pcs_ref(), &p, &pv), Err(VerificationError::InvalidProofShape));
}

trait PcsRef {
    fn pcs_ref(&self) -> &InnerPcs;
}

impl PcsRef for Config {
    fn pcs_ref(&self) -> &InnerPcs {
        p3_uni_stark::StarkGenericConfig::pcs(self)
    }
}
