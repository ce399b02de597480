//! The decisions of the proof verifier.
//!
//! The verifier checks the proof's shape, has the transcript absorb the trace
//! commitment and draw the folding challenge `alpha`, absorb the quotient
//! commitment and draw the out-of-domain point `zeta`, has the commitment scheme
//! check the openings at `zeta` and its successor, and finally checks that the
//! folded constraints divided by the vanishing polynomial equal the quotient
//! reconstructed from its opened chunks. The transcript and the commitment
//! scheme are outside collaborators; `VerifierSession::step` decides, from
//! what they report, what is asked of them next and what the verdict is.
use crate::air::{
    all_wf, constraint_terms, eval_constraints, fold_spec, rows_wf, LOG_QUOTIENT_DEGREE,
};
use crate::domain::{
    pow2_exec, chunk_spec, coset_wf, next_point_spec, pow2, selectors_spec, zp_spec, Coset,
};
use crate::field::{
    ext_add, ext_add_spec, ext_base, ext_inv_spec, ext_inverse, ext_monomial, ext_monomial_spec,
    ext_mul, ext_mul_spec, ext_one, ext_wf, ext_zero, Ext, P, TWO_ADICITY,
};
use crate::layout::BIN_OP_ROW_SIZE;
use vstd::prelude::*;

verus! {

/// Why a proof is rejected.
#[derive(Clone, Copy, Debug, PartialEq, Eq, Structural)]
pub enum VerificationError {
    /// The opened values do not have the shape the constraint system fixes.
    InvalidProofShape,
    /// The commitment scheme rejected the openings.
    InvalidOpeningArgument,
    /// The constraints and the quotient disagree at the out-of-domain point.
    OodEvaluationMismatch,
}

/// The values a proof opens: both trace rows at `zeta` and its successor, and
/// each quotient chunk's four base coordinates at `zeta`.
pub struct OpenedValues {
    pub trace_local: Vec<Ext>,
    pub trace_next: Vec<Ext>,
    pub quotient_chunks: Vec<Vec<Ext>>,
}

/// The part of a proof that the verifier's decisions read; the commitments and
/// the opening argument go to the transcript and to the commitment scheme.
pub struct StarkProof {
    pub opened_values: OpenedValues,
    pub degree_bits: usize,
}

pub open spec fn chunks_view(c: Seq<Vec<Ext>>) -> Seq<Seq<Ext>> {
    c.map_values(|v: Vec<Ext>| v@)
}

/// The number of quotient chunks.
pub open spec fn num_chunks() -> nat {
    pow2(LOG_QUOTIENT_DEGREE as nat)
}

/// The opened values have the shape the constraint system fixes, every value
/// is a field element, and the quotient domain fits the field.
pub open spec fn shape_ok(p: StarkProof) -> bool {
    let o = p.opened_values;
    &&& p.degree_bits + LOG_QUOTIENT_DEGREE <= TWO_ADICITY
    &&& rows_wf(o.trace_local@)
    &&& rows_wf(o.trace_next@)
    &&& o.quotient_chunks@.len() == num_chunks()
    &&& forall|i: int|
        0 <= i < o.quotient_chunks@.len() ==> (#[trigger] o.quotient_chunks@[i])@.len() == 4
            && all_wf(o.quotient_chunks@[i]@)
}

/// The trace domain: the subgroup of order `2^degree_bits`.
pub open spec fn trace_domain_spec(degree_bits: nat) -> Coset {
    Coset { log_n: degree_bits as usize, shift: 1 }
}

/// The quotient domain, `2^LOG_QUOTIENT_DEGREE` times larger, shifted off the
/// trace domain by the multiplicative generator.
pub open spec fn quotient_domain_spec(degree_bits: nat) -> Coset {
    Coset { log_n: (degree_bits + LOG_QUOTIENT_DEGREE) as usize, shift: 31 }
}

/// The quotient domain split into one coset per chunk.
pub open spec fn chunk_domains_spec(degree_bits: nat) -> Seq<Coset> {
    Seq::new(
        num_chunks(),
        |i: int| chunk_spec(quotient_domain_spec(degree_bits), LOG_QUOTIENT_DEGREE as nat, i),
    )
}

/// What the commitment scheme is asked to check.
pub struct OpeningClaims {
    /// The trace rows open at `zeta` and `zeta_next` over this domain.
    pub trace_domain: Coset,
    pub zeta: Ext,
    pub zeta_next: Ext,
    /// Quotient chunk `i` opens at `zeta` over the `i`-th of these domains.
    pub quotient_chunk_domains: Vec<Coset>,
}

/// The claims for out-of-domain point `zeta`.
pub open spec fn claims_spec(c: OpeningClaims, degree_bits: nat, zeta: Ext) -> bool {
    &&& c.trace_domain == trace_domain_spec(degree_bits)
    &&& c.zeta == zeta
    &&& c.zeta_next == next_point_spec(trace_domain_spec(degree_bits), zeta)
    &&& c.quotient_chunk_domains@ == chunk_domains_spec(degree_bits)
}

/// `zp_j(zeta) / zp_j(first point of domain i)`: one factor of chunk `i`'s weight.
pub open spec fn weight_factor(doms: Seq<Coset>, i: int, j: int, zeta: Ext) -> Ext {
    ext_mul_spec(zp_spec(doms[j], zeta), ext_inv_spec(zp_spec(doms[j], ext_base(doms[i].shift))))
}

/// The product, from one, of the factors of chunk `i` over the domains `j < n`, `j != i`.
pub open spec fn weight_prefix(doms: Seq<Coset>, i: int, zeta: Ext, n: nat) -> Ext
    decreases n,
{
    if n == 0 {
        ext_one()
    } else {
        let p = weight_prefix(doms, i, zeta, (n - 1) as nat);
        if n - 1 == i {
            p
        } else {
            ext_mul_spec(p, weight_factor(doms, i, n - 1, zeta))
        }
    }
}

/// The reconstruction weight of chunk `i` at `zeta`.
pub open spec fn weight_spec(doms: Seq<Coset>, i: int, zeta: Ext) -> Ext {
    weight_prefix(doms, i, zeta, doms.len())
}

/// Every weight is defined: no shift is zero and no other domain's vanishing
/// polynomial vanishes at a domain's first point.
pub open spec fn weights_defined(doms: Seq<Coset>) -> bool {
    &&& forall|j: int| 0 <= j < doms.len() ==> (#[trigger] doms[j]).shift != 0
    &&& forall|i: int, j: int|
        0 <= i < doms.len() && 0 <= j < doms.len() && i != j ==> #[trigger] zp_spec(
            doms[j],
            ext_base(#[trigger] doms[i].shift),
        ) != ext_zero()
}

/// `sum_{e < n} (w * x^e) * ch[e]`, from zero.
pub open spec fn chunk_sum(w: Ext, ch: Seq<Ext>, n: nat) -> Ext
    decreases n,
{
    if n == 0 {
        ext_zero()
    } else {
        ext_add_spec(
            chunk_sum(w, ch, (n - 1) as nat),
            ext_mul_spec(ext_mul_spec(w, ext_monomial_spec(n - 1)), ch[n - 1]),
        )
    }
}

/// The quotient at `zeta` rebuilt from the first `n` chunks.
pub open spec fn quotient_prefix(doms: Seq<Coset>, chunks: Seq<Seq<Ext>>, zeta: Ext, n: nat) -> Ext
    decreases n,
{
    if n == 0 {
        ext_zero()
    } else {
        ext_add_spec(
            quotient_prefix(doms, chunks, zeta, (n - 1) as nat),
            chunk_sum(weight_spec(doms, n - 1, zeta), chunks[n - 1], chunks[n - 1].len()),
        )
    }
}

/// The verdict of the out-of-domain check.
pub open spec fn ood_result(p: StarkProof, pv: Seq<u32>, alpha: Ext, zeta: Ext) -> Result<
    (),
    VerificationError,
> {
    let doms = chunk_domains_spec(p.degree_bits as nat);
    let o = p.opened_values;
    if !weights_defined(doms) {
        Err(VerificationError::OodEvaluationMismatch)
    } else {
        match selectors_spec(trace_domain_spec(p.degree_bits as nat), zeta) {
            None => Err(VerificationError::OodEvaluationMismatch),
            Some(sels) => {
                let folded = fold_spec(
                    constraint_terms(o.trace_local@, o.trace_next@, pv, sels),
                    alpha,
                );
                let quotient = quotient_prefix(
                    doms,
                    chunks_view(o.quotient_chunks@),
                    zeta,
                    o.quotient_chunks@.len(),
                );
                if ext_mul_spec(folded, sels.inv_zeroifier) == quotient {
                    Ok(())
                } else {
                    Err(VerificationError::OodEvaluationMismatch)
                }
            },
        }
    }
}

/// Whether `e` is a field element.
fn ext_is_canonical(e: Ext) -> (r: bool)
    ensures
        r == ext_wf(e),
{
    e.c0 < P && e.c1 < P && e.c2 < P && e.c3 < P
}

/// Whether every element of `v` is a field element.
fn all_canonical(v: &Vec<Ext>) -> (r: bool)
    ensures
        r == all_wf(v@),
{
    let mut i: usize = 0;
    while i < v.len()
        invariant
            i <= v@.len(),
            forall|j: int| 0 <= j < i ==> ext_wf(#[trigger] v@[j]),
        decreases v@.len() - i,
    {
        if !ext_is_canonical(v[i]) {
            return false;
        }
        i = i + 1;
    }
    true
}

/// Step 1 of verification: the shape check.
pub fn check_shape(proof: &StarkProof) -> (r: Result<(), VerificationError>)
    ensures
        r is Ok <==> shape_ok(*proof),
        r is Err ==> r == Err::<(), VerificationError>(VerificationError::InvalidProofShape),
{
    if proof.degree_bits > TWO_ADICITY - LOG_QUOTIENT_DEGREE {
        return Err(VerificationError::InvalidProofShape);
    }
    if proof.opened_values.trace_local.len() != BIN_OP_ROW_SIZE || proof.opened_values.trace_next.len() != BIN_OP_ROW_SIZE {
        return Err(VerificationError::InvalidProofShape);
    }
    if !all_canonical(&proof.opened_values.trace_local) || !all_canonical(&proof.opened_values.trace_next) {
        return Err(VerificationError::InvalidProofShape);
    }
    let quotient_degree = pow2_exec(LOG_QUOTIENT_DEGREE);
    if proof.opened_values.quotient_chunks.len() != quotient_degree {
        return Err(VerificationError::InvalidProofShape);
    }
    let mut i: usize = 0;
    while i < proof.opened_values.quotient_chunks.len()
        invariant
            i <= proof.opened_values.quotient_chunks@.len(),
            forall|j: int|
                0 <= j < i ==> (#[trigger] proof.opened_values.quotient_chunks@[j])@.len() == 4 && all_wf(
                    proof.opened_values.quotient_chunks@[j]@,
                ),
        decreases proof.opened_values.quotient_chunks@.len() - i,
    {
        let ch = &proof.opened_values.quotient_chunks[i];
        if ch.len() != 4 || !all_canonical(ch) {
            assert(!((proof.opened_values.quotient_chunks@[i as int])@.len() == 4 && all_wf(
                proof.opened_values.quotient_chunks@[i as int]@,
            )));
            assert(!shape_ok(*proof));
            return Err(VerificationError::InvalidProofShape);
        }
        i = i + 1;
    }
    Ok(())
}

/// The cosets over which the quotient chunks are committed.
pub fn quotient_chunk_domains(degree_bits: usize) -> (r: Vec<Coset>)
    requires
        degree_bits + LOG_QUOTIENT_DEGREE <= TWO_ADICITY,
    ensures
        r@ == chunk_domains_spec(degree_bits as nat),
        forall|i: int| 0 <= i < r@.len() ==> coset_wf(#[trigger] r@[i]),
{
    let trace_domain = Coset::natural_domain_for_degree(degree_bits);
    let quotient_domain = trace_domain.create_disjoint_domain(degree_bits + LOG_QUOTIENT_DEGREE);
    assert(quotient_domain == quotient_domain_spec(degree_bits as nat));
    let doms = quotient_domain.split_domains(LOG_QUOTIENT_DEGREE);
    assert(doms@ =~= chunk_domains_spec(degree_bits as nat));
    proof {
        assert forall|i: int| 0 <= i < doms@.len() implies coset_wf(#[trigger] doms@[i]) by {
            assert(doms@[i] == chunk_spec(quotient_domain, LOG_QUOTIENT_DEGREE as nat, i));
        }
    }
    doms
}

/// What the commitment scheme is asked to check for out-of-domain point `zeta`.
pub fn opening_claims(proof: &StarkProof, zeta: Ext) -> (r: OpeningClaims)
    requires
        shape_ok(*proof),
        ext_wf(zeta),
    ensures
        claims_spec(r, proof.degree_bits as nat, zeta),
{
    let trace_domain = Coset::natural_domain_for_degree(proof.degree_bits);
    let zeta_next = trace_domain.next_point(zeta);
    let quotient_chunk_domains = quotient_chunk_domains(proof.degree_bits);
    OpeningClaims { trace_domain, zeta, zeta_next, quotient_chunk_domains }
}

/// The reconstruction weight of every chunk at `zeta`, or `None` where one is
/// undefined.
pub fn chunk_weights(doms: &Vec<Coset>, zeta: Ext) -> (r: Option<Vec<Ext>>)
    requires
        forall|j: int| 0 <= j < doms@.len() ==> coset_wf(#[trigger] doms@[j]),
        ext_wf(zeta),
    ensures
        r is Some <==> weights_defined(doms@),
        r matches Some(w) ==> w@.len() == doms@.len() && all_wf(w@) && forall|i: int|
            0 <= i < w@.len() ==> #[trigger] w@[i] == weight_spec(doms@, i, zeta),
{
    let n = doms.len();
    let mut j: usize = 0;
    while j < n
        invariant
            j <= n,
            n == doms@.len(),
            forall|k: int| 0 <= k < j ==> (#[trigger] doms@[k]).shift != 0,
        decreases n - j,
    {
        if doms[j].shift == 0 {
            return None;
        }
        j = j + 1;
    }
    let mut weights: Vec<Ext> = Vec::new();
    let mut i: usize = 0;
    while i < n
        invariant
            i <= n,
            n == doms@.len(),
            ext_wf(zeta),
            forall|k: int| 0 <= k < n ==> coset_wf(#[trigger] doms@[k]),
            forall|k: int| 0 <= k < n ==> (#[trigger] doms@[k]).shift != 0,
            forall|a: int, b: int|
                0 <= a < i && 0 <= b < n && a != b ==> #[trigger] zp_spec(
                    doms@[b],
                    ext_base(#[trigger] doms@[a].shift),
                ) != ext_zero(),
            weights@.len() == i,
            all_wf(weights@),
            forall|k: int| 0 <= k < i ==> #[trigger] weights@[k] == weight_spec(doms@, k, zeta),
        decreases n - i,
    {
        let first = Ext::from_base(doms[i].first_point());
        let mut acc = Ext::one();
        let mut j: usize = 0;
        while j < n
            invariant
                j <= n,
                i < n,
                n == doms@.len(),
                ext_wf(zeta),
                ext_wf(acc),
                first == ext_base(doms@[i as int].shift),
                forall|k: int| 0 <= k < n ==> coset_wf(#[trigger] doms@[k]),
                forall|k: int| 0 <= k < n ==> (#[trigger] doms@[k]).shift != 0,
                forall|a: int, b: int|
                    0 <= a < i && 0 <= b < n && a != b ==> #[trigger] zp_spec(
                        doms@[b],
                        ext_base(#[trigger] doms@[a].shift),
                    ) != ext_zero(),
                forall|b: int|
                    0 <= b < j && b != i ==> #[trigger] zp_spec(
                        doms@[b],
                        ext_base(doms@[i as int].shift),
                    ) != ext_zero(),
                acc == weight_prefix(doms@, i as int, zeta, j as nat),
            decreases n - j,
        {
            if j != i {
                let den = doms[j].zp_at_point(first);
                if den.is_zero() {
                    assert(!weights_defined(doms@)) by {
                        assert(zp_spec(doms@[j as int], ext_base(doms@[i as int].shift)) == ext_zero());
                    }
                    return None;
                }
                let factor = ext_mul(doms[j].zp_at_point(zeta), ext_inverse(den));
                acc = ext_mul(acc, factor);
            }
            j = j + 1;
        }
        weights.push(acc);
        i = i + 1;
    }
    Some(weights)
}

/// `sum_{e < 4} (w * x^e) * ch[e]`.
fn chunk_value(w: Ext, ch: &Vec<Ext>) -> (r: Ext)
    requires
        ext_wf(w),
        all_wf(ch@),
        ch@.len() == 4,
    ensures
        ext_wf(r),
        r == chunk_sum(w, ch@, ch@.len()),
{
    let mut acc = Ext::zero();
    let mut e: usize = 0;
    while e < ch.len()
        invariant
            e <= ch@.len() == 4,
            ext_wf(w),
            all_wf(ch@),
            ext_wf(acc),
            acc == chunk_sum(w, ch@, e as nat),
        decreases ch@.len() - e,
    {
        acc = ext_add(acc, ext_mul(ext_mul(w, ext_monomial(e)), ch[e]));
        e = e + 1;
    }
    acc
}

/// Steps 5 to 7 of verification: rebuild the quotient at `zeta` from its
/// chunks, fold the constraints at the opened rows with `alpha`, and compare
/// the folded constraints over the vanishing polynomial with the quotient.
pub fn check_ood(proof: &StarkProof, public_values: &Vec<u32>, alpha: Ext, zeta: Ext) -> (r: Result<
    (),
    VerificationError,
>)
    requires
        shape_ok(*proof),
        forall|i: int| 0 <= i < public_values@.len() ==> #[trigger] public_values@[i] < P,
        ext_wf(alpha),
        ext_wf(zeta),
    ensures
        r == ood_result(*proof, public_values@, alpha, zeta),
{
    let doms = quotient_chunk_domains(proof.degree_bits);
    let weights = match chunk_weights(&doms, zeta) {
        None => {
            return Err(VerificationError::OodEvaluationMismatch);
        },
        Some(w) => w,
    };
    let chunks = &proof.opened_values.quotient_chunks;
    let mut quotient = Ext::zero();
    let mut c: usize = 0;
    while c < chunks.len()
        invariant
            c <= chunks@.len(),
            chunks@.len() == doms@.len(),
            weights@.len() == doms@.len(),
            all_wf(weights@),
            forall|i: int| 0 <= i < weights@.len() ==> #[trigger] weights@[i] == weight_spec(doms@, i, zeta),
            forall|i: int| 0 <= i < chunks@.len() ==> (#[trigger] chunks@[i])@.len() == 4 && all_wf(chunks@[i]@),
            ext_wf(quotient),
            quotient == quotient_prefix(doms@, chunks_view(chunks@), zeta, c as nat),
        decreases chunks@.len() - c,
    {
        let v = chunk_value(weights[c], &chunks[c]);
        quotient = ext_add(quotient, v);
        c = c + 1;
    }
    let trace_domain = Coset::natural_domain_for_degree(proof.degree_bits);
    let sels = match trace_domain.selectors_at_point(zeta) {
        None => {
            return Err(VerificationError::OodEvaluationMismatch);
        },
        Some(s) => s,
    };
    let folded = eval_constraints(
        &proof.opened_values.trace_local,
        &proof.opened_values.trace_next,
        public_values,
        sels,
        alpha,
    );
    if ext_mul(folded, sels.inv_zeroifier) == quotient {
        Ok(())
    } else {
        Err(VerificationError::OodEvaluationMismatch)
    }
}

/// Where a verification stands: what the session waits for next.
#[derive(Clone, Copy, Debug, PartialEq, Eq, Structural)]
pub enum VerifierPhase {
    Start,
    AwaitTraceObserved,
    AwaitAlpha,
    AwaitQuotientObserved,
    AwaitZeta,
    AwaitOpenings,
    Finished,
}

/// What the transcript or the commitment scheme reports back.
#[derive(Clone, Copy, Debug, PartialEq, Eq, Structural)]
pub enum VerifierEvent {
    /// The caller starts the verification.
    Begin,
    /// The transcript absorbed the commitment it was asked to.
    Observed,
    /// The transcript drew this extension element.
    Sampled(Ext),
    /// The commitment scheme accepted (`true`) or rejected the openings.
    OpeningsChecked(bool),
}

/// What the session asks for next.
pub enum VerifierAction {
    ObserveTraceCommitment,
    SampleAlpha,
    ObserveQuotientCommitment,
    SampleZeta,
    VerifyOpenings(OpeningClaims),
    Done(Result<(), VerificationError>),
}

/// One verification in progress, with the challenges drawn so far.
pub struct VerifierSession {
    pub phase: VerifierPhase,
    pub alpha: Ext,
    pub zeta: Ext,
}

pub open spec fn session_wf(s: VerifierSession) -> bool {
    ext_wf(s.alpha) && ext_wf(s.zeta)
}

/// Whether the session, in its phase, can take `e`.
pub open spec fn accepts_spec(s: VerifierSession, e: VerifierEvent) -> bool {
    match s.phase {
        VerifierPhase::Start => e == VerifierEvent::Begin,
        VerifierPhase::AwaitTraceObserved => e == VerifierEvent::Observed,
        VerifierPhase::AwaitAlpha => e matches VerifierEvent::Sampled(a) && ext_wf(a),
        VerifierPhase::AwaitQuotientObserved => e == VerifierEvent::Observed,
        VerifierPhase::AwaitZeta => e matches VerifierEvent::Sampled(z) && ext_wf(z),
        VerifierPhase::AwaitOpenings => e is OpeningsChecked,
        VerifierPhase::Finished => false,
    }
}

/// The verdict once the openings were checked with outcome `ok`.
pub open spec fn verdict_spec(
    p: StarkProof,
    pv: Seq<u32>,
    alpha: Ext,
    zeta: Ext,
    ok: bool,
) -> Result<(), VerificationError> {
    if !ok {
        Err(VerificationError::InvalidOpeningArgument)
    } else if !shape_ok(p) {
        Err(VerificationError::InvalidProofShape)
    } else {
        ood_result(p, pv, alpha, zeta)
    }
}

impl VerifierSession {
    pub fn new() -> (r: VerifierSession)
        ensures
            r.phase == VerifierPhase::Start,
            session_wf(r),
    {
        VerifierSession { phase: VerifierPhase::Start, alpha: Ext::zero(), zeta: Ext::zero() }
    }

    /// Whether the session, in its phase, can take `event`.
    pub fn accepts(&self, event: &VerifierEvent) -> (r: bool)
        ensures
            r == accepts_spec(*self, *event),
    {
        match self.phase {
            VerifierPhase::Start => *event == VerifierEvent::Begin,
            VerifierPhase::AwaitTraceObserved => *event == VerifierEvent::Observed,
            VerifierPhase::AwaitAlpha => match event {
                VerifierEvent::Sampled(a) => ext_is_canonical(*a),
                _ => false,
            },
            VerifierPhase::AwaitQuotientObserved => *event == VerifierEvent::Observed,
            VerifierPhase::AwaitZeta => match event {
                VerifierEvent::Sampled(z) => ext_is_canonical(*z),
                _ => false,
            },
            VerifierPhase::AwaitOpenings => match event {
                VerifierEvent::OpeningsChecked(_) => true,
                _ => false,
            },
            VerifierPhase::Finished => false,
        }
    }

    /// Takes what the outside collaborator reported and says what to do next.
    /// In order: the shape check (a bad shape ends the session at once), then
    /// observe the trace commitment, draw `alpha`, observe the quotient
    /// commitment, draw `zeta`, have the openings checked, and the verdict.
    pub fn step(&mut self, proof: &StarkProof, public_values: &Vec<u32>, event: VerifierEvent) -> (r:
        VerifierAction)
        requires
            session_wf(*old(self)),
            accepts_spec(*old(self), event),
            forall|i: int| 0 <= i < public_values@.len() ==> #[trigger] public_values@[i] < P,
        ensures
            session_wf(*final(self)),
            old(self).phase == VerifierPhase::Start ==> if shape_ok(*proof) {
                final(self).phase == VerifierPhase::AwaitTraceObserved
                    && r is ObserveTraceCommitment
            } else {
                final(self).phase == VerifierPhase::Finished && r == VerifierAction::Done(
                    Err(VerificationError::InvalidProofShape),
                )
            },
            old(self).phase == VerifierPhase::AwaitTraceObserved ==> final(self).phase
                == VerifierPhase::AwaitAlpha && r is SampleAlpha,
            old(self).phase == VerifierPhase::AwaitAlpha ==> event == VerifierEvent::Sampled(
                final(self).alpha,
            ) && final(self).phase == VerifierPhase::AwaitQuotientObserved
                && r is ObserveQuotientCommitment,
            old(self).phase == VerifierPhase::AwaitQuotientObserved ==> final(self).phase
                == VerifierPhase::AwaitZeta && r is SampleZeta,
            old(self).phase == VerifierPhase::AwaitZeta ==> event == VerifierEvent::Sampled(
                final(self).zeta,
            ) && if shape_ok(*proof) {
                final(self).phase == VerifierPhase::AwaitOpenings && (r matches VerifierAction::VerifyOpenings(c)
                    && claims_spec(c, proof.degree_bits as nat, final(self).zeta))
            } else {
                final(self).phase == VerifierPhase::Finished && r == VerifierAction::Done(
                    Err(VerificationError::InvalidProofShape),
                )
            },
            old(self).phase == VerifierPhase::AwaitOpenings ==> final(self).phase
                == VerifierPhase::Finished && (event matches VerifierEvent::OpeningsChecked(ok)
                && r == VerifierAction::Done(
                verdict_spec(*proof, public_values@, old(self).alpha, old(self).zeta, ok),
            )),
            old(self).phase != VerifierPhase::AwaitAlpha ==> final(self).alpha == old(self).alpha,
            old(self).phase != VerifierPhase::AwaitZeta ==> final(self).zeta == old(self).zeta,
    {
        match self.phase {
            VerifierPhase::Start => {
                match check_shape(proof) {
                    Ok(()) => {
                        self.phase = VerifierPhase::AwaitTraceObserved;
                        VerifierAction::ObserveTraceCommitment
                    },
                    Err(e) => {
                        self.phase = VerifierPhase::Finished;
                        VerifierAction::Done(Err(e))
                    },
                }
            },
            VerifierPhase::AwaitTraceObserved => {
                self.phase = VerifierPhase::AwaitAlpha;
                VerifierAction::SampleAlpha
            },
            VerifierPhase::AwaitAlpha => {
                if let VerifierEvent::Sampled(a) = event {
                    self.alpha = a;
                }
                self.phase = VerifierPhase::AwaitQuotientObserved;
                VerifierAction::ObserveQuotientCommitment
            },
            VerifierPhase::AwaitQuotientObserved => {
                self.phase = VerifierPhase::AwaitZeta;
                VerifierAction::SampleZeta
            },
            VerifierPhase::AwaitZeta => {
                if let VerifierEvent::Sampled(z) = event {
                    self.zeta = z;
                }
                match check_shape(proof) {
                    Ok(()) => {
                        self.phase = VerifierPhase::AwaitOpenings;
                        VerifierAction::VerifyOpenings(opening_claims(proof, self.zeta))
                    },
                    Err(e) => {
                        self.phase = VerifierPhase::Finished;
                        VerifierAction::Done(Err(e))
                    },
                }
            },
            VerifierPhase::AwaitOpenings => {
                self.phase = VerifierPhase::Finished;
                let ok = match event {
                    VerifierEvent::OpeningsChecked(b) => b,
                    _ => false,
                };
                if !ok {
                    return VerifierAction::Done(Err(VerificationError::InvalidOpeningArgument));
                }
                match check_shape(proof) {
                    Ok(()) => VerifierAction::Done(check_ood(proof, public_values, self.alpha, self.zeta)),
                    Err(e) => VerifierAction::Done(Err(e)),
                }
            },
            VerifierPhase::Finished => VerifierAction::Done(Err(VerificationError::InvalidProofShape)),
        }
    }
}

/// A proof whose opened local or next row is not `BIN_OP_ROW_SIZE` wide fails
/// the shape check whatever its other fields hold: the session ends at its
/// first step with `InvalidProofShape`, and no later verdict accepts it.
pub proof fn lemma_shape_rejection(proof: StarkProof, pv: Seq<u32>, alpha: Ext, zeta: Ext, ok: bool)
    requires
        proof.opened_values.trace_local@.len() != BIN_OP_ROW_SIZE
            || proof.opened_values.trace_next@.len() != BIN_OP_ROW_SIZE,
    ensures
        !shape_ok(proof),
        verdict_spec(proof, pv, alpha, zeta, ok) is Err,
        ok ==> verdict_spec(proof, pv, alpha, zeta, ok) == Err::<(), VerificationError>(
            VerificationError::InvalidProofShape,
        ),
{
}

} // verus!
