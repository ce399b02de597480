//! The constraint system (AIR) of the trace, evaluated at one pair of adjacent
//! rows and folded into a single extension element with a challenge `alpha`:
//! `sum_k alpha^k * assertion_k`.
//!
//! The assertions are numbered in this fixed order: for each limb `i` in 0..7
//! the four carry constraints (overflow is 0 or 256; carry 1 forces 256; carry
//! 0 forces 0; the carry is a bit), then the overflow constraint of limb 7
//! (which has no carry bit), then the assertion that `is_real` is a bit, then
//! the counter transition, then the header-row binding of the public values.
use crate::domain::Selectors;
use crate::field::{
    ext_add, ext_add_spec, ext_base, ext_mul, ext_mul_spec, ext_one, ext_sub, ext_sub_spec,
    ext_wf, ext_zero, m, modp, Ext, P,
};
use crate::math_ops::{
    lemma_row_satisfies_carry_relations, op_fits, row_overflow, step_row, I64MathOp, I64MathOps,
};
use crate::layout::{
    BIN_OP_ROW_SIZE, CARRY, CARRY_START, DIGEST_LEN, DIGEST_START, LEFT_ARG, RESULT, RIGHT_ARG,
};
use vstd::prelude::*;

verus! {

/// The constraints have degree 3, so the quotient is committed in `2^1` chunks.
pub const LOG_QUOTIENT_DEGREE: usize = 1;

pub open spec fn rows_wf(row: Seq<Ext>) -> bool {
    row.len() == BIN_OP_ROW_SIZE && forall|i: int| 0 <= i < row.len() ==> ext_wf(#[trigger] row[i])
}

pub open spec fn selectors_wf(s: Selectors) -> bool {
    ext_wf(s.is_first_row) && ext_wf(s.is_last_row) && ext_wf(s.is_transition) && ext_wf(
        s.inv_zeroifier,
    )
}

/// What limb `k` of `left + right + carry_in` exceeds the result limb by; 0 or
/// 256 on an honest row.
pub open spec fn overflow_spec(local: Seq<Ext>, k: int) -> Ext {
    let base = ext_sub_spec(
        ext_add_spec(local[LEFT_ARG + k], local[RIGHT_ARG + k]),
        local[RESULT + k],
    );
    if k == 0 {
        base
    } else {
        ext_add_spec(base, local[CARRY_START + k - 1])
    }
}

/// The sum of the `Add` and `Sub` flags.
pub open spec fn is_real_spec(local: Seq<Ext>) -> Ext {
    ext_add_spec(local[1], local[2])
}

/// The number of public values bound into the header row.
pub open spec fn bound_count(n: nat) -> nat {
    if n < DIGEST_LEN {
        n
    } else {
        DIGEST_LEN as nat
    }
}

/// On the first row, public value `i` equals slot `10 + i`.
pub open spec fn first_row_terms(local: Seq<Ext>, pv: Seq<u32>, sels: Selectors) -> Seq<Ext> {
    Seq::new(
        bound_count(pv.len()),
        |i: int|
            ext_mul_spec(
                sels.is_first_row,
                ext_sub_spec(ext_base(pv[i]), local[DIGEST_START + i]),
            ),
    )
}

/// Off the last row, the next counter is this counter plus one.
pub open spec fn transition_term(local: Seq<Ext>, next: Seq<Ext>, sels: Selectors) -> Ext {
    ext_mul_spec(sels.is_transition, ext_sub_spec(next[0], ext_add_spec(local[0], ext_one())))
}

/// `c * (c - 1)`.
pub open spec fn bool_spec(c: Ext) -> Ext {
    ext_mul_spec(c, ext_sub_spec(c, ext_one()))
}

/// `is_real * v`: an arithmetic assertion applies to real rows only.
pub open spec fn gated(is_real: Ext, v: Ext) -> Ext {
    ext_mul_spec(is_real, v)
}

/// The assertions of limb `i`, each multiplied by `is_real`: the overflow is 0
/// or 256; carry 1 forces overflow 256; carry 0 forces overflow 0; the carry is
/// a bit. Limb 7 has no carry bit, so only the first.
pub open spec fn limb_terms(local: Seq<Ext>, is_real: Ext, i: int) -> Seq<Ext> {
    let ov = overflow_spec(local, i);
    let c256 = ext_base(256);
    let first = gated(is_real, ext_mul_spec(ov, ext_sub_spec(ov, c256)));
    if i < CARRY {
        let c = local[CARRY_START + i];
        seq![
            first,
            gated(is_real, ext_mul_spec(c, ext_sub_spec(ov, c256))),
            gated(is_real, ext_mul_spec(ext_sub_spec(c, ext_one()), ov)),
            gated(is_real, bool_spec(c)),
        ]
    } else {
        seq![first]
    }
}

/// The assertions of limbs `0..n`, limb after limb.
pub open spec fn limbs_terms(local: Seq<Ext>, is_real: Ext, n: nat) -> Seq<Ext>
    decreases n,
{
    if n == 0 {
        seq![]
    } else {
        limbs_terms(local, is_real, (n - 1) as nat) + limb_terms(local, is_real, n - 1)
    }
}

/// The 30 arithmetic assertions: the 29 of the limbs, then `is_real` is a bit.
pub open spec fn add_terms(local: Seq<Ext>, is_real: Ext) -> Seq<Ext> {
    limbs_terms(local, is_real, 8) + seq![gated(is_real, bool_spec(is_real))]
}

/// Every assertion, in the order of their powers of `alpha`.
pub open spec fn constraint_terms(
    local: Seq<Ext>,
    next: Seq<Ext>,
    pv: Seq<u32>,
    sels: Selectors,
) -> Seq<Ext> {
    add_terms(local, is_real_spec(local)) + seq![transition_term(local, next, sels)]
        + first_row_terms(local, pv, sels)
}

/// `sum_k alpha^k * ts[k]`, as `ts[0] + alpha * (ts[1] + alpha * (...))`.
pub open spec fn fold_spec(terms: Seq<Ext>, alpha: Ext) -> Ext
    decreases terms.len(),
{
    if terms.len() == 0 {
        ext_zero()
    } else {
        ext_add_spec(ext_mul_spec(fold_spec(terms.drop_first(), alpha), alpha), terms[0])
    }
}

pub open spec fn all_wf(s: Seq<Ext>) -> bool {
    forall|i: int| 0 <= i < s.len() ==> ext_wf(#[trigger] s[i])
}

/// The overflow of limb `k`.
fn overflow(local: &Vec<Ext>, k: usize) -> (r: Ext)
    requires
        rows_wf(local@),
        k < 8,
    ensures
        ext_wf(r),
        r == overflow_spec(local@, k as int),
{
    let base = ext_sub(ext_add(local[LEFT_ARG + k], local[RIGHT_ARG + k]), local[RESULT + k]);
    if k == 0 {
        base
    } else {
        ext_add(base, local[CARRY_START + k - 1])
    }
}

/// `c * (c - 1)`.
fn bool_term(c: Ext) -> (r: Ext)
    requires
        ext_wf(c),
    ensures
        ext_wf(r),
        r == bool_spec(c),
{
    ext_mul(c, ext_sub(c, Ext::one()))
}

/// Appends the arithmetic assertions of a row, each gated by `is_real`, in
/// folding order: limb after limb, then `is_real` is a bit.
pub fn eval_add(local: &Vec<Ext>, is_real: Ext, terms: &mut Vec<Ext>)
    requires
        rows_wf(local@),
        ext_wf(is_real),
        all_wf(old(terms)@),
    ensures
        final(terms)@ == old(terms)@ + add_terms(local@, is_real),
        all_wf(final(terms)@),
{
    let c256 = Ext::from_base(256);
    let ghost t0 = terms@;
    let mut k: usize = 0;
    while k < 8
        invariant
            k <= 8,
            rows_wf(local@),
            ext_wf(is_real),
            c256 == ext_base(256),
            all_wf(terms@),
            terms@ == t0 + limbs_terms(local@, is_real, k as nat),
        decreases 8 - k,
    {
        let ghost before = terms@;
        let ov = overflow(local, k);
        terms.push(ext_mul(is_real, ext_mul(ov, ext_sub(ov, c256))));
        if k < CARRY {
            let c = local[CARRY_START + k];
            terms.push(ext_mul(is_real, ext_mul(c, ext_sub(ov, c256))));
            terms.push(ext_mul(is_real, ext_mul(ext_sub(c, Ext::one()), ov)));
            terms.push(ext_mul(is_real, bool_term(c)));
        }
        assert(terms@ =~= before + limb_terms(local@, is_real, k as int));
        k = k + 1;
        assert(terms@ =~= t0 + limbs_terms(local@, is_real, k as nat));
    }
    terms.push(ext_mul(is_real, bool_term(is_real)));
    assert(terms@ =~= t0 + add_terms(local@, is_real));
}

/// `sum_k alpha^k * terms[k]`, by Horner's rule from the last term.
pub fn fold_constraints(terms: &Vec<Ext>, alpha: Ext) -> (r: Ext)
    requires
        all_wf(terms@),
        ext_wf(alpha),
    ensures
        ext_wf(r),
        r == fold_spec(terms@, alpha),
{
    let mut acc = Ext::zero();
    let mut i: usize = terms.len();
    assert(terms@.subrange(i as int, terms@.len() as int) =~= Seq::<Ext>::empty());
    while i > 0
        invariant
            i <= terms@.len(),
            all_wf(terms@),
            ext_wf(alpha),
            ext_wf(acc),
            acc == fold_spec(terms@.subrange(i as int, terms@.len() as int), alpha),
        decreases i,
    {
        i = i - 1;
        let ghost rest = terms@.subrange(i as int, terms@.len() as int);
        assert(rest.drop_first() =~= terms@.subrange(i + 1, terms@.len() as int));
        assert(rest[0] == terms@[i as int]);
        acc = ext_add(ext_mul(acc, alpha), terms[i]);
    }
    assert(terms@.subrange(0, terms@.len() as int) =~= terms@);
    acc
}

/// Every assertion of the constraint system at the rows `local` and `next`,
/// assertion `k` being the one that `alpha^k` weighs.
pub fn constraint_values(local: &Vec<Ext>, next: &Vec<Ext>, public_values: &Vec<u32>, sels: Selectors) -> (r:
    Vec<Ext>)
    requires
        rows_wf(local@),
        rows_wf(next@),
        forall|i: int| 0 <= i < public_values@.len() ==> #[trigger] public_values@[i] < P,
        selectors_wf(sels),
    ensures
        all_wf(r@),
        r@ == constraint_terms(local@, next@, public_values@, sels),
{
    let mut terms: Vec<Ext> = Vec::new();
    let is_real = ext_add(local[1], local[2]);
    eval_add(local, is_real, &mut terms);
    let step = ext_sub(next[0], ext_add(local[0], Ext::one()));
    terms.push(ext_mul(sels.is_transition, step));
    let ghost head = terms@;
    assert(head == add_terms(local@, is_real_spec(local@)) + seq![transition_term(local@, next@, sels)]);
    let n: usize = if public_values.len() < DIGEST_LEN {
        public_values.len()
    } else {
        DIGEST_LEN
    };
    let mut i: usize = 0;
    while i < n
        invariant
            i <= n,
            n == bound_count(public_values@.len()),
            rows_wf(local@),
            selectors_wf(sels),
            forall|j: int| 0 <= j < public_values@.len() ==> #[trigger] public_values@[j] < P,
            all_wf(terms@),
            terms@ == head + first_row_terms(local@, public_values@, sels).take(i as int),
        decreases n - i,
    {
        let d = ext_sub(Ext::from_base(public_values[i]), local[DIGEST_START + i]);
        terms.push(ext_mul(sels.is_first_row, d));
        i = i + 1;
        assert(terms@ =~= head + first_row_terms(local@, public_values@, sels).take(i as int));
    }
    assert(first_row_terms(local@, public_values@, sels).take(n as int) =~= first_row_terms(
        local@,
        public_values@,
        sels,
    ));
    terms
}

/// The constraint system at the rows `local` and `next`, folded with `alpha`.
pub fn eval_constraints(
    local: &Vec<Ext>,
    next: &Vec<Ext>,
    public_values: &Vec<u32>,
    sels: Selectors,
    alpha: Ext,
) -> (r: Ext)
    requires
        rows_wf(local@),
        rows_wf(next@),
        forall|i: int| 0 <= i < public_values@.len() ==> #[trigger] public_values@[i] < P,
        selectors_wf(sels),
        ext_wf(alpha),
    ensures
        ext_wf(r),
        r == fold_spec(constraint_terms(local@, next@, public_values@, sels), alpha),
{
    let terms = constraint_values(local, next, public_values, sels);
    fold_constraints(&terms, alpha)
}

/// A row of base-field values seen as extension elements.
pub open spec fn lift(row: Seq<u32>) -> Seq<Ext> {
    row.map_values(|v: u32| ext_base(v))
}

proof fn lemma_base_ops(x: u32, y: u32)
    requires
        x < P,
        y < P,
    ensures
        ext_add_spec(ext_base(x), ext_base(y)) == ext_base(modp(x + y)),
        ext_sub_spec(ext_base(x), ext_base(y)) == ext_base(modp(x + P - y)),
        ext_mul_spec(ext_base(x), ext_base(y)) == ext_base(modp(x * y)),
{
    reveal(ext_add_spec);
    reveal(ext_sub_spec);
    reveal(ext_mul_spec);
    assert(modp(0) == 0);
    assert(modp(0int + 0int) == 0);
    assert(modp(0 + P - 0) == 0) by {
        assert((P as int) % (P as int) == 0);
    }
    assert(x as int * 0 == 0 && 0 * y as int == 0 && 0 * 0 == 0);
}

/// The overflow of limb `k` of a lifted row is the lifted integer overflow,
/// where that is 0 or 256.
proof fn lemma_lifted_overflow(row: Seq<u32>, k: int)
    requires
        row.len() == BIN_OP_ROW_SIZE,
        0 <= k < 8,
        row[LEFT_ARG + k] < 256,
        row[RIGHT_ARG + k] < 256,
        row[RESULT + k] < 256,
        k > 0 ==> row[CARRY_START + k - 1] <= 1,
        row_overflow(row, k) == 0 || row_overflow(row, k) == 256,
    ensures
        overflow_spec(lift(row), k) == ext_base(row_overflow(row, k) as u32),
{
    let local = lift(row);
    let a = row[LEFT_ARG + k];
    let b = row[RIGHT_ARG + k];
    let c = row[RESULT + k];
    lemma_base_ops(a, b);
    assert(modp(a + b) == a + b);
    let ab = modp(a + b);
    lemma_base_ops(ab, c);
    let d = modp(ab + P - c);
    if k == 0 {
        assert(d == row_overflow(row, k));
    } else {
        let cr = row[CARRY_START + k - 1];
        lemma_base_ops(d, cr);
        assert(modp(d + cr) == row_overflow(row, k));
    }
}

/// The limbs of an arithmetic row meet what the constraint system asks: bytes
/// in the byte slots, carry bits that are bits, and each limb's overflow 256
/// times its carry (0 or 256 for the top limb, whose carry is discarded).
pub open spec fn carry_relations(row: Seq<u32>) -> bool {
    &&& forall|i: int| 0 <= i < 8 ==> #[trigger] limb_bytes_small(row, i)
    &&& forall|i: int|
        0 <= i < CARRY ==> (row[CARRY_START + i] == 0 || row[CARRY_START + i] == 1)
            && #[trigger] row_overflow(row, i) == 256 * row[CARRY_START + i]
    &&& (row_overflow(row, 7) == 0 || row_overflow(row, 7) == 256)
}

/// The left, right and result bytes of limb `i` are bytes.
pub open spec fn limb_bytes_small(row: Seq<u32>, i: int) -> bool {
    row[LEFT_ARG + i] < 256 && row[RIGHT_ARG + i] < 256 && row[RESULT + i] < 256
}

/// `is_real * v` vanishes where `is_real` is zero, whatever `v` is.
proof fn lemma_zero_times(v: Ext)
    ensures
        ext_mul_spec(ext_base(0), v) == ext_zero(),
{
    reveal(ext_mul_spec);
    assert(m(0, v.c0) == 0 && m(0, v.c1) == 0 && m(0, v.c2) == 0 && m(0, v.c3) == 0);
    assert(modp(0) == 0);
}

/// The four values that limb `k` gates by `is_real` vanish on a row whose limb
/// meets the carry relations.
proof fn lemma_limb_values_vanish(row: Seq<u32>, k: int)
    requires
        row.len() == BIN_OP_ROW_SIZE,
        0 <= k < 8,
        carry_relations(row),
    ensures
        ({
            let local = lift(row);
            let ov = overflow_spec(local, k);
            let c256 = ext_base(256);
            &&& ext_mul_spec(ov, ext_sub_spec(ov, c256)) == ext_zero()
            &&& k < CARRY ==> ext_mul_spec(local[CARRY_START + k], ext_sub_spec(ov, c256)) == ext_zero()
            &&& k < CARRY ==> ext_mul_spec(ext_sub_spec(local[CARRY_START + k], ext_one()), ov) == ext_zero()
            &&& k < CARRY ==> bool_spec(local[CARRY_START + k]) == ext_zero()
        }),
{
    let local = lift(row);
    assert(limb_bytes_small(row, k));
    if k > 0 {
        assert(row_overflow(row, k - 1) == 256 * row[CARRY_START + k - 1]);
    }
    if k < CARRY {
        assert(row_overflow(row, k) == 256 * row[CARRY_START + k]);
    }
    lemma_lifted_overflow(row, k);
    let o = row_overflow(row, k);
    let ov = overflow_spec(local, k);
    assert(ov == ext_base(o as u32));
    lemma_base_ops(o as u32, 256);
    let d = modp(o + P - 256);
    assert(o == 256 ==> d == 0) by {
        assert((P as int) % (P as int) == 0);
    }
    lemma_base_ops(o as u32, d);
    assert(o == 0 || o == 256) by {
        if k < CARRY {
            assert(row[CARRY_START + k] == 0 || row[CARRY_START + k] == 1);
        }
    }
    assert(o * d == 0) by {
        if o == 0 {
            assert(0 * d == 0);
        } else {
            assert(d == 0);
            assert(o * 0 == 0);
        }
    }
    assert(modp(o * d) == 0);
    assert(ext_base(0) == ext_zero());
    if k < CARRY {
        let cr = row[CARRY_START + k];
        assert(local[CARRY_START + k] == ext_base(cr));
        lemma_base_ops(cr, d);
        assert(modp(cr * d) == 0);
        lemma_base_ops(cr, 1);
        assert(ext_one() == ext_base(1));
        let e = modp(cr + P - 1);
        assert(cr == 1 ==> e == 0) by {
            assert((P as int) % (P as int) == 0);
        }
        lemma_base_ops(e, o as u32);
        assert(modp(e * o) == 0);
        lemma_base_ops(cr, e);
        assert(modp(cr * e) == 0);
    }
}

/// `is_real * v` vanishes: by `is_real` where it is zero, by `v` where it is one.
proof fn lemma_gate(ir: int, v: Ext)
    requires
        ir == 0 || ir == 1,
        ir == 1 ==> v == ext_zero(),
    ensures
        ext_mul_spec(ext_base(ir as u32), v) == ext_zero(),
{
    if ir == 0 {
        lemma_zero_times(v);
    } else {
        lemma_base_ops(1, 0);
        assert(modp(1int * 0int) == 0);
        assert(ext_base(0) == ext_zero());
    }
}

/// What the vanishing lemmas ask of a row: field elements, `is_real` a bit, and
/// the carry relations where `is_real` is one.
pub open spec fn gate_ok(row: Seq<u32>) -> bool {
    &&& row.len() == BIN_OP_ROW_SIZE
    &&& forall|i: int| 0 <= i < row.len() ==> #[trigger] row[i] < P
    &&& row[1] + row[2] <= 1
    &&& row[1] + row[2] == 1 ==> carry_relations(row)
}

/// `is_real` of a lifted row is the lifted sum of its flags.
proof fn lemma_is_real(row: Seq<u32>)
    requires
        gate_ok(row),
    ensures
        is_real_spec(lift(row)) == ext_base((row[1] + row[2]) as u32),
{
    let local = lift(row);
    assert(local[1] == ext_base(row[1]) && local[2] == ext_base(row[2]));
    lemma_base_ops(row[1], row[2]);
}

/// The assertions of limb `i` vanish on such a row.
proof fn lemma_limb_terms_vanish(row: Seq<u32>, i: int)
    requires
        gate_ok(row),
        0 <= i < 8,
    ensures
        limb_terms(lift(row), is_real_spec(lift(row)), i) == Seq::new(
            if i < CARRY { 4nat } else { 1nat },
            |j: int| ext_zero(),
        ),
{
    let local = lift(row);
    let ir: int = row[1] + row[2];
    lemma_is_real(row);
    let c256 = ext_base(256);
    let ov = overflow_spec(local, i);
    if ir == 1 {
        lemma_limb_values_vanish(row, i);
    }
    lemma_gate(ir, ext_mul_spec(ov, ext_sub_spec(ov, c256)));
    if i < CARRY {
        let c = local[CARRY_START + i];
        lemma_gate(ir, ext_mul_spec(c, ext_sub_spec(ov, c256)));
        lemma_gate(ir, ext_mul_spec(ext_sub_spec(c, ext_one()), ov));
        lemma_gate(ir, bool_spec(c));
    }
    assert(limb_terms(local, is_real_spec(local), i) =~= Seq::new(
        if i < CARRY { 4nat } else { 1nat },
        |j: int| ext_zero(),
    ));
}

/// The assertions of limbs `0..n` vanish on such a row.
proof fn lemma_limbs_terms_vanish(row: Seq<u32>, n: nat)
    requires
        gate_ok(row),
        n <= 8,
    ensures
        limbs_terms(lift(row), is_real_spec(lift(row)), n) == Seq::new(
            if n <= CARRY { 4 * n } else { 29nat },
            |j: int| ext_zero(),
        ),
    decreases n,
{
    if n > 0 {
        lemma_limbs_terms_vanish(row, (n - 1) as nat);
        lemma_limb_terms_vanish(row, n - 1);
        assert(limbs_terms(lift(row), is_real_spec(lift(row)), n) =~= Seq::new(
            if n <= CARRY { 4 * n } else { 29nat },
            |j: int| ext_zero(),
        ));
    } else {
        assert(limbs_terms(lift(row), is_real_spec(lift(row)), 0) =~= Seq::new(0, |j: int| ext_zero()));
    }
}

/// The 30 arithmetic terms of a row vanish where its flags make `is_real`
/// zero, and where they make it one and its limbs meet the carry relations.
proof fn lemma_terms_vanish(row: Seq<u32>)
    requires
        gate_ok(row),
    ensures
        add_terms(lift(row), is_real_spec(lift(row))) == Seq::new(30, |i: int| ext_zero()),
{
    let local = lift(row);
    let ir: int = row[1] + row[2];
    lemma_is_real(row);
    let is_real = is_real_spec(local);
    let zero = ext_zero();
    assert(ir == 1 ==> bool_spec(is_real) == zero) by {
        if ir == 1 {
            lemma_base_ops(1, 1);
            assert(modp(1 + P - 1) == 0) by {
                assert((P as int) % (P as int) == 0);
            }
            lemma_base_ops(1, 0);
            assert(modp(1int * 0int) == 0);
            assert(ext_base(0) == zero);
            assert(ext_base(1) == ext_one());
        }
    }
    lemma_gate(ir, bool_spec(is_real));
    lemma_limbs_terms_vanish(row, 8);
    assert(add_terms(local, is_real) =~= Seq::new(30, |i: int| ext_zero()));
}

/// A row whose `Add` and `Sub` flags are both zero makes the 30 arithmetic
/// assertions vanish, whatever else it holds.
pub proof fn lemma_unreal_row_vanishes(row: Seq<u32>)
    requires
        row.len() == BIN_OP_ROW_SIZE,
        forall|i: int| 0 <= i < row.len() ==> #[trigger] row[i] < P,
        row[1] == 0,
        row[2] == 0,
    ensures
        add_terms(lift(row), is_real_spec(lift(row))) == Seq::new(30, |i: int| ext_zero()),
{
    lemma_terms_vanish(row);
}

/// Lifted into the extension, every row that an instruction emits makes all 30
/// arithmetic assertions of the constraint system vanish: the prover's side of
/// a round trip, limb by limb.
pub proof fn lemma_instruction_rows_satisfy_constraints(op: I64MathOp, regs: Seq<i64>, cnt: u32)
    requires
        op_fits(op, regs.len()),
        cnt < P,
    ensures
        ({
            let local = lift(step_row(op, regs, cnt));
            add_terms(local, is_real_spec(local)) == Seq::new(30, |i: int| ext_zero())
        }),
{
    let row = step_row(op, regs, cnt);
    assert(row.len() == BIN_OP_ROW_SIZE);
    if op.op != I64MathOps::NoOp {
        lemma_row_satisfies_carry_relations(op, regs, cnt);
        assert forall|i: int| 0 <= i < 8 implies #[trigger] limb_bytes_small(row, i) by {
        }
    }
    assert forall|i: int| 0 <= i < row.len() implies #[trigger] row[i] < P by {
    }
    lemma_terms_vanish(row);
}

} // verus!
