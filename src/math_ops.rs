//! The instruction model and the trace row that executing one instruction emits.
//!
//! A row is `[counter, flags(10), left bytes(8), right bytes(8), result bytes(8),
//! carry bits(7)]`, each slot a canonical BabyBear residue.
use crate::field::P;
use crate::layout::{BIN_OP_ROW_SIZE, CARRY, CARRY_START, LEFT_ARG, NUM_FLAGS, RESULT, RIGHT_ARG};
use crate::register::{pow256, RegFile};
use vstd::arithmetic::div_mod::{
    lemma_div_denominator, lemma_fundamental_div_mod, lemma_fundamental_div_mod_converse,
    lemma_mod_breakdown, lemma_mod_multiples_vanish,
};
use vstd::prelude::*;

verus! {

/// The opcodes of the machine.
#[derive(Clone, Copy, Debug, PartialEq, Eq, Structural)]
pub enum I64MathOps {
    Add,
    Sub,
    NoOp,
}

impl Default for I64MathOps {
    fn default() -> (r: Self)
        ensures
            r == I64MathOps::Add,
    {
        I64MathOps::Add
    }
}

/// One instruction: an opcode, its operand and result register indices, and the
/// operand values it read when it last ran.
#[derive(Clone, Copy, Debug, PartialEq, Eq, Structural)]
pub struct I64MathOp {
    pub op: I64MathOps,
    pub left_arg: i64,
    pub right_arg: i64,
    pub left_reg_idx: u8,
    pub right_reg_idx: u8,
    pub res_reg_idx: u8,
}

/// The header row's fields: a zero counter, nine zero flags and the 32 public values.
pub struct MathOpFirstRow {
    pub cnt: u32,
    pub flags: [u32; 9],
    pub public_values_sha256: [u32; 32],
}

/// The flag slot that marks each opcode.
pub open spec fn flag_index(op: I64MathOps) -> int {
    match op {
        I64MathOps::Add => 0,
        I64MathOps::Sub => 1,
        I64MathOps::NoOp => 2,
    }
}

/// The one-hot flag block of an opcode.
pub open spec fn flags_spec(op: I64MathOps) -> Seq<u32> {
    Seq::new(NUM_FLAGS as nat, |j: int| if j == flag_index(op) { 1u32 } else { 0u32 })
}

/// The 64-bit two's-complement pattern of `x`, as an unsigned value.
pub open spec fn u64_of(x: i64) -> int {
    if x >= 0 {
        x as int
    } else {
        x as int + 0x1_0000_0000_0000_0000
    }
}

/// `u` shifted right by `k` bytes.
pub open spec fn shifted(u: int, k: nat) -> int
    decreases k,
{
    if k == 0 {
        u
    } else {
        shifted(u, (k - 1) as nat) / 256
    }
}

/// Little-endian byte `k` of the pattern of `x`.
pub open spec fn byte_of(x: i64, k: int) -> u32 {
    (shifted(u64_of(x), k as nat) % 256) as u32
}

/// The eight little-endian bytes of `x`.
pub open spec fn bytes_spec(x: i64) -> Seq<u32> {
    Seq::new(8, |k: int| byte_of(x, k))
}

/// The carry out of limb `k` when the byte sequences of `l` and `r` are added
/// with carry propagation from limb 0.
pub open spec fn carry_out(l: i64, r: i64, k: nat) -> int
    decreases k,
{
    let cin = if k == 0 {
        0
    } else {
        carry_out(l, r, (k - 1) as nat)
    };
    if byte_of(l, k as int) + byte_of(r, k as int) + cin > 255 {
        1
    } else {
        0
    }
}

/// The carry bits of limbs 0..7; the carry out of limb 7 is discarded.
pub open spec fn carries_spec(l: i64, r: i64) -> Seq<u32> {
    Seq::new(CARRY as nat, |k: int| carry_out(l, r, k as nat) as u32)
}

/// The row of an arithmetic instruction.
pub open spec fn add_row_spec(op: I64MathOps, cnt: u32, l: i64, r: i64, res: i64) -> Seq<u32> {
    seq![cnt] + flags_spec(op) + bytes_spec(l) + bytes_spec(r) + bytes_spec(res) + carries_spec(
        l,
        r,
    )
}

/// The row of an instruction that does no arithmetic.
pub open spec fn noop_row_spec(op: I64MathOps, cnt: u32) -> Seq<u32> {
    seq![cnt] + flags_spec(op) + Seq::new((BIN_OP_ROW_SIZE - LEFT_ARG) as nat, |i: int| 0u32)
}

/// Wrapping negation: the minimum value negates to itself.
pub open spec fn wneg(x: i64) -> i64 {
    0i64.wrapping_sub(x)
}

/// The row that `op` emits on registers `regs` with counter `cnt`.
pub open spec fn step_row(op: I64MathOp, regs: Seq<i64>, cnt: u32) -> Seq<u32> {
    let l = regs[op.left_reg_idx as int];
    let r = regs[op.right_reg_idx as int];
    match op.op {
        I64MathOps::Add => add_row_spec(op.op, cnt, l, r, l.wrapping_add(r)),
        I64MathOps::Sub => add_row_spec(op.op, cnt, l, wneg(r), l.wrapping_add(wneg(r))),
        I64MathOps::NoOp => noop_row_spec(op.op, cnt),
    }
}

/// The registers after `op` runs on `regs`.
pub open spec fn step_regs(op: I64MathOp, regs: Seq<i64>) -> Seq<i64> {
    let l = regs[op.left_reg_idx as int];
    let r = regs[op.right_reg_idx as int];
    match op.op {
        I64MathOps::Add => regs.update(op.res_reg_idx as int, l.wrapping_add(r)),
        I64MathOps::Sub => regs.update(op.res_reg_idx as int, l.wrapping_add(wneg(r))),
        I64MathOps::NoOp => regs,
    }
}

/// Whether every register index of `op` names a register of a file of `n`.
pub open spec fn op_fits(op: I64MathOp, n: nat) -> bool {
    op.left_reg_idx < n && op.right_reg_idx < n && op.res_reg_idx < n
}

/// The one-hot flag block of `op`.
pub fn populate_flags(op: I64MathOps) -> (r: Vec<u32>)
    ensures
        r@ == flags_spec(op),
{
    let mut flags: Vec<u32> = Vec::new();
    let idx: usize = match op {
        I64MathOps::Add => 0,
        I64MathOps::Sub => 1,
        I64MathOps::NoOp => 2,
    };
    let mut j: usize = 0;
    while j < NUM_FLAGS
        invariant
            j <= NUM_FLAGS,
            idx == flag_index(op),
            flags@ == flags_spec(op).take(j as int),
        decreases NUM_FLAGS - j,
    {
        if j == idx {
            flags.push(1);
        } else {
            flags.push(0);
        }
        j = j + 1;
        assert(flags@ =~= flags_spec(op).take(j as int));
    }
    assert(flags@ =~= flags_spec(op));
    flags
}

/// The two's-complement pattern of `x`.
fn pattern_of(x: i64) -> (u: u64)
    ensures
        u as int == u64_of(x),
{
    if x >= 0 {
        x as u64
    } else {
        let y: i64 = x + 0x7fff_ffff_ffff_ffff + 1;
        let yu: u64 = y as u64;
        yu + 0x8000_0000_0000_0000
    }
}

/// The eight little-endian bytes of `x`.
fn le_bytes(x: i64) -> (r: Vec<u32>)
    ensures
        r@ == bytes_spec(x),
{
    let mut u: u64 = pattern_of(x);
    let mut out: Vec<u32> = Vec::new();
    let mut k: usize = 0;
    while k < 8
        invariant
            k <= 8,
            u as int == shifted(u64_of(x), k as nat),
            out@ == bytes_spec(x).take(k as int),
        decreases 8 - k,
    {
        out.push((u % 256) as u32);
        u = u / 256;
        k = k + 1;
        assert(out@ =~= bytes_spec(x).take(k as int));
    }
    assert(out@ =~= bytes_spec(x));
    out
}

/// Appends `extra` to `v`.
fn append_all(v: &mut Vec<u32>, extra: &Vec<u32>)
    ensures
        final(v)@ == old(v)@ + extra@,
{
    let mut i: usize = 0;
    while i < extra.len()
        invariant
            i <= extra.len(),
            v@ == old(v)@ + extra@.take(i as int),
        decreases extra.len() - i,
    {
        v.push(extra[i]);
        i = i + 1;
        assert(v@ =~= old(v)@ + extra@.take(i as int));
    }
    assert(extra@.take(extra.len() as int) =~= extra@);
}

/// The row of an arithmetic instruction: counter, flags, the bytes of `left`,
/// `right` and `res`, and the carries of adding the bytes of `left` and `right`.
pub fn populate_add_trace_record(op: I64MathOps, cnt: u32, left: i64, right: i64, res: i64) -> (r:
    Vec<u32>)
    ensures
        r@ == add_row_spec(op, cnt, left, right, res),
        r@.len() == BIN_OP_ROW_SIZE,
{
    let mut trace_record: Vec<u32> = Vec::new();
    trace_record.push(cnt);
    let flags = populate_flags(op);
    append_all(&mut trace_record, &flags);
    let left_as_b = le_bytes(left);
    let right_as_b = le_bytes(right);
    let res_as_b = le_bytes(res);
    append_all(&mut trace_record, &left_as_b);
    append_all(&mut trace_record, &right_as_b);
    append_all(&mut trace_record, &res_as_b);
    let ghost prefix = trace_record@;
    let mut prev_carry_value: u32 = 0;
    let mut i: usize = 0;
    while i < CARRY
        invariant
            i <= CARRY,
            left_as_b@ == bytes_spec(left),
            right_as_b@ == bytes_spec(right),
            prev_carry_value == (if i == 0 {
                0
            } else {
                carry_out(left, right, (i - 1) as nat)
            }),
            trace_record@ == prefix + carries_spec(left, right).take(i as int),
        decreases CARRY - i,
    {
        if left_as_b[i] + right_as_b[i] + prev_carry_value > 255 {
            trace_record.push(1);
            prev_carry_value = 1;
        } else {
            trace_record.push(0);
            prev_carry_value = 0;
        }
        i = i + 1;
        assert(trace_record@ =~= prefix + carries_spec(left, right).take(i as int));
    }
    assert(carries_spec(left, right).take(CARRY as int) =~= carries_spec(left, right));
    assert(trace_record@ =~= add_row_spec(op, cnt, left, right, res));
    trace_record
}

/// The row of an instruction that does no arithmetic: counter, flags, zeros.
pub fn populate_noop_trace_record(op: I64MathOps, cnt: u32) -> (r: Vec<u32>)
    ensures
        r@ == noop_row_spec(op, cnt),
        r@.len() == BIN_OP_ROW_SIZE,
{
    let mut trace_record: Vec<u32> = Vec::new();
    trace_record.push(cnt);
    let flags = populate_flags(op);
    append_all(&mut trace_record, &flags);
    let ghost prefix = trace_record@;
    let mut i: usize = LEFT_ARG;
    while i < BIN_OP_ROW_SIZE
        invariant
            LEFT_ARG <= i <= BIN_OP_ROW_SIZE,
            trace_record@ == prefix + Seq::new((i - LEFT_ARG) as nat, |j: int| 0u32),
        decreases BIN_OP_ROW_SIZE - i,
    {
        trace_record.push(0);
        i = i + 1;
        assert(trace_record@ =~= prefix + Seq::new((i - LEFT_ARG) as nat, |j: int| 0u32));
    }
    assert(trace_record@ =~= noop_row_spec(op, cnt));
    trace_record
}

impl I64MathOp {
    /// Runs the instruction on `reg_file`: reads both operands, writes the result
    /// (two's-complement wraparound; `Sub` adds the wrapping negation of the right
    /// operand), advances the counter, and returns the emitted row.
    pub fn generate(&mut self, reg_file: &mut RegFile) -> (r: Vec<u32>)
        requires
            op_fits(*old(self), old(reg_file).int_regs@.len()),
            old(reg_file).cnt < P,
        ensures
            r@ == step_row(*old(self), old(reg_file).int_regs@, old(reg_file).cnt),
            r@.len() == BIN_OP_ROW_SIZE,
            final(reg_file).int_regs@ == step_regs(*old(self), old(reg_file).int_regs@),
            final(reg_file).cnt == old(reg_file).cnt + 1,
            *final(self) == (I64MathOp {
                left_arg: old(reg_file).int_regs@[old(self).left_reg_idx as int],
                right_arg: old(reg_file).int_regs@[old(self).right_reg_idx as int],
                ..*old(self)
            }),
    {
        let left_idx = self.left_reg_idx as usize;
        let right_idx = self.right_reg_idx as usize;
        let res_idx = self.res_reg_idx as usize;
        self.left_arg = reg_file.int_regs[left_idx];
        self.right_arg = reg_file.int_regs[right_idx];
        let trace_record = match self.op {
            I64MathOps::Add => {
                let r = self.left_arg.wrapping_add(self.right_arg);
                reg_file.int_regs.set(res_idx, r);
                populate_add_trace_record(self.op, reg_file.cnt, self.left_arg, self.right_arg, r)
            },
            I64MathOps::Sub => {
                let right_arg = 0i64.wrapping_sub(self.right_arg);
                let r = self.left_arg.wrapping_add(right_arg);
                reg_file.int_regs.set(res_idx, r);
                populate_add_trace_record(self.op, reg_file.cnt, self.left_arg, right_arg, r)
            },
            I64MathOps::NoOp => populate_noop_trace_record(self.op, reg_file.cnt),
        };
        reg_file.cnt = reg_file.cnt + 1;
        trace_record
    }
}

/// `r0 <- r0 + r1`.
pub fn add_op() -> (r: I64MathOp)
    ensures
        r == (I64MathOp {
            op: I64MathOps::Add,
            left_arg: 0,
            right_arg: 1,
            left_reg_idx: 0,
            right_reg_idx: 1,
            res_reg_idx: 0,
        }),
{
    I64MathOp {
        op: I64MathOps::Add,
        left_arg: 0,
        right_arg: 1,
        left_reg_idx: 0,
        right_reg_idx: 1,
        res_reg_idx: 0,
    }
}

/// `r0 <- r0 - r1`.
pub fn sub_op() -> (r: I64MathOp)
    ensures
        r == (I64MathOp {
            op: I64MathOps::Sub,
            left_arg: 0,
            right_arg: 1,
            left_reg_idx: 0,
            right_reg_idx: 1,
            res_reg_idx: 0,
        }),
{
    I64MathOp {
        op: I64MathOps::Sub,
        left_arg: 0,
        right_arg: 1,
        left_reg_idx: 0,
        right_reg_idx: 1,
        res_reg_idx: 0,
    }
}

/// The instruction that leaves the registers alone.
pub open spec fn no_op_spec() -> I64MathOp {
    I64MathOp {
        op: I64MathOps::NoOp,
        left_arg: 0,
        right_arg: 0,
        left_reg_idx: 0,
        right_reg_idx: 0,
        res_reg_idx: 0,
    }
}

/// An instruction that leaves the registers alone.
pub fn no_op() -> (r: I64MathOp)
    ensures
        r == no_op_spec(),
{
    I64MathOp {
        op: I64MathOps::NoOp,
        left_arg: 0,
        right_arg: 0,
        left_reg_idx: 0,
        right_reg_idx: 0,
        res_reg_idx: 0,
    }
}

/// The header row: counter 0, nine zero flags, then the 32 public values.
pub open spec fn first_row_spec(public_values: Seq<u32>) -> Seq<u32> {
    seq![0u32] + Seq::new(9, |i: int| 0u32) + public_values
}

impl MathOpFirstRow {
    /// The header fields for the given public values.
    pub fn new(public_values_sha256: [u32; 32]) -> (r: MathOpFirstRow)
        ensures
            r.cnt == 0,
            r.flags@ == Seq::new(9, |i: int| 0u32),
            r.public_values_sha256 == public_values_sha256,
    {
        let flags: [u32; 9] = [0u32; 9];
        assert(flags@ =~= Seq::new(9, |i: int| 0u32));
        MathOpFirstRow { cnt: 0, flags, public_values_sha256 }
    }

    /// The header fields laid out as one row.
    pub fn consume_as_vec(&mut self) -> (r: Vec<u32>)
        ensures
            r@ == seq![old(self).cnt] + old(self).flags@ + old(self).public_values_sha256@,
            *final(self) == *old(self),
    {
        let mut v: Vec<u32> = Vec::new();
        v.push(self.cnt);
        let mut i: usize = 0;
        while i < 9
            invariant
                i <= 9,
                v@ == seq![self.cnt] + self.flags@.take(i as int),
            decreases 9 - i,
        {
            v.push(self.flags[i]);
            i = i + 1;
            assert(v@ =~= seq![self.cnt] + self.flags@.take(i as int));
        }
        let ghost head = v@;
        let mut j: usize = 0;
        while j < 32
            invariant
                j <= 32,
                head == seq![self.cnt] + self.flags@.take(9),
                v@ == head + self.public_values_sha256@.take(j as int),
            decreases 32 - j,
        {
            v.push(self.public_values_sha256[j]);
            j = j + 1;
            assert(v@ =~= head + self.public_values_sha256@.take(j as int));
        }
        assert(self.flags@.take(9) =~= self.flags@);
        assert(self.public_values_sha256@.take(32) =~= self.public_values_sha256@);
        v
    }
}

/// The carry into limb `k`: none into limb 0.
pub open spec fn carry_in(l: i64, r: i64, k: nat) -> int {
    if k == 0 {
        0
    } else {
        carry_out(l, r, (k - 1) as nat)
    }
}

/// `left + right + carry_in - result` at limb `k`: what the constraint system
/// calls the limb's overflow.
pub open spec fn limb_overflow(l: i64, r: i64, res: i64, k: int) -> int {
    byte_of(l, k) + byte_of(r, k) + carry_in(l, r, k as nat) - byte_of(res, k)
}

proof fn lemma_shifted(u: int, k: nat)
    requires
        u >= 0,
    ensures
        pow256(k) > 0,
        shifted(u, k) == u / pow256(k),
    decreases k,
{
    if k > 0 {
        lemma_shifted(u, (k - 1) as nat);
        let p = pow256((k - 1) as nat);
        lemma_div_denominator(u, p, 256);
        assert(p * 256 == pow256(k));
    }
}

proof fn lemma_pow256_split(k: nat)
    requires
        k <= 8,
    ensures
        pow256(k) * pow256((8 - k) as nat) == 0x1_0000_0000_0000_0000,
        k < 8 ==> pow256((8 - k) as nat) == 256 * pow256((7 - k) as nat),
{
    assert(pow256(0) == 1);
    assert(pow256(1) == 0x100);
    assert(pow256(2) == 0x1_0000);
    assert(pow256(3) == 0x100_0000);
    assert(pow256(4) == 0x1_0000_0000);
    assert(pow256(5) == 0x100_0000_0000);
    assert(pow256(6) == 0x1_0000_0000_0000);
    assert(pow256(7) == 0x100_0000_0000_0000);
    assert(pow256(8) == 0x1_0000_0000_0000_0000);
    if k == 0 {
        assert(pow256(0) * pow256(8) == 0x1_0000_0000_0000_0000);
    } else if k == 1 {
        assert(pow256(1) * pow256(7) == 0x1_0000_0000_0000_0000);
    } else if k == 2 {
        assert(pow256(2) * pow256(6) == 0x1_0000_0000_0000_0000);
    } else if k == 3 {
        assert(pow256(3) * pow256(5) == 0x1_0000_0000_0000_0000);
    } else if k == 4 {
        assert(pow256(4) * pow256(4) == 0x1_0000_0000_0000_0000);
    } else if k == 5 {
        assert(pow256(5) * pow256(3) == 0x1_0000_0000_0000_0000);
    } else if k == 6 {
        assert(pow256(6) * pow256(2) == 0x1_0000_0000_0000_0000);
    } else if k == 7 {
        assert(pow256(7) * pow256(1) == 0x1_0000_0000_0000_0000);
    } else {
        assert(k == 8);
        assert(pow256(8) * pow256(0) == 0x1_0000_0000_0000_0000);
    }
}

/// The low `k` limbs of both operands carry `carry_in(k)` into limb `k`.
proof fn lemma_carry_in(l: i64, r: i64, k: nat)
    requires
        k <= 8,
    ensures
        ({
            let p = pow256(k);
            let t = u64_of(l) % p + u64_of(r) % p;
            &&& p > 0
            &&& 0 <= t < 2 * p
            &&& carry_in(l, r, k) == t / p
        }),
    decreases k,
{
    let a_all = u64_of(l);
    let b_all = u64_of(r);
    if k == 0 {
        assert(pow256(0) == 1);
        assert(a_all % 1 == 0 && b_all % 1 == 0);
    } else {
        let j = (k - 1) as nat;
        lemma_carry_in(l, r, j);
        let p = pow256(j);
        let t = a_all % p + b_all % p;
        let c = t / p;
        lemma_shifted(a_all, j);
        lemma_shifted(b_all, j);
        let a = (a_all / p) % 256;
        let b = (b_all / p) % 256;
        assert(byte_of(l, j as int) == a);
        assert(byte_of(r, j as int) == b);
        lemma_mod_breakdown(a_all, p, 256);
        lemma_mod_breakdown(b_all, p, 256);
        assert(pow256(k) == 256 * p);
        lemma_fundamental_div_mod(t, p);
        let rem = t % p;
        let s = a + b + c;
        let q = s / 256;
        let m = s % 256;
        lemma_fundamental_div_mod(s, 256);
        let t2 = a_all % (p * 256) + b_all % (p * 256);
        assert(t2 == p * s + rem) by (nonlinear_arith)
            requires
                t2 == a_all % (p * 256) + b_all % (p * 256),
                a_all % (p * 256) == p * a + a_all % p,
                b_all % (p * 256) == p * b + b_all % p,
                t == a_all % p + b_all % p,
                t == p * c + rem,
                s == a + b + c,
        ;
        assert(t2 == (p * 256) * q + (p * m + rem) && 0 <= p * m + rem < p * 256) by (nonlinear_arith)
            requires
                t2 == p * s + rem,
                s == 256 * q + m,
                0 <= m < 256,
                0 <= rem < p,
                p > 0,
        ;
        assert(t2 == q * (p * 256) + (p * m + rem)) by (nonlinear_arith)
            requires
                t2 == (p * 256) * q + (p * m + rem),
        ;
        lemma_fundamental_div_mod_converse(t2, p * 256, q, p * m + rem);
        assert(0 <= c <= 1);
        assert(0 <= a < 256 && 0 <= b < 256);
        assert(carry_out(l, r, j) == q);
        assert(0 <= t2 < 2 * (p * 256)) by (nonlinear_arith)
            requires
                t2 == (p * 256) * q + (p * m + rem),
                0 <= p * m + rem < p * 256,
                0 <= q <= 1,
        ;
    }
}

proof fn lemma_u64_of_wrapping_add(l: i64, r: i64)
    ensures
        u64_of(l.wrapping_add(r)) == u64_of(l) + u64_of(r) - (if u64_of(l) + u64_of(r)
            >= 0x1_0000_0000_0000_0000 {
            0x1_0000_0000_0000_0000int
        } else {
            0
        }),
{
}

/// The carry out of limb `k` of the byte-wise addition is 1 exactly when the
/// low `k + 1` bytes of the two operands' 64-bit patterns, added as unsigned
/// numbers, reach `256^(k + 1)`.
pub proof fn lemma_carry_is_low_bytes_overflow(l: i64, r: i64, k: int)
    requires
        0 <= k < 8,
    ensures
        pow256((k + 1) as nat) > 0,
        carry_out(l, r, k as nat) == (if u64_of(l) % pow256((k + 1) as nat) + u64_of(r) % pow256(
            (k + 1) as nat,
        ) >= pow256((k + 1) as nat) {
            1int
        } else {
            0int
        }),
{
    lemma_carry_in(l, r, (k + 1) as nat);
    let p = pow256((k + 1) as nat);
    let t = u64_of(l) % p + u64_of(r) % p;
    assert(carry_in(l, r, (k + 1) as nat) == carry_out(l, r, k as nat));
    if t >= p {
        vstd::arithmetic::div_mod::lemma_fundamental_div_mod_converse(t, p, 1, t - p);
    } else {
        vstd::arithmetic::div_mod::lemma_fundamental_div_mod_converse(t, p, 0, t);
    }
}

/// The bytes of `l + r` (wrapping) are the byte-wise sums with carry
/// propagation: at every limb, `left + right + carry_in - result` is 256 times
/// the carry out, so 0 or 256. Together with the carry bits of the row this is
/// what the constraint system asks of an arithmetic row.
pub proof fn lemma_add_carry_chain(l: i64, r: i64, k: int)
    requires
        0 <= k < 8,
    ensures
        limb_overflow(l, r, l.wrapping_add(r), k) == 256 * carry_out(l, r, k as nat),
        carry_out(l, r, k as nat) == 0 || carry_out(l, r, k as nat) == 1,
{
    let a_all = u64_of(l);
    let b_all = u64_of(r);
    let s_all = u64_of(l.wrapping_add(r));
    let kn = k as nat;
    lemma_carry_in(l, r, kn);
    let p = pow256(kn);
    let t = a_all % p + b_all % p;
    let c = t / p;
    lemma_shifted(a_all, kn);
    lemma_shifted(b_all, kn);
    lemma_shifted(s_all, kn);
    let a = (a_all / p) % 256;
    let b = (b_all / p) % 256;
    lemma_u64_of_wrapping_add(l, r);
    let w: int = if a_all + b_all >= 0x1_0000_0000_0000_0000 { 1 } else { 0 };
    lemma_pow256_split(kn);
    let hi = pow256((7 - k) as nat);
    lemma_fundamental_div_mod(a_all, p);
    lemma_fundamental_div_mod(b_all, p);
    lemma_fundamental_div_mod(t, p);
    let x = a_all / p + b_all / p + c;
    assert(s_all == p * (x - w * 256 * hi) + t % p) by (nonlinear_arith)
        requires
            s_all == a_all + b_all - w * 0x1_0000_0000_0000_0000int,
            p * (256 * hi) == 0x1_0000_0000_0000_0000int,
            a_all == p * (a_all / p) + a_all % p,
            b_all == p * (b_all / p) + b_all % p,
            t == a_all % p + b_all % p,
            t == p * c + t % p,
            x == a_all / p + b_all / p + c,
    ;
    let q = x - w * 256 * hi;
    assert(s_all == q * p + t % p) by (nonlinear_arith)
        requires
            s_all == p * q + t % p,
    ;
    assert(0 <= t % p < p) by {
        vstd::arithmetic::div_mod::lemma_mod_bound(t, p);
    }
    lemma_fundamental_div_mod_converse(s_all, p, q, t % p);
    lemma_mod_multiples_vanish(-(w * hi), x, 256);
    assert(x - w * 256 * hi == 256 * (-(w * hi)) + x) by (nonlinear_arith);
    lemma_fundamental_div_mod(a_all / p, 256);
    lemma_fundamental_div_mod(b_all / p, 256);
    lemma_mod_multiples_vanish((a_all / p) / 256 + (b_all / p) / 256, a + b + c, 256);
    assert(x == 256 * ((a_all / p) / 256 + (b_all / p) / 256) + (a + b + c)) by (nonlinear_arith)
        requires
            a_all / p == 256 * ((a_all / p) / 256) + a,
            b_all / p == 256 * ((b_all / p) / 256) + b,
            x == a_all / p + b_all / p + c,
    ;
    assert(byte_of(l.wrapping_add(r), k) == (a + b + c) % 256);
    assert(carry_in(l, r, kn) == c);
    assert(0 <= c <= 1);
    assert(0 <= a < 256 && 0 <= b < 256);
}

/// The overflow of limb `k` read off a row, as an integer.
pub open spec fn row_overflow(row: Seq<u32>, k: int) -> int {
    row[LEFT_ARG + k] + row[RIGHT_ARG + k] + (if k == 0 {
        0
    } else {
        row[CARRY_START + k - 1] as int
    }) - row[RESULT + k]
}

/// Every arithmetic row that an instruction emits satisfies, over the
/// integers, what the constraint system asks of it: each carry is a bit, the
/// overflow of limbs 0..7 is 256 times that limb's carry, and the overflow of
/// the top limb (whose carry is discarded) is 0 or 256.
pub proof fn lemma_row_satisfies_carry_relations(op: I64MathOp, regs: Seq<i64>, cnt: u32)
    requires
        op.op != I64MathOps::NoOp,
        op_fits(op, regs.len()),
    ensures
        ({
            let row = step_row(op, regs, cnt);
            &&& forall|k: int|
                0 <= k < CARRY ==> (row[CARRY_START + k] == 0 || row[CARRY_START + k] == 1)
                    && #[trigger] row_overflow(row, k) == 256 * row[CARRY_START + k]
            &&& (row_overflow(row, 7) == 0 || row_overflow(row, 7) == 256)
        }),
{
    let l = regs[op.left_reg_idx as int];
    let r0 = regs[op.right_reg_idx as int];
    let r = if op.op == I64MathOps::Add {
        r0
    } else {
        wneg(r0)
    };
    let row = step_row(op, regs, cnt);
    assert(row == add_row_spec(op.op, cnt, l, r, l.wrapping_add(r)));
    assert forall|k: int| 0 <= k < CARRY implies (row[CARRY_START + k] == 0 || row[CARRY_START
        + k] == 1) && #[trigger] row_overflow(row, k) == 256 * row[CARRY_START + k] by {
        lemma_add_carry_chain(l, r, k);
        assert(row[LEFT_ARG + k] == byte_of(l, k));
        assert(row[RIGHT_ARG + k] == byte_of(r, k));
        assert(row[RESULT + k] == byte_of(l.wrapping_add(r), k));
        assert(row[CARRY_START + k] == carry_out(l, r, k as nat) as u32);
        if k > 0 {
            assert(row[CARRY_START + k - 1] == carry_out(l, r, (k - 1) as nat) as u32);
            lemma_add_carry_chain(l, r, k - 1);
        }
    }
    lemma_add_carry_chain(l, r, 7);
    lemma_add_carry_chain(l, r, 6);
    assert(row[LEFT_ARG + 7] == byte_of(l, 7));
    assert(row[RIGHT_ARG + 7] == byte_of(r, 7));
    assert(row[RESULT + 7] == byte_of(l.wrapping_add(r), 7));
    assert(row[CARRY_START + 6] == carry_out(l, r, 6) as u32);
}

} // verus!
