//! The trace builder: runs a program on the register file and lays the emitted
//! rows out as a trace whose row count is a power of two, headed by a row that
//! carries the public digest.
use crate::field::P;
use crate::air::{add_terms, is_real_spec, lemma_instruction_rows_satisfy_constraints, lemma_unreal_row_vanishes, lift};
use crate::field::ext_zero;
use crate::layout::{BIN_OP_ROW_SIZE, DIGEST_LEN, DIGEST_START, FLAGS_START, LEFT_ARG, NUM_FLAGS};
use crate::math_ops::{
    first_row_spec, noop_row_spec, no_op, no_op_spec, op_fits, step_regs, step_row, I64MathOp, I64MathOps,
    MathOpFirstRow,
};
use crate::register::RegFile;
use sha2::{Digest, Sha256};
use vstd::prelude::*;

verus! {

/// The SHA-256 digest of a byte string.
pub uninterp spec fn sha256_of(data: Seq<u8>) -> Seq<u8>;

/// Relies on `sha2::Sha256::digest`: the 32-byte SHA-256 digest of `data`.
#[verifier::external_body]
fn sha256(data: &Vec<u8>) -> (r: [u8; 32])
    ensures
        r@ == sha256_of(data@),
{
    Sha256::digest(data.as_slice()).into()
}

/// How many times the program runs: `programs` rounds of `repetitions` passes.
pub struct Cli {
    pub programs: u8,
    pub repetitions: u16,
    pub recursive: bool,
}

/// A program, the register file it runs on, and the three values whose digest
/// becomes the trace's public values.
pub struct ProgExec {
    pub ops: Vec<I64MathOp>,
    pub regs: RegFile,
    pub global_nonce: [u8; 32],
    pub local_nonce: [u8; 32],
    pub hash_value: [u8; 32],
}

/// Why a program cannot run.
#[derive(Clone, Copy, Debug, PartialEq, Eq, Structural)]
pub enum ConfigurationError {
    /// An instruction names a register that the register file lacks.
    InvalidRegisterIndex,
}

/// A trace: rows of `BIN_OP_ROW_SIZE` canonical field elements.
pub struct ProgramTrace {
    pub rows: Vec<Vec<u32>>,
}

impl View for ProgramTrace {
    type V = Seq<Seq<u32>>;

    open spec fn view(&self) -> Seq<Seq<u32>> {
        self.rows@.map_values(|r: Vec<u32>| r@)
    }
}

/// The rows one after the other.
pub open spec fn flatten(rows: Seq<Seq<u32>>) -> Seq<u32>
    decreases rows.len(),
{
    if rows.len() == 0 {
        seq![]
    } else {
        flatten(rows.drop_last()) + rows.last()
    }
}

impl ProgramTrace {
    /// The number of field elements in a row.
    pub fn width(&self) -> (r: usize)
        ensures
            r == BIN_OP_ROW_SIZE,
    {
        BIN_OP_ROW_SIZE
    }

    /// The trace as one dense row-major sequence.
    pub fn values(&self) -> (r: Vec<u32>)
        ensures
            r@ == flatten(self@),
    {
        let mut out: Vec<u32> = Vec::new();
        let mut i: usize = 0;
        while i < self.rows.len()
            invariant
                i <= self@.len(),
                self@.len() == self.rows@.len(),
                out@ == flatten(self@.take(i as int)),
            decreases self.rows@.len() - i,
        {
            let row = &self.rows[i];
            let ghost before = out@;
            let mut j: usize = 0;
            while j < row.len()
                invariant
                    j <= row@.len(),
                    out@ == before + row@.take(j as int),
                decreases row@.len() - j,
            {
                out.push(row[j]);
                j = j + 1;
                assert(out@ =~= before + row@.take(j as int));
            }
            assert(row@.take(row@.len() as int) =~= row@);
            assert(self@.take(i + 1).drop_last() =~= self@.take(i as int));
            assert(self@[i as int] == row@);
            i = i + 1;
        }
        assert(self@.take(self@.len() as int) =~= self@);
        out
    }
}

/// 32 bytes: sixteen copies of `seed`, then sixteen of `seed + 1` (mod 256).
pub open spec fn dummy_values_spec(seed: u8) -> Seq<u8> {
    Seq::new(32, |i: int| if i < 16 { seed } else { seed.wrapping_add(1) })
}

/// 32 reproducible bytes derived from `seed`.
pub fn dummy_32b_public_values(seed: u8) -> (r: [u8; 32])
    ensures
        r@ == dummy_values_spec(seed),
{
    let mut public_values: [u8; 32] = [seed; 32];
    let next = seed.wrapping_add(1);
    let mut i: usize = 16;
    while i < 32
        invariant
            16 <= i <= 32,
            next == seed.wrapping_add(1),
            public_values@.len() == 32,
            forall|j: int| 0 <= j < 16 ==> public_values@[j] == seed,
            forall|j: int| 16 <= j < i ==> public_values@[j] == next,
            forall|j: int| i <= j < 32 ==> public_values@[j] == seed,
        decreases 32 - i,
    {
        public_values[i] = next;
        i = i + 1;
    }
    assert(public_values@ =~= dummy_values_spec(seed));
    public_values
}

/// The public digest: SHA-256 of the global nonce, the local nonce and the hash
/// value, in that order.
pub fn dummy_public_values_hash(global_nonce: &[u8; 32], local_nonce: &[u8; 32], hash_value: &[u8; 32]) -> (r: [u8; 32])
    ensures
        r@ == sha256_of(global_nonce@ + local_nonce@ + hash_value@),
{
    let mut data: Vec<u8> = Vec::new();
    let mut i: usize = 0;
    while i < 32
        invariant
            i <= 32,
            data@ == global_nonce@.take(i as int),
        decreases 32 - i,
    {
        data.push(global_nonce[i]);
        i = i + 1;
        assert(data@ =~= global_nonce@.take(i as int));
    }
    i = 0;
    while i < 32
        invariant
            i <= 32,
            data@ == global_nonce@ + local_nonce@.take(i as int),
        decreases 32 - i,
    {
        data.push(local_nonce[i]);
        i = i + 1;
        assert(data@ =~= global_nonce@ + local_nonce@.take(i as int));
    }
    i = 0;
    while i < 32
        invariant
            i <= 32,
            data@ == global_nonce@ + local_nonce@ + hash_value@.take(i as int),
        decreases 32 - i,
    {
        data.push(hash_value[i]);
        i = i + 1;
        assert(data@ =~= global_nonce@ + local_nonce@ + hash_value@.take(i as int));
    }
    assert(global_nonce@.take(32) =~= global_nonce@);
    assert(local_nonce@.take(32) =~= local_nonce@);
    assert(hash_value@.take(32) =~= hash_value@);
    sha256(&data)
}

/// Each byte as the field element of the same value.
pub open spec fn field_values_spec(values: Seq<u8>) -> Seq<u32> {
    values.map_values(|b: u8| b as u32)
}

/// Each byte as the field element of the same value.
pub fn to_field_values(values: &[u8]) -> (r: Vec<u32>)
    ensures
        r@ == field_values_spec(values@),
{
    let mut out: Vec<u32> = Vec::new();
    let mut i: usize = 0;
    while i < values.len()
        invariant
            i <= values@.len(),
            out@ == field_values_spec(values@.take(i as int)),
        decreases values@.len() - i,
    {
        out.push(values[i] as u32);
        i = i + 1;
        assert(out@ =~= field_values_spec(values@.take(i as int)));
    }
    assert(values@.take(values@.len() as int) =~= values@);
    out
}

/// The program run `times` times over, instruction after instruction.
pub open spec fn repeated_ops(ops: Seq<I64MathOp>, times: nat) -> Seq<I64MathOp> {
    Seq::new(ops.len() * times, |j: int| ops[j % (ops.len() as int)])
}

/// The registers after the first `n` instructions of `ops` ran on `regs`.
pub open spec fn run_regs(ops: Seq<I64MathOp>, regs: Seq<i64>, n: nat) -> Seq<i64>
    decreases n,
{
    if n == 0 {
        regs
    } else {
        step_regs(ops[n - 1], run_regs(ops, regs, (n - 1) as nat))
    }
}

/// The rows that the first `n` instructions of `ops` emit, the first with counter `cnt`.
pub open spec fn run_rows(ops: Seq<I64MathOp>, regs: Seq<i64>, cnt: int, n: nat) -> Seq<Seq<u32>>
    decreases n,
{
    if n == 0 {
        seq![]
    } else {
        run_rows(ops, regs, cnt, (n - 1) as nat).push(
            step_row(ops[n - 1], run_regs(ops, regs, (n - 1) as nat), (cnt + n - 1) as u32),
        )
    }
}

/// `count` padding rows, the first with counter `cnt`.
pub open spec fn padding_rows(cnt: int, count: nat) -> Seq<Seq<u32>> {
    Seq::new(count, |i: int| noop_row_spec(I64MathOps::NoOp, (cnt + i) as u32))
}

pub open spec fn next_pow2_from(n: nat, p: nat) -> nat
    decreases (if p < n { n - p } else { 0 }),
{
    if p == 0 || p >= n {
        p
    } else {
        next_pow2_from(n, 2 * p)
    }
}

/// The least power of two that is at least `n`.
pub open spec fn next_pow2(n: nat) -> nat {
    next_pow2_from(n, 1)
}

pub open spec fn is_pow2(x: nat) -> bool
    decreases x,
{
    if x == 1 {
        true
    } else if x == 0 || x % 2 == 1 {
        false
    } else {
        is_pow2(x / 2)
    }
}

/// Whether `ops` can run on a register file of `n` registers.
pub open spec fn program_fits(ops: Seq<I64MathOp>, n: nat) -> bool {
    forall|i: int| 0 <= i < ops.len() ==> op_fits(#[trigger] ops[i], n)
}

/// The number of real instructions a run executes.
pub open spec fn real_count(ops_len: nat, cli: Cli) -> nat {
    ops_len * (cli.programs as nat * cli.repetitions as nat)
}

/// The public values bound into the header row.
pub open spec fn public_digest_spec(g: Seq<u8>, l: Seq<u8>, h: Seq<u8>) -> Seq<u32> {
    field_values_spec(sha256_of(g + l + h))
}

/// The whole trace of a run: the header row, one row per executed instruction,
/// then padding rows up to the next power of two.
pub open spec fn program_trace_spec(
    ops: Seq<I64MathOp>,
    cli: Cli,
    regs: Seq<i64>,
    cnt: u32,
    digest: Seq<u32>,
) -> Seq<Seq<u32>> {
    let k = real_count(ops.len(), cli);
    let flat = repeated_ops(ops, cli.programs as nat * cli.repetitions as nat);
    seq![first_row_spec(digest)] + run_rows(flat, regs, cnt + 1, k) + padding_rows(
        cnt + 1 + k,
        (next_pow2(k + 1) - (k + 1)) as nat,
    )
}

proof fn lemma_next_pow2_from(n: nat, p: nat)
    requires
        p >= 1,
        is_pow2(p),
    ensures
        is_pow2(next_pow2_from(n, p)),
        next_pow2_from(n, p) >= n,
        next_pow2_from(n, p) >= p,
        next_pow2_from(n, p) == p || next_pow2_from(n, p) < 2 * n,
        next_pow2_from(n, p) == p || next_pow2_from(n, p) / 2 < n,
    decreases (if p < n { n - p } else { 0 }),
{
    if p < n {
        assert((2 * p) / 2 == p);
        assert(is_pow2(2 * p));
        lemma_next_pow2_from(n, 2 * p);
    }
}

/// The least power of two that is at least `n`, and how it relates to `n`.
proof fn lemma_next_pow2(n: nat)
    ensures
        is_pow2(next_pow2(n)),
        next_pow2(n) >= n,
        next_pow2(n) >= 1,
        next_pow2(n) <= 2 * n || n == 0,
        next_pow2(n) == 1 || next_pow2(n) / 2 < n,
{
    lemma_next_pow2_from(n, 1);
}

/// The least power of two that is at least `n`.
fn next_power_of_two(n: usize) -> (r: usize)
    requires
        n < P,
    ensures
        r as nat == next_pow2(n as nat),
{
    proof {
        lemma_next_pow2(n as nat);
    }
    let mut p: usize = 1;
    while p < n
        invariant
            1 <= p,
            p <= next_pow2(n as nat),
            n < P,
            next_pow2_from(n as nat, p as nat) == next_pow2(n as nat),
            next_pow2(n as nat) <= 2 * n || n == 0,
            is_pow2(p as nat),
        decreases next_pow2(n as nat) - p,
    {
        proof {
            assert((2 * p) as nat / 2 == p as nat);
            assert(is_pow2((2 * p) as nat));
            lemma_next_pow2_from(n as nat, (2 * p) as nat);
        }
        p = p * 2;
    }
    p
}

/// Appends no-op rows until the row count is a power of two.
fn fill_up_with_no_ops(values: &mut Vec<Vec<u32>>, reg_file: &mut RegFile)
    requires
        old(reg_file).int_regs@.len() > 0 || next_pow2(old(values)@.len()) == old(values)@.len(),
        old(values)@.len() >= 1,
        old(reg_file).cnt as int + old(values)@.len() < P,
    ensures
        final(values)@.map_values(|r: Vec<u32>| r@) == old(values)@.map_values(|r: Vec<u32>| r@)
            + padding_rows(
            old(reg_file).cnt as int,
            (next_pow2(old(values)@.len()) - old(values)@.len()) as nat,
        ),
        final(values)@.len() == next_pow2(old(values)@.len()),
        final(reg_file).int_regs@ == old(reg_file).int_regs@,
        final(reg_file).cnt == old(reg_file).cnt + (next_pow2(old(values)@.len()) - old(values)@.len()),
{
    proof {
        lemma_next_pow2(old(values)@.len());
    }
    let actual_num_of_ops = values.len();
    let next_pow_of_2 = next_power_of_two(actual_num_of_ops);
    let mut i: usize = actual_num_of_ops;
    while i < next_pow_of_2
        invariant
            actual_num_of_ops <= i <= next_pow_of_2,
            actual_num_of_ops == old(values)@.len(),
            next_pow_of_2 == next_pow2(actual_num_of_ops as nat),
            next_pow_of_2 <= 2 * actual_num_of_ops,
            values@.len() == i,
            reg_file.int_regs@ == old(reg_file).int_regs@,
            reg_file.int_regs@.len() > 0 || i == next_pow_of_2,
            reg_file.cnt == old(reg_file).cnt + (i - actual_num_of_ops),
            old(reg_file).cnt as int + actual_num_of_ops < P,
            values@.map_values(|r: Vec<u32>| r@) == old(values)@.map_values(|r: Vec<u32>| r@)
                + padding_rows(old(reg_file).cnt as int, (i - actual_num_of_ops) as nat),
        decreases next_pow_of_2 - i,
    {
        let mut op = no_op();
        let ghost cnt_before = reg_file.cnt;
        let ghost before = values@;
        let next_record = op.generate(reg_file);
        assert(next_record@ == noop_row_spec(I64MathOps::NoOp, cnt_before));
        values.push(next_record);
        assert(values@ == before.push(next_record));
        assert(values@.map_values(|r: Vec<u32>| r@) =~= before.map_values(|r: Vec<u32>| r@).push(next_record@));
        i = i + 1;
        assert(padding_rows(old(reg_file).cnt as int, (i - actual_num_of_ops) as nat)
            =~= padding_rows(old(reg_file).cnt as int, (i - 1 - actual_num_of_ops) as nat).push(
                noop_row_spec(I64MathOps::NoOp, cnt_before)));
        assert(values@.map_values(|r: Vec<u32>| r@) =~= old(values)@.map_values(|r: Vec<u32>| r@)
            + padding_rows(old(reg_file).cnt as int, (i - actual_num_of_ops) as nat));
    }
}

proof fn lemma_run_rows_len(ops: Seq<I64MathOp>, regs: Seq<i64>, cnt: int, n: nat)
    ensures
        run_rows(ops, regs, cnt, n).len() == n,
    decreases n,
{
    if n > 0 {
        lemma_run_rows_len(ops, regs, cnt, (n - 1) as nat);
    }
}

/// Whether `ops` can run on a register file of `n` registers.
fn check_program(ops: &Vec<I64MathOp>, n: usize) -> (r: bool)
    ensures
        r == program_fits(ops@, n as nat),
{
    let mut i: usize = 0;
    while i < ops.len()
        invariant
            i <= ops@.len(),
            forall|j: int| 0 <= j < i ==> op_fits(#[trigger] ops@[j], n as nat),
        decreases ops@.len() - i,
    {
        let op = ops[i];
        if !((op.left_reg_idx as usize) < n && (op.right_reg_idx as usize) < n && (op.res_reg_idx
            as usize) < n) {
            return false;
        }
        i = i + 1;
    }
    true
}

/// Runs the program `cli.programs * cli.repetitions` times over on `prog.regs`
/// and returns its trace: the header row (counter 0, the public digest from
/// offset 10), one row per executed instruction, then no-op rows up to the next
/// power of two. Fails, before running anything, when an instruction names a
/// register that `prog.regs` lacks.
pub fn generate_program_trace(prog: &mut ProgExec, cli: &Cli) -> (r: Result<
    ProgramTrace,
    ConfigurationError,
>)
    requires
        old(prog).regs.cnt as int + 2 * (real_count(old(prog).ops@.len(), *cli) + 1) < P,
    ensures
        final(prog).ops@ == old(prog).ops@,
        final(prog).global_nonce == old(prog).global_nonce,
        final(prog).local_nonce == old(prog).local_nonce,
        final(prog).hash_value == old(prog).hash_value,
        r is Ok <==> program_fits(old(prog).ops@, old(prog).regs.int_regs@.len()),
        r is Err ==> r == Err::<ProgramTrace, ConfigurationError>(
            ConfigurationError::InvalidRegisterIndex,
        ) && final(prog).regs.int_regs@ == old(prog).regs.int_regs@ && final(prog).regs.cnt == old(
            prog,
        ).regs.cnt,
        r matches Ok(t) ==> t@ == program_trace_spec(
            old(prog).ops@,
            *cli,
            old(prog).regs.int_regs@,
            old(prog).regs.cnt,
            public_digest_spec(old(prog).global_nonce@, old(prog).local_nonce@, old(prog).hash_value@),
        ) && final(prog).regs.int_regs@ == run_regs(
            repeated_ops(old(prog).ops@, cli.programs as nat * cli.repetitions as nat),
            old(prog).regs.int_regs@,
            real_count(old(prog).ops@.len(), *cli),
        ) && final(prog).regs.cnt == old(prog).regs.cnt + next_pow2(
            real_count(old(prog).ops@.len(), *cli) + 1,
        ),
{
    if !check_program(&prog.ops, prog.regs.int_regs.len()) {
        return Err(ConfigurationError::InvalidRegisterIndex);
    }
    let digest = dummy_public_values_hash(&prog.global_nonce, &prog.local_nonce, &prog.hash_value);
    let public_values = to_field_values(digest.as_slice());
    let mut pv_arr: [u32; 32] = [0u32; 32];
    let mut i: usize = 0;
    while i < 32
        invariant
            i <= 32,
            public_values@.len() == 32,
            pv_arr@.len() == 32,
            forall|j: int| 0 <= j < i ==> pv_arr@[j] == public_values@[j],
        decreases 32 - i,
    {
        pv_arr[i] = public_values[i];
        i = i + 1;
    }
    assert(pv_arr@ =~= public_values@);
    let mut header = MathOpFirstRow::new(pv_arr);
    let first_row = header.consume_as_vec();
    assert(first_row@ =~= first_row_spec(public_values@));
    let mut values: Vec<Vec<u32>> = Vec::new();
    values.push(first_row);
    let ghost regs0 = prog.regs.int_regs@;
    let ghost cnt0 = prog.regs.cnt;
    let ghost ops0 = prog.ops@;
    let ghost flat = repeated_ops(ops0, cli.programs as nat * cli.repetitions as nat);
    prog.regs.cnt = prog.regs.cnt + 1;
    assert(cli.programs as int * cli.repetitions as int <= 255 * 65535) by (nonlinear_arith)
        requires
            cli.programs <= 255,
            cli.repetitions <= 65535,
    ;
    let times: usize = cli.programs as usize * cli.repetitions as usize;
    let n_ops = prog.ops.len();
    let k: usize = n_ops * times;
    let mut j: usize = 0;
    assert(values@.map_values(|r: Vec<u32>| r@) =~= seq![first_row_spec(public_values@)] + run_rows(
        flat,
        regs0,
        cnt0 + 1,
        0,
    ));
    while j < k
        invariant
            j <= k,
            k == real_count(ops0.len(), *cli),
            k == flat.len(),
            n_ops == ops0.len(),
            flat == repeated_ops(ops0, cli.programs as nat * cli.repetitions as nat),
            prog.ops@ == ops0,
            program_fits(ops0, regs0.len()),
            prog.regs.int_regs@ == run_regs(flat, regs0, j as nat),
            prog.regs.int_regs@.len() == regs0.len(),
            prog.regs.cnt == cnt0 + 1 + j,
            cnt0 as int + 2 * (k + 1) < P,
            values@.map_values(|r: Vec<u32>| r@) == seq![first_row_spec(public_values@)]
                + run_rows(flat, regs0, cnt0 + 1, j as nat),
            prog.global_nonce == old(prog).global_nonce,
            prog.local_nonce == old(prog).local_nonce,
            prog.hash_value == old(prog).hash_value,
        decreases k - j,
    {
        let mut op = prog.ops[j % n_ops];
        assert(flat[j as int] == ops0[(j % n_ops) as int]);
        assert(op_fits(ops0[(j % n_ops) as int], regs0.len()));
        let ghost before = values@;
        let ghost cnt_before = prog.regs.cnt;
        let next_record = op.generate(&mut prog.regs);
        values.push(next_record);
        assert(values@.map_values(|r: Vec<u32>| r@) =~= before.map_values(|r: Vec<u32>| r@).push(
            next_record@,
        ));
        j = j + 1;
        assert(values@.map_values(|r: Vec<u32>| r@) =~= seq![first_row_spec(public_values@)]
            + run_rows(flat, regs0, cnt0 + 1, j as nat));
    }
    proof {
        lemma_run_rows_len(flat, regs0, cnt0 + 1, k as nat);
        if regs0.len() == 0 && n_ops > 0 {
            assert(op_fits(ops0[0], regs0.len()));
        }
        assert(next_pow2(1) == 1);
    }
    fill_up_with_no_ops(&mut values, &mut prog.regs);
    let t = ProgramTrace { rows: values };
    assert(t@ =~= program_trace_spec(
        ops0,
        *cli,
        regs0,
        cnt0,
        public_digest_spec(old(prog).global_nonce@, old(prog).local_nonce@, old(prog).hash_value@),
    ));
    Ok(t)
}

/// Running the trace builder twice on the same program, repetition counts,
/// register state and public digest yields the same rows and leaves the same
/// registers behind (the counter ends at `cnt + next_pow2(k + 1)` both times).
pub proof fn lemma_trace_deterministic(
    ops1: Seq<I64MathOp>,
    ops2: Seq<I64MathOp>,
    cli1: Cli,
    cli2: Cli,
    regs1: Seq<i64>,
    regs2: Seq<i64>,
    cnt1: u32,
    cnt2: u32,
    digest1: Seq<u32>,
    digest2: Seq<u32>,
)
    requires
        ops1 == ops2,
        cli1.programs == cli2.programs,
        cli1.repetitions == cli2.repetitions,
        regs1 == regs2,
        cnt1 == cnt2,
        digest1 == digest2,
    ensures
        program_trace_spec(ops1, cli1, regs1, cnt1, digest1) == program_trace_spec(
            ops2,
            cli2,
            regs2,
            cnt2,
            digest2,
        ),
        run_regs(
            repeated_ops(ops1, cli1.programs as nat * cli1.repetitions as nat),
            regs1,
            real_count(ops1.len(), cli1),
        ) == run_regs(
            repeated_ops(ops2, cli2.programs as nat * cli2.repetitions as nat),
            regs2,
            real_count(ops2.len(), cli2),
        ),
{
    assert(real_count(ops1.len(), cli1) == real_count(ops2.len(), cli2));
}

/// A run with `k` real instructions yields exactly `next_pow2(k + 1)` rows (the
/// least power of two that holds the header and the `k` real rows), and every
/// row after them carries the no-op flag alone and zeros past the flags.
pub proof fn lemma_padding_law(
    ops: Seq<I64MathOp>,
    cli: Cli,
    regs: Seq<i64>,
    cnt: u32,
    digest: Seq<u32>,
)
    ensures
        ({
            let t = program_trace_spec(ops, cli, regs, cnt, digest);
            let k = real_count(ops.len(), cli);
            &&& t.len() == next_pow2(k + 1)
            &&& is_pow2(t.len())
            &&& t.len() >= k + 1
            &&& t.len() == 1 || t.len() / 2 < k + 1
            &&& forall|i: int|
                k + 1 <= i < t.len() ==> {
                    &&& (#[trigger] t[i]).len() == BIN_OP_ROW_SIZE
                    &&& t[i][FLAGS_START + 2] == 1
                    &&& forall|j: int|
                        FLAGS_START <= j < FLAGS_START + NUM_FLAGS && j != FLAGS_START + 2
                            ==> t[i][j] == 0
                    &&& forall|j: int| LEFT_ARG <= j < BIN_OP_ROW_SIZE ==> t[i][j] == 0
                }
        }),
{
    let t = program_trace_spec(ops, cli, regs, cnt, digest);
    let k = real_count(ops.len(), cli);
    let flat = repeated_ops(ops, cli.programs as nat * cli.repetitions as nat);
    lemma_run_rows_len(flat, regs, cnt + 1, k);
    lemma_next_pow2(k + 1);
    let pad = padding_rows(cnt + 1 + k, (next_pow2(k + 1) - (k + 1)) as nat);
    assert forall|i: int| k + 1 <= i < t.len() implies {
        &&& (#[trigger] t[i]).len() == BIN_OP_ROW_SIZE
        &&& t[i][FLAGS_START + 2] == 1
        &&& forall|j: int|
            FLAGS_START <= j < FLAGS_START + NUM_FLAGS && j != FLAGS_START + 2 ==> t[i][j] == 0
        &&& forall|j: int| LEFT_ARG <= j < BIN_OP_ROW_SIZE ==> t[i][j] == 0
    } by {
        assert(t[i] == pad[i - (k + 1)]);
    }
}

proof fn lemma_run_rows_counters(ops: Seq<I64MathOp>, regs: Seq<i64>, cnt: int, n: nat)
    requires
        0 <= cnt,
        cnt + n < P,
    ensures
        forall|j: int| 0 <= j < n ==> (#[trigger] run_rows(ops, regs, cnt, n)[j])[0] == cnt + j,
    decreases n,
{
    lemma_run_rows_len(ops, regs, cnt, n);
    if n > 0 {
        lemma_run_rows_counters(ops, regs, cnt, (n - 1) as nat);
        lemma_run_rows_len(ops, regs, cnt, (n - 1) as nat);
        let c = (cnt + n - 1) as u32;
        let row = step_row(ops[n - 1], run_regs(ops, regs, (n - 1) as nat), c);
        assert(row[0] == c);
    }
}

/// The counter column of a run's trace: 0 on the header row, then one more on
/// each row, so every adjacent pair of rows meets the transition relation.
pub proof fn lemma_trace_counters(
    ops: Seq<I64MathOp>,
    cli: Cli,
    regs: Seq<i64>,
    cnt: u32,
    digest: Seq<u32>,
)
    requires
        cnt as int + 2 * (real_count(ops.len(), cli) + 1) < P,
    ensures
        ({
            let t = program_trace_spec(ops, cli, regs, cnt, digest);
            &&& t[0][0] == 0
            &&& forall|i: int| 1 <= i < t.len() ==> (#[trigger] t[i])[0] == cnt + i
        }),
{
    let t = program_trace_spec(ops, cli, regs, cnt, digest);
    let k = real_count(ops.len(), cli);
    let flat = repeated_ops(ops, cli.programs as nat * cli.repetitions as nat);
    lemma_run_rows_len(flat, regs, cnt + 1, k);
    lemma_run_rows_counters(flat, regs, cnt + 1, k);
    lemma_next_pow2(k + 1);
    let rows = run_rows(flat, regs, cnt + 1, k);
    let pad = padding_rows(cnt + 1 + k, (next_pow2(k + 1) - (k + 1)) as nat);
    assert forall|i: int| 1 <= i < t.len() implies (#[trigger] t[i])[0] == cnt + i by {
        if i < k + 1 {
            assert(t[i] == rows[i - 1]);
        } else {
            assert(t[i] == pad[i - (k + 1)]);
        }
    }
}

proof fn lemma_run_regs_len(ops: Seq<I64MathOp>, regs: Seq<i64>, n: nat)
    requires
        n <= ops.len(),
        forall|i: int| 0 <= i < ops.len() ==> op_fits(#[trigger] ops[i], regs.len()),
    ensures
        run_regs(ops, regs, n).len() == regs.len(),
    decreases n,
{
    if n > 0 {
        lemma_run_regs_len(ops, regs, (n - 1) as nat);
    }
}

/// Row `j` of a run is what instruction `j` emits on the registers that the
/// instructions before it left.
proof fn lemma_run_rows_index(ops: Seq<I64MathOp>, regs: Seq<i64>, cnt: int, n: nat, j: int)
    requires
        0 <= j < n,
    ensures
        run_rows(ops, regs, cnt, n)[j] == step_row(ops[j], run_regs(ops, regs, j as nat), (cnt + j) as u32),
    decreases n,
{
    lemma_run_rows_len(ops, regs, cnt, (n - 1) as nat);
    if j < n - 1 {
        lemma_run_rows_index(ops, regs, cnt, (n - 1) as nat, j);
    }
}

/// Lifted into the extension, every row of a run's trace (header, instruction
/// rows and padding) makes all 30 arithmetic assertions vanish, and the header
/// row holds public value `i` in slot `DIGEST_START + i`.
pub proof fn lemma_trace_satisfies_arithmetic_constraints(
    ops: Seq<I64MathOp>,
    cli: Cli,
    regs: Seq<i64>,
    cnt: u32,
    digest: Seq<u32>,
)
    requires
        program_fits(ops, regs.len()),
        cnt as int + 2 * (real_count(ops.len(), cli) + 1) < P,
        digest.len() == DIGEST_LEN,
        forall|i: int| 0 <= i < digest.len() ==> #[trigger] digest[i] < P,
    ensures
        ({
            let t = program_trace_spec(ops, cli, regs, cnt, digest);
            &&& forall|i: int|
                0 <= i < t.len() ==> add_terms(lift(#[trigger] t[i]), is_real_spec(lift(t[i])))
                    == Seq::new(30, |j: int| ext_zero())
            &&& forall|i: int| 0 <= i < DIGEST_LEN ==> t[0][DIGEST_START + i] == #[trigger] digest[i]
        }),
{
    let t = program_trace_spec(ops, cli, regs, cnt, digest);
    let k = real_count(ops.len(), cli);
    let times = cli.programs as nat * cli.repetitions as nat;
    let flat = repeated_ops(ops, times);
    lemma_run_rows_len(flat, regs, cnt + 1, k);
    lemma_next_pow2(k + 1);
    let rows = run_rows(flat, regs, cnt + 1, k);
    let pad = padding_rows(cnt + 1 + k, (next_pow2(k + 1) - (k + 1)) as nat);
    assert(t[0] == first_row_spec(digest));
    assert forall|i: int| 0 <= i < flat.len() implies op_fits(#[trigger] flat[i], regs.len()) by {
        assert(flat[i] == ops[i % (ops.len() as int)]);
    }
    assert forall|i: int| 0 <= i < t.len() implies add_terms(lift(#[trigger] t[i]), is_real_spec(lift(t[i])))
        == Seq::new(30, |j: int| ext_zero()) by {
        if i == 0 {
            let h = first_row_spec(digest);
            assert(t[0] == h);
            assert forall|x: int| 0 <= x < h.len() implies #[trigger] h[x] < P by {
            }
            lemma_unreal_row_vanishes(h);
        } else if i < k + 1 {
            let j = i - 1;
            lemma_run_rows_index(flat, regs, cnt + 1, k, j);
            lemma_run_regs_len(flat, regs, j as nat);
            assert(t[i] == rows[j]);
            lemma_instruction_rows_satisfy_constraints(flat[j], run_regs(flat, regs, j as nat), (cnt + 1 + j) as u32);
        } else {
            let j = i - (k + 1);
            assert(t[i] == pad[j]);
            lemma_instruction_rows_satisfy_constraints(no_op_spec(), seq![0i64], (cnt + 1 + k + j) as u32);
            assert(step_row(no_op_spec(), seq![0i64], (cnt + 1 + k + j) as u32) == pad[j]);
        }
    }
}

} // verus!
