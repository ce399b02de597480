use i64_air::layout::{BIN_OP_ROW_SIZE, CARRY_START, LEFT_ARG, RESULT, RIGHT_ARG};
use i64_air::math_ops::{
    add_op, no_op, populate_add_trace_record, populate_flags, populate_noop_trace_record, sub_op,
    I64MathOp, I64MathOps, MathOpFirstRow,
};
use i64_air::prog_exec::{
    dummy_32b_public_values, dummy_public_values_hash, generate_program_trace, to_field_values,
    Cli, ConfigurationError, ProgExec,
};
use i64_air::recursive_prover::{generate_recursive_proover_trace, RecursiveProver};
use i64_air::register::{init_regs, RegFile};
use sha2::{Digest, Sha256};

fn le_bytes(x: i64) -> Vec<u32> {
    x.to_le_bytes().iter().map(|&b| b as u32).collect()
}

fn program(ops: Vec<I64MathOp>, left: i64, right: i64) -> ProgExec {
    let mut regs = init_regs(2);
    regs.int_regs[0] = left;
    regs.int_regs[1] = right;
    ProgExec {
        ops,
        regs,
        global_nonce: dummy_32b_public_values(42),
        local_nonce: dummy_32b_public_values(43),
        hash_value: dummy_32b_public_values(44),
    }
}

fn once() -> Cli {
    Cli { programs: 1, repetitions: 1, recursive: false }
}

#[test]
fn reg_file_new_is_zeroed() {
    let r = RegFile::new(5);
    assert_eq!(r.int_regs, vec![0i64; 5]);
    assert_eq!(r.cnt, 0);
}

#[test]
fn init_regs_seeds_byte_patterns() {
    let r = init_regs(301);
    assert_eq!(r.cnt, 0);
    assert_eq!(r.int_regs.len(), 301);
    assert_eq!(r.int_regs[0], 0);
    assert_eq!(r.int_regs[1], 578437695752307201);
    assert_eq!(r.int_regs[2], 1156875391504614402);
    assert_eq!(r.int_regs[20], -6877990158663407596);
    assert_eq!(r.int_regs[40], 4618706162344808488);
    assert_eq!(r.int_regs[300], 6932175470377326636);
}

#[test]
fn flags_are_one_hot() {
    assert_eq!(populate_flags(I64MathOps::Add), vec![1, 0, 0, 0, 0, 0, 0, 0, 0, 0]);
    assert_eq!(populate_flags(I64MathOps::Sub), vec![0, 1, 0, 0, 0, 0, 0, 0, 0, 0]);
    assert_eq!(populate_flags(I64MathOps::NoOp), vec![0, 0, 1, 0, 0, 0, 0, 0, 0, 0]);
}

#[test]
fn default_opcode_is_add() {
    assert_eq!(I64MathOps::default(), I64MathOps::Add);
}

#[test]
fn carry_chain_on_32_bit_boundary() {
    let left: i64 = 65535;
    let right: i64 = 4294901761;
    let res = left.wrapping_add(right);
    assert_eq!(res, 4294967296);
    let row = populate_add_trace_record(I64MathOps::Add, 7, left, right, res);
    assert_eq!(row.len(), BIN_OP_ROW_SIZE);
    assert_eq!(row[0], 7);
    assert_eq!(&row[1..11], &[1, 0, 0, 0, 0, 0, 0, 0, 0, 0]);
    assert_eq!(&row[LEFT_ARG..RIGHT_ARG], &[255, 255, 0, 0, 0, 0, 0, 0]);
    assert_eq!(&row[RIGHT_ARG..RESULT], &[1, 0, 255, 255, 0, 0, 0, 0]);
    assert_eq!(&row[RESULT..CARRY_START], &[0, 0, 0, 0, 1, 0, 0, 0]);
    assert_eq!(&row[CARRY_START..], &[1, 1, 1, 1, 0, 0, 0]);
    // an independent byte-wise addition
    let (l, r) = (left.to_le_bytes(), right.to_le_bytes());
    let mut carry = 0u32;
    for i in 0..7 {
        let s = l[i] as u32 + r[i] as u32 + carry;
        carry = if s > 255 { 1 } else { 0 };
        assert_eq!(row[CARRY_START + i], carry);
        assert_eq!(row[RESULT + i], s % 256);
    }
}

#[test]
fn noop_row_is_counter_and_flag() {
    let row = populate_noop_trace_record(I64MathOps::NoOp, 9);
    let mut expected = vec![9, 0, 0, 1];
    expected.extend(vec![0; BIN_OP_ROW_SIZE - 4]);
    assert_eq!(row, expected);
}

#[test]
fn add_generates_row_and_updates_registers() {
    let mut regs = init_regs(2);
    regs.int_regs[0] = 65535;
    regs.int_regs[1] = 4294901761;
    let mut op = add_op();
    let row = op.generate(&mut regs);
    assert_eq!(regs.int_regs, vec![4294967296, 4294901761]);
    assert_eq!(regs.cnt, 1);
    assert_eq!(op.left_arg, 65535);
    assert_eq!(op.right_arg, 4294901761);
    assert_eq!(row, populate_add_trace_record(I64MathOps::Add, 0, 65535, 4294901761, 4294967296));
}

#[test]
fn add_wraps_on_overflow() {
    let mut regs = init_regs(2);
    regs.int_regs[0] = i64::MAX;
    regs.int_regs[1] = 1;
    let mut op = add_op();
    let row = op.generate(&mut regs);
    assert_eq!(regs.int_regs[0], i64::MIN);
    assert_eq!(&row[RESULT..CARRY_START], le_bytes(i64::MIN).as_slice());
    assert_eq!(&row[CARRY_START..], &[1, 1, 1, 1, 1, 1, 1]);
}

#[test]
fn sub_adds_the_negation() {
    let mut regs = init_regs(2);
    regs.int_regs[0] = 10;
    regs.int_regs[1] = 3;
    let mut op = sub_op();
    let row = op.generate(&mut regs);
    assert_eq!(regs.int_regs[0], 7);
    assert_eq!(&row[1..4], &[0, 1, 0]);
    assert_eq!(&row[RIGHT_ARG..RESULT], le_bytes(-3).as_slice());
    assert_eq!(&row[RESULT..CARRY_START], le_bytes(7).as_slice());
}

#[test]
fn sub_of_minimum_wraps() {
    let mut regs = init_regs(2);
    regs.int_regs[0] = 5;
    regs.int_regs[1] = i64::MIN;
    let mut op = sub_op();
    let row = op.generate(&mut regs);
    assert_eq!(regs.int_regs[0], 5i64.wrapping_add(i64::MIN));
    assert_eq!(regs.int_regs[0], -9223372036854775803);
    assert_eq!(&row[RIGHT_ARG..RESULT], &[0, 0, 0, 0, 0, 0, 0, 128]);
    assert_eq!(&row[RESULT..CARRY_START], &[5, 0, 0, 0, 0, 0, 0, 128]);
    assert_eq!(&row[CARRY_START..], &[0, 0, 0, 0, 0, 0, 0]);
}

#[test]
fn noop_leaves_registers() {
    let mut regs = init_regs(2);
    let before = regs.int_regs.clone();
    let mut op = no_op();
    let row = op.generate(&mut regs);
    assert_eq!(regs.int_regs, before);
    assert_eq!(regs.cnt, 1);
    assert_eq!(row, populate_noop_trace_record(I64MathOps::NoOp, 0));
}

#[test]
fn first_row_holds_public_values() {
    let mut pv = [0u32; 32];
    for (i, v) in pv.iter_mut().enumerate() {
        *v = i as u32 + 100;
    }
    let mut first = MathOpFirstRow::new(pv);
    let row = first.consume_as_vec();
    assert_eq!(row.len(), BIN_OP_ROW_SIZE);
    assert_eq!(&row[..10], &[0; 10]);
    assert_eq!(&row[10..], &pv);
}

#[test]
fn dummy_values_split_in_halves() {
    let v = dummy_32b_public_values(42);
    assert_eq!(&v[..16], &[42; 16]);
    assert_eq!(&v[16..], &[43; 16]);
    let w = dummy_32b_public_values(255);
    assert_eq!(&w[16..], &[0; 16]);
}

#[test]
fn public_values_hash_is_sha256_of_concatenation() {
    let g = dummy_32b_public_values(42);
    let l = dummy_32b_public_values(43);
    let h = dummy_32b_public_values(44);
    let d = dummy_public_values_hash(&g, &l, &h);
    let expected: [u8; 32] = [
        58, 204, 80, 90, 57, 149, 88, 117, 74, 201, 231, 75, 62, 173, 106, 160, 7, 15, 248, 84,
        234, 0, 112, 179, 184, 159, 121, 136, 112, 36, 23, 102,
    ];
    assert_eq!(d, expected);
    let mut all = Vec::new();
    all.extend_from_slice(&g);
    all.extend_from_slice(&l);
    all.extend_from_slice(&h);
    let direct: [u8; 32] = Sha256::digest(&all).into();
    assert_eq!(d, direct);
}

#[test]
fn field_values_keep_bytes() {
    assert_eq!(to_field_values(&[0, 7, 255]), vec![0, 7, 255]);
    assert_eq!(to_field_values(&[]), Vec::<u32>::new());
}

#[test]
fn trace_has_header_real_rows_and_padding() {
    let mut prog = program(vec![add_op(), sub_op(), add_op(), sub_op()], 65535, 4294901761);
    let digest = dummy_public_values_hash(&prog.global_nonce, &prog.local_nonce, &prog.hash_value);
    let trace = generate_program_trace(&mut prog, &once()).unwrap();
    // 4 real rows + 1 header row -> 8 rows
    assert_eq!(trace.rows.len(), 8);
    for row in &trace.rows {
        assert_eq!(row.len(), BIN_OP_ROW_SIZE);
    }
    let header = &trace.rows[0];
    assert_eq!(&header[..10], &[0; 10]);
    let digest_fields: Vec<u32> = digest.iter().map(|&b| b as u32).collect();
    assert_eq!(&header[10..], digest_fields.as_slice());
    for (i, row) in trace.rows.iter().enumerate() {
        assert_eq!(row[0], i as u32);
    }
    assert_eq!(&trace.rows[1][1..4], &[1, 0, 0]);
    assert_eq!(&trace.rows[2][1..4], &[0, 1, 0]);
    for row in &trace.rows[5..] {
        assert_eq!(&row[1..11], &[0, 0, 1, 0, 0, 0, 0, 0, 0, 0]);
        assert!(row[11..].iter().all(|&x| x == 0));
    }
    assert_eq!(prog.regs.cnt, 8);
    // r0 = 65535 + r1, then - r1, then + r1, then - r1
    assert_eq!(prog.regs.int_regs[0], 65535);
}

#[test]
fn trace_row_count_is_next_power_of_two() {
    for k in 0..10usize {
        let mut prog = program(vec![add_op(); k], 1, 2);
        let trace = generate_program_trace(&mut prog, &once()).unwrap();
        assert_eq!(trace.rows.len(), (k + 1).next_power_of_two());
    }
}

#[test]
fn repetitions_multiply_the_program() {
    let mut prog = program(vec![add_op(), sub_op(), add_op()], 1, 2);
    let cli = Cli { programs: 2, repetitions: 3, recursive: false };
    let trace = generate_program_trace(&mut prog, &cli).unwrap();
    // 18 real rows + header -> 32 rows
    assert_eq!(trace.rows.len(), 32);
    assert_eq!(&trace.rows[18][1..4], &[1, 0, 0]);
    assert_eq!(&trace.rows[19][1..4], &[0, 0, 1]);
    assert_eq!(prog.regs.int_regs[0], 1 + 6 * 2);
}

#[test]
fn trace_is_deterministic() {
    let mut a = program(vec![add_op(), sub_op(), add_op()], 123456789, -987654321);
    let mut b = program(vec![add_op(), sub_op(), add_op()], 123456789, -987654321);
    let ta = generate_program_trace(&mut a, &once()).unwrap();
    let tb = generate_program_trace(&mut b, &once()).unwrap();
    assert_eq!(ta.rows, tb.rows);
    assert_eq!(ta.values(), tb.values());
}

#[test]
fn values_are_row_major() {
    let mut prog = program(vec![add_op()], 1, 2);
    let trace = generate_program_trace(&mut prog, &once()).unwrap();
    let flat = trace.values();
    assert_eq!(flat.len(), 2 * BIN_OP_ROW_SIZE);
    assert_eq!(&flat[..BIN_OP_ROW_SIZE], trace.rows[0].as_slice());
    assert_eq!(&flat[BIN_OP_ROW_SIZE..], trace.rows[1].as_slice());
}

#[test]
fn bad_register_index_is_a_configuration_error() {
    let mut op = add_op();
    op.res_reg_idx = 2;
    let mut prog = program(vec![add_op(), op], 1, 2);
    let r = generate_program_trace(&mut prog, &once());
    assert!(matches!(r, Err(ConfigurationError::InvalidRegisterIndex)));
    assert_eq!(prog.regs.int_regs, vec![1, 2]);
    assert_eq!(prog.regs.cnt, 0);
}

#[test]
fn empty_register_file_runs_an_empty_program() {
    let mut prog = program(vec![], 1, 2);
    prog.regs = RegFile::new(0);
    let trace = generate_program_trace(&mut prog, &once()).unwrap();
    assert_eq!(trace.rows.len(), 1);
    assert_eq!(prog.regs.cnt, 1);
}

#[test]
fn empty_register_file_rejects_any_instruction() {
    let mut prog = program(vec![no_op()], 1, 2);
    prog.regs = RegFile::new(0);
    let r = generate_program_trace(&mut prog, &once());
    assert!(matches!(r, Err(ConfigurationError::InvalidRegisterIndex)));
}

#[test]
fn recursive_trace_rows() {
    let mut air = RecursiveProver::new();
    let rows = generate_recursive_proover_trace(&mut air);
    assert_eq!(rows, vec![vec![0, 1, 1, 1], vec![1, 1, 1, 1], vec![2, 1, 1, 1], vec![3, 1, 1, 1]]);
    assert_eq!(air.cnt, 4);
}
