//! The register file: a bank of signed 64-bit registers and a step counter.
use vstd::prelude::*;

verus! {

/// A bank of signed 64-bit registers and the counter of rows emitted so far.
#[derive(Clone, Debug)]
pub struct RegFile {
    pub int_regs: Vec<i64>,
    pub cnt: u32,
}

pub open spec fn pow256(k: nat) -> int
    decreases k,
{
    if k == 0 {
        1
    } else {
        256 * pow256((k - 1) as nat)
    }
}

/// Byte `k` of the seeded value of register `i`: `(k + 1) * i`, both taken mod 256.
pub open spec fn seed_byte(i: int, k: int) -> int {
    ((k + 1) * (i % 256)) % 256
}

/// The little-endian value of seed bytes `k..8` of register `i`.
pub open spec fn seed_le_from(i: int, k: int) -> int
    decreases 8 - k,
{
    if k >= 8 {
        0
    } else {
        seed_byte(i, k) + 256 * seed_le_from(i, k + 1)
    }
}

/// The signed value whose 64-bit two's-complement pattern is `u`.
pub open spec fn i64_of_pattern(u: int) -> i64 {
    if u < 0x8000_0000_0000_0000 {
        u as i64
    } else {
        (u - 0x1_0000_0000_0000_0000) as i64
    }
}

/// The seeded initial value of register `i`.
pub open spec fn seed_value(i: int) -> i64 {
    i64_of_pattern(seed_le_from(i, 0))
}

proof fn lemma_seed_le_bound(i: int, k: int)
    requires
        0 <= k <= 8,
    ensures
        0 <= seed_le_from(i, k) < pow256((8 - k) as nat),
    decreases 8 - k,
{
    if k < 8 {
        lemma_seed_le_bound(i, k + 1);
        let r = seed_le_from(i, k + 1);
        let p = pow256((7 - k) as nat);
        assert(pow256((8 - k) as nat) == 256 * p);
        assert(0 <= seed_byte(i, k) < 256);
        assert(0 <= seed_byte(i, k) + 256 * r < 256 * p) by (nonlinear_arith)
            requires
                0 <= seed_byte(i, k) < 256,
                0 <= r < p,
        ;
    }
}

impl RegFile {
    /// A register file of `reg_file_size` zeroed registers, counter 0.
    pub fn new(reg_file_size: usize) -> (r: RegFile)
        ensures
            r.int_regs@ == Seq::new(reg_file_size as nat, |i: int| 0i64),
            r.cnt == 0,
    {
        let mut int_regs: Vec<i64> = Vec::new();
        let mut i: usize = 0;
        while i < reg_file_size
            invariant
                i <= reg_file_size,
                int_regs@ == Seq::new(i as nat, |j: int| 0i64),
            decreases reg_file_size - i,
        {
            int_regs.push(0);
            i = i + 1;
            assert(int_regs@ =~= Seq::new(i as nat, |j: int| 0i64));
        }
        RegFile { int_regs, cnt: 0 }
    }
}

/// A register file of `regs_num` registers holding the seeded values, counter 0.
pub fn init_regs(regs_num: usize) -> (r: RegFile)
    ensures
        r.int_regs@ == Seq::new(regs_num as nat, |i: int| seed_value(i)),
        r.cnt == 0,
{
    let mut regs = RegFile::new(regs_num);
    let mut i: usize = 0;
    while i < regs_num
        invariant
            i <= regs_num,
            regs.cnt == 0,
            regs.int_regs@.len() == regs_num,
            forall|j: int| 0 <= j < i ==> regs.int_regs@[j] == seed_value(j),
        decreases regs_num - i,
    {
        let mul: u64 = (i % 256) as u64;
        let mut v: u64 = 0;
        let mut k: u64 = 8;
        while k > 0
            invariant
                k <= 8,
                mul == (i as int) % 256,
                v as int == seed_le_from(i as int, k as int),
            decreases k,
        {
            proof {
                lemma_seed_le_bound(i as int, k as int);
                lemma_pow256_upto_8((8 - k) as nat);
            }
            assert(k * mul <= 8 * 256) by (nonlinear_arith)
                requires
                    k <= 8,
                    mul < 256,
            ;
            let b: u64 = (k * mul) % 256;
            assert(b as int == seed_byte(i as int, k - 1));
            v = v * 256 + b;
            k = k - 1;
        }
        proof {
            lemma_seed_le_bound(i as int, 0);
            lemma_pow256_upto_8(8);
        }
        let value: i64 = if v <= 0x7fff_ffff_ffff_ffff {
            v as i64
        } else {
            let w: u64 = v - 0x8000_0000_0000_0000;
            let wi: i64 = w as i64;
            assert(wi as int == w as int);
            wi - 0x7fff_ffff_ffff_ffff - 1
        };
        regs.int_regs.set(i, value);
        i = i + 1;
    }
    assert(regs.int_regs@ =~= Seq::new(regs_num as nat, |i: int| seed_value(i)));
    regs
}

proof fn lemma_pow256_upto_8(k: nat)
    requires
        k <= 8,
    ensures
        pow256(k) <= 0x1_0000_0000_0000_0000,
        k <= 7 ==> 256 * pow256(k) <= 0x1_0000_0000_0000_0000,
{
    reveal_with_fuel(pow256, 9);
}

} // verus!
