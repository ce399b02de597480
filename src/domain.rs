//! Multiplicative cosets `shift * <g>` of two-adic subgroups of BabyBear, and
//! the values the verifier needs of them at an out-of-domain point: vanishing
//! polynomial, successor point and Lagrange selectors.
use crate::field::{
    base_generator, base_inv, base_inverse, base_mul, base_pow, ext_base, ext_inv_spec,
    ext_inverse, ext_mul, ext_mul_spec, ext_one, ext_pow2k, ext_sub, ext_sub_spec, ext_wf,
    ext_zero, two_adic_generator, two_adic_generator_of, Ext, P, TWO_ADICITY,
};
use vstd::prelude::*;

verus! {

/// The coset `shift * <g>` (a coset only where `shift` is non-zero) where `g` generates the subgroup of order `2^log_n`.
#[derive(Clone, Copy, Debug, PartialEq, Eq, Structural)]
pub struct Coset {
    pub log_n: usize,
    pub shift: u32,
}

pub open spec fn coset_wf(c: Coset) -> bool {
    c.log_n <= TWO_ADICITY && c.shift < P
}

/// The Lagrange selectors of a coset at a point, and the inverse of its
/// vanishing polynomial there.
#[derive(Clone, Copy, Debug, PartialEq, Eq, Structural)]
pub struct Selectors {
    pub is_first_row: Ext,
    pub is_last_row: Ext,
    pub is_transition: Ext,
    pub inv_zeroifier: Ext,
}

/// The generator of a coset's subgroup.
pub open spec fn gen_of(c: Coset) -> u32 {
    two_adic_generator_of(c.log_n as nat)
}

/// `x / shift`.
pub open spec fn unshifted_spec(c: Coset, x: Ext) -> Ext {
    ext_mul_spec(x, ext_base(base_inv(c.shift as int) as u32))
}

/// The vanishing polynomial of the coset at `x`: `(x / shift)^(2^log_n) - 1`.
pub open spec fn zp_spec(c: Coset, x: Ext) -> Ext {
    ext_sub_spec(ext_pow2k(unshifted_spec(c, x), c.log_n as nat), ext_one())
}

/// The successor of `x` in the coset's cyclic order: `x * g`.
pub open spec fn next_point_spec(c: Coset, x: Ext) -> Ext {
    ext_mul_spec(x, ext_base(gen_of(c)))
}

/// `x / shift - g^-1`: zero exactly at the last point of the coset.
pub open spec fn transition_spec(c: Coset, x: Ext) -> Ext {
    ext_sub_spec(unshifted_spec(c, x), ext_base(base_inv(gen_of(c) as int) as u32))
}

/// The selectors at `x`, or `None` where one of them would divide by zero
/// (`x` is the first or the last point of the coset, or lies in it).
pub open spec fn selectors_spec(c: Coset, x: Ext) -> Option<Selectors> {
    let u = unshifted_spec(c, x);
    let z_h = zp_spec(c, x);
    let first_den = ext_sub_spec(u, ext_one());
    let last_den = transition_spec(c, x);
    if first_den == ext_zero() || last_den == ext_zero() || z_h == ext_zero() {
        None
    } else {
        Some(
            Selectors {
                is_first_row: ext_mul_spec(z_h, ext_inv_spec(first_den)),
                is_last_row: ext_mul_spec(z_h, ext_inv_spec(last_den)),
                is_transition: last_den,
                inv_zeroifier: ext_inv_spec(z_h),
            },
        )
    }
}

/// The `i`-th of `2^log_chunks` cosets that `c` splits into.
pub open spec fn chunk_spec(c: Coset, log_chunks: nat, i: int) -> Coset {
    Coset {
        log_n: (c.log_n - log_chunks) as usize,
        shift: ((c.shift * base_pow(gen_of(c) as int, i as nat)) % (P as int)) as u32,
    }
}

pub open spec fn pow2(k: nat) -> nat
    decreases k,
{
    if k == 0 {
        1
    } else {
        2 * pow2((k - 1) as nat)
    }
}

proof fn lemma_pow2_mono(a: nat, b: nat)
    requires
        a <= b,
    ensures
        1 <= pow2(a) <= pow2(b),
    decreases b,
{
    if b > 0 {
        if a < b {
            lemma_pow2_mono(a, (b - 1) as nat);
        } else {
            lemma_pow2_mono((b - 1) as nat, (b - 1) as nat);
        }
    }
}

/// `2^k`.
pub(crate) fn pow2_exec(k: usize) -> (r: usize)
    requires
        k <= TWO_ADICITY,
    ensures
        r as nat == pow2(k as nat),
{
    proof {
        reveal_with_fuel(pow2, 28);
        assert(pow2(27) == 134217728);
    }
    let mut r: usize = 1;
    let mut i: usize = 0;
    while i < k
        invariant
            i <= k <= 27,
            r as nat == pow2(i as nat),
            pow2(27) == 134217728,
        decreases k - i,
    {
        proof {
            lemma_pow2_mono((i + 1) as nat, 27);
        }
        r = r * 2;
        i = i + 1;
    }
    r
}

/// `x^(2^k)` by `k` squarings.
pub fn ext_exp_power_of_2(x: Ext, k: usize) -> (r: Ext)
    requires
        ext_wf(x),
    ensures
        ext_wf(r),
        r == ext_pow2k(x, k as nat),
{
    let mut acc = x;
    let mut i: usize = 0;
    while i < k
        invariant
            i <= k,
            ext_wf(acc),
            acc == ext_pow2k(x, i as nat),
        decreases k - i,
    {
        acc = ext_mul(acc, acc);
        i = i + 1;
    }
    acc
}

/// `a^e` by `e` multiplications.
pub fn base_exp(a: u32, e: usize) -> (r: u32)
    requires
        a < P,
    ensures
        r < P,
        r as int == base_pow(a as int, e as nat),
{
    let mut acc: u32 = 1;
    let mut i: usize = 0;
    while i < e
        invariant
            i <= e,
            a < P,
            acc < P,
            acc as int == base_pow(a as int, i as nat),
        decreases e - i,
    {
        acc = base_mul(acc, a);
        i = i + 1;
    }
    acc
}

impl Coset {
    /// The subgroup of order `2^degree_bits` itself, unshifted.
    pub fn natural_domain_for_degree(degree_bits: usize) -> (r: Coset)
        requires
            degree_bits <= TWO_ADICITY,
        ensures
            r == (Coset { log_n: degree_bits, shift: 1 }),
            coset_wf(r),
    {
        Coset { log_n: degree_bits, shift: 1 }
    }

    /// The coset of order `2^log_size` shifted by the field's multiplicative
    /// generator, which is disjoint from every subgroup.
    pub fn create_disjoint_domain(&self, log_size: usize) -> (r: Coset)
        requires
            coset_wf(*self),
            log_size <= TWO_ADICITY,
        ensures
            r == (Coset {
                log_n: log_size,
                shift: ((self.shift * 31) % (P as int)) as u32,
            }),
            coset_wf(r),
    {
        let g = base_generator();
        let shift = base_mul(self.shift, g);
        Coset { log_n: log_size, shift }
    }

    /// The first point of the coset: its shift.
    pub fn first_point(&self) -> (r: u32)
        ensures
            r == self.shift,
    {
        self.shift
    }

    /// Splits the coset into `2^log_chunks` cosets of order `2^(log_n - log_chunks)`;
    /// chunk `i` is shifted by `shift * g^i`.
    pub fn split_domains(&self, log_chunks: usize) -> (r: Vec<Coset>)
        requires
            coset_wf(*self),
            log_chunks <= self.log_n,
        ensures
            r@.len() == pow2(log_chunks as nat),
            forall|i: int| 0 <= i < r@.len() ==> #[trigger] r@[i] == chunk_spec(*self, log_chunks as nat, i),
    {
        let g = two_adic_generator(self.log_n);
        let num_chunks = pow2_exec(log_chunks);
        let mut out: Vec<Coset> = Vec::new();
        let mut i: usize = 0;
        while i < num_chunks
            invariant
                i <= num_chunks,
                out@.len() == i,
                coset_wf(*self),
                log_chunks <= self.log_n,
                g == gen_of(*self),
                g < P,
                forall|j: int| 0 <= j < i ==> #[trigger] out@[j] == chunk_spec(*self, log_chunks as nat, j),
            decreases num_chunks - i,
        {
            let gi = base_exp(g, i);
            let shift = base_mul(self.shift, gi);
            out.push(Coset { log_n: self.log_n - log_chunks, shift });
            i = i + 1;
        }
        out
    }

    /// `x / shift`.
    fn unshift(&self, x: Ext) -> (r: Ext)
        requires
            coset_wf(*self),
            self.shift != 0,
            ext_wf(x),
        ensures
            ext_wf(r),
            r == unshifted_spec(*self, x),
    {
        let s_inv = base_inverse(self.shift);
        ext_mul(x, Ext::from_base(s_inv))
    }

    /// The successor of `x`: `x * g`.
    pub fn next_point(&self, x: Ext) -> (r: Ext)
        requires
            coset_wf(*self),
            ext_wf(x),
        ensures
            ext_wf(r),
            r == next_point_spec(*self, x),
    {
        let g = two_adic_generator(self.log_n);
        ext_mul(x, Ext::from_base(g))
    }

    /// The vanishing polynomial of the coset at `x`.
    pub fn zp_at_point(&self, x: Ext) -> (r: Ext)
        requires
            coset_wf(*self),
            self.shift != 0,
            ext_wf(x),
        ensures
            ext_wf(r),
            r == zp_spec(*self, x),
    {
        let u = self.unshift(x);
        let p = ext_exp_power_of_2(u, self.log_n);
        ext_sub(p, Ext::one())
    }

    /// The selectors at `x`; `None` where one of them would divide by zero.
    pub fn selectors_at_point(&self, x: Ext) -> (r: Option<Selectors>)
        requires
            coset_wf(*self),
            self.shift != 0,
            ext_wf(x),
        ensures
            r == selectors_spec(*self, x),
            r matches Some(s) ==> ext_wf(s.is_first_row) && ext_wf(s.is_last_row) && ext_wf(
                s.is_transition,
            ) && ext_wf(s.inv_zeroifier),
    {
        let u = self.unshift(x);
        let z_h = ext_sub(ext_exp_power_of_2(u, self.log_n), Ext::one());
        let g = two_adic_generator(self.log_n);
        let g_inv = base_inverse(g);
        let first_den = ext_sub(u, Ext::one());
        let last_den = ext_sub(u, Ext::from_base(g_inv));
        if first_den.is_zero() || last_den.is_zero() || z_h.is_zero() {
            return None;
        }
        let first_inv = ext_inverse(first_den);
        let last_inv = ext_inverse(last_den);
        let z_inv = ext_inverse(z_h);
        Some(
            Selectors {
                is_first_row: ext_mul(z_h, first_inv),
                is_last_row: ext_mul(z_h, last_inv),
                is_transition: last_den,
                inv_zeroifier: z_inv,
            },
        )
    }
}

} // verus!
