//! The BabyBear prime field and its degree-four binomial extension.
//!
//! A base element is held as its canonical residue in a `u32`; an extension
//! element as its four base coefficients, `c0 + c1 x + c2 x^2 + c3 x^3`, with
//! `x^4 = W`. All arithmetic is done by `p3_baby_bear` and `p3_field`; the
//! contracts below state what each operation computes.
use p3_baby_bear::BabyBear;
use p3_field::extension::BinomialExtensionField;
use p3_field::{AbstractExtensionField, AbstractField, Field, PrimeField32, TwoAdicField};
use vstd::prelude::*;

verus! {

/// The BabyBear prime, `2^31 - 2^27 + 1`.
pub const P: u32 = 2013265921;

/// The non-residue of the extension: `x^4 = W`.
pub const W: u32 = 11;

/// The largest `bits` for which a subgroup of order `2^bits` exists.
pub const TWO_ADICITY: usize = 27;

/// A generator of the order-`2^bits` multiplicative subgroup, as `p3_baby_bear` fixes it.
pub uninterp spec fn two_adic_generator_of(bits: nat) -> u32;

/// The inverse of a non-zero residue (unique, since `P` is prime).
pub open spec fn base_inv(a: int) -> int {
    choose|r: int| 0 <= r < P && #[trigger] ((a * r) % (P as int)) == 1
}

/// An element of the degree-four extension field.
#[derive(Clone, Copy, Debug, PartialEq, Eq, Structural)]
pub struct Ext {
    pub c0: u32,
    pub c1: u32,
    pub c2: u32,
    pub c3: u32,
}

pub open spec fn ext_wf(a: Ext) -> bool {
    a.c0 < P && a.c1 < P && a.c2 < P && a.c3 < P
}

pub open spec fn modp(x: int) -> u32 {
    (x % (P as int)) as u32
}

pub open spec fn ext_zero() -> Ext {
    Ext { c0: 0, c1: 0, c2: 0, c3: 0 }
}

pub open spec fn ext_one() -> Ext {
    Ext { c0: 1, c1: 0, c2: 0, c3: 0 }
}

/// The embedding of a base element.
pub open spec fn ext_base(a: u32) -> Ext {
    Ext { c0: a, c1: 0, c2: 0, c3: 0 }
}

/// The basis element `x^i`.
pub open spec fn ext_monomial_spec(i: int) -> Ext {
    Ext {
        c0: if i == 0 { 1 } else { 0 },
        c1: if i == 1 { 1 } else { 0 },
        c2: if i == 2 { 1 } else { 0 },
        c3: if i == 3 { 1 } else { 0 },
    }
}

#[verifier::opaque]
pub open spec fn ext_add_spec(a: Ext, b: Ext) -> Ext {
    Ext {
        c0: modp(a.c0 + b.c0),
        c1: modp(a.c1 + b.c1),
        c2: modp(a.c2 + b.c2),
        c3: modp(a.c3 + b.c3),
    }
}

#[verifier::opaque]
pub open spec fn ext_sub_spec(a: Ext, b: Ext) -> Ext {
    Ext {
        c0: modp(a.c0 + P - b.c0),
        c1: modp(a.c1 + P - b.c1),
        c2: modp(a.c2 + P - b.c2),
        c3: modp(a.c3 + P - b.c3),
    }
}

pub open spec fn m(a: u32, b: u32) -> int {
    a as int * b as int
}

/// Product of polynomials reduced modulo `x^4 - W`.
#[verifier::opaque]
pub open spec fn ext_mul_spec(a: Ext, b: Ext) -> Ext {
    Ext {
        c0: modp(m(a.c0, b.c0) + W * (m(a.c1, b.c3) + m(a.c2, b.c2) + m(a.c3, b.c1))),
        c1: modp(m(a.c0, b.c1) + m(a.c1, b.c0) + W * (m(a.c2, b.c3) + m(a.c3, b.c2))),
        c2: modp(m(a.c0, b.c2) + m(a.c1, b.c1) + m(a.c2, b.c0) + W * m(a.c3, b.c3)),
        c3: modp(m(a.c0, b.c3) + m(a.c1, b.c2) + m(a.c2, b.c1) + m(a.c3, b.c0)),
    }
}

/// The inverse of a non-zero element (unique, since `x^4 - W` is irreducible).
pub open spec fn ext_inv_spec(a: Ext) -> Ext {
    choose|r: Ext| ext_wf(r) && ext_mul_spec(a, r) == ext_one()
}

/// `a^(2^k)`, by repeated squaring.
pub open spec fn ext_pow2k(a: Ext, k: nat) -> Ext
    decreases k,
{
    if k == 0 {
        a
    } else {
        let h = ext_pow2k(a, (k - 1) as nat);
        ext_mul_spec(h, h)
    }
}

/// `a^e` in the base field.
pub open spec fn base_pow(a: int, e: nat) -> int
    decreases e,
{
    if e == 0 {
        1
    } else {
        (base_pow(a, (e - 1) as nat) * a) % (P as int)
    }
}

impl Ext {
    pub fn zero() -> (r: Ext)
        ensures
            r == ext_zero(),
    {
        Ext { c0: 0, c1: 0, c2: 0, c3: 0 }
    }

    pub fn one() -> (r: Ext)
        ensures
            r == ext_one(),
    {
        Ext { c0: 1, c1: 0, c2: 0, c3: 0 }
    }

    pub fn from_base(a: u32) -> (r: Ext)
        ensures
            r == ext_base(a),
    {
        Ext { c0: a, c1: 0, c2: 0, c3: 0 }
    }

    pub fn is_zero(&self) -> (r: bool)
        ensures
            r == (*self == ext_zero()),
    {
        self.c0 == 0 && self.c1 == 0 && self.c2 == 0 && self.c3 == 0
    }
}

/// Relies on BabyBear's `*`: the product of two canonical residues, reduced mod `P`.
#[verifier::external_body]
pub(crate) fn base_mul(a: u32, b: u32) -> (r: u32)
    requires
        a < P,
        b < P,
    ensures
        r as int == (a as int * b as int) % (P as int),
{
    (BabyBear::from_canonical_u32(a) * BabyBear::from_canonical_u32(b)).as_canonical_u32()
}

/// Relies on BabyBear's `Field::inverse`, which panics on zero.
#[verifier::external_body]
pub(crate) fn base_inverse(a: u32) -> (r: u32)
    requires
        0 < a < P,
    ensures
        r < P,
        r as int == base_inv(a as int),
        (a as int * r as int) % (P as int) == 1,
{
    BabyBear::from_canonical_u32(a).inverse().as_canonical_u32()
}

/// Relies on BabyBear's `Field::generator`, which is 31.
#[verifier::external_body]
pub(crate) fn base_generator() -> (r: u32)
    ensures
        r == 31,
{
    BabyBear::generator().as_canonical_u32()
}

/// Relies on BabyBear's `TwoAdicField::two_adic_generator`, which asserts
/// `bits <= 27` and reads a fixed table of non-zero residues.
#[verifier::external_body]
pub(crate) fn two_adic_generator(bits: usize) -> (r: u32)
    requires
        bits <= TWO_ADICITY,
    ensures
        0 < r < P,
        r == two_adic_generator_of(bits as nat),
        bits == 0 ==> r == 1,
{
    BabyBear::two_adic_generator(bits).as_canonical_u32()
}

/// Relies on `BinomialExtensionField`'s `+`: coefficient-wise addition mod `P`.
#[verifier::external_body]
pub(crate) fn ext_add(a: Ext, b: Ext) -> (r: Ext)
    requires
        ext_wf(a),
        ext_wf(b),
    ensures
        ext_wf(r),
        r == ext_add_spec(a, b),
{
    let x = BinomialExtensionField::<BabyBear, 4>::from_base_slice(&[a.c0, a.c1, a.c2, a.c3].map(BabyBear::from_canonical_u32));
    let y = BinomialExtensionField::<BabyBear, 4>::from_base_slice(&[b.c0, b.c1, b.c2, b.c3].map(BabyBear::from_canonical_u32));
    let z = x + y;
    let v: &[BabyBear] = z.as_base_slice();
    Ext { c0: v[0].as_canonical_u32(), c1: v[1].as_canonical_u32(), c2: v[2].as_canonical_u32(), c3: v[3].as_canonical_u32() }
}

/// Relies on `BinomialExtensionField`'s `-`: coefficient-wise subtraction mod `P`.
#[verifier::external_body]
pub(crate) fn ext_sub(a: Ext, b: Ext) -> (r: Ext)
    requires
        ext_wf(a),
        ext_wf(b),
    ensures
        ext_wf(r),
        r == ext_sub_spec(a, b),
{
    let x = BinomialExtensionField::<BabyBear, 4>::from_base_slice(&[a.c0, a.c1, a.c2, a.c3].map(BabyBear::from_canonical_u32));
    let y = BinomialExtensionField::<BabyBear, 4>::from_base_slice(&[b.c0, b.c1, b.c2, b.c3].map(BabyBear::from_canonical_u32));
    let z = x - y;
    let v: &[BabyBear] = z.as_base_slice();
    Ext { c0: v[0].as_canonical_u32(), c1: v[1].as_canonical_u32(), c2: v[2].as_canonical_u32(), c3: v[3].as_canonical_u32() }
}

/// Relies on `BinomialExtensionField`'s `*`: the schoolbook product with
/// `x^(i+j)` for `i + j >= 4` folded back as `W x^(i+j-4)`.
#[verifier::external_body]
pub(crate) fn ext_mul(a: Ext, b: Ext) -> (r: Ext)
    requires
        ext_wf(a),
        ext_wf(b),
    ensures
        ext_wf(r),
        r == ext_mul_spec(a, b),
{
    let x = BinomialExtensionField::<BabyBear, 4>::from_base_slice(&[a.c0, a.c1, a.c2, a.c3].map(BabyBear::from_canonical_u32));
    let y = BinomialExtensionField::<BabyBear, 4>::from_base_slice(&[b.c0, b.c1, b.c2, b.c3].map(BabyBear::from_canonical_u32));
    let z = x * y;
    let v: &[BabyBear] = z.as_base_slice();
    Ext { c0: v[0].as_canonical_u32(), c1: v[1].as_canonical_u32(), c2: v[2].as_canonical_u32(), c3: v[3].as_canonical_u32() }
}

/// Relies on `BinomialExtensionField`'s `Field::inverse`, which panics on zero.
#[verifier::external_body]
pub(crate) fn ext_inverse(a: Ext) -> (r: Ext)
    requires
        ext_wf(a),
        a != ext_zero(),
    ensures
        ext_wf(r),
        r == ext_inv_spec(a),
        ext_mul_spec(a, r) == ext_one(),
{
    let x = BinomialExtensionField::<BabyBear, 4>::from_base_slice(&[a.c0, a.c1, a.c2, a.c3].map(BabyBear::from_canonical_u32));
    let z = x.inverse();
    let v: &[BabyBear] = z.as_base_slice();
    Ext { c0: v[0].as_canonical_u32(), c1: v[1].as_canonical_u32(), c2: v[2].as_canonical_u32(), c3: v[3].as_canonical_u32() }
}

/// Relies on `AbstractExtensionField::monomial`, which asserts `i < 4`.
#[verifier::external_body]
pub(crate) fn ext_monomial(i: usize) -> (r: Ext)
    requires
        i < 4,
    ensures
        ext_wf(r),
        r == ext_monomial_spec(i as int),
{
    let z = <BinomialExtensionField<BabyBear, 4> as AbstractExtensionField<BabyBear>>::monomial(i);
    let v: &[BabyBear] = z.as_base_slice();
    Ext { c0: v[0].as_canonical_u32(), c1: v[1].as_canonical_u32(), c2: v[2].as_canonical_u32(), c3: v[3].as_canonical_u32() }
}

} // verus!
