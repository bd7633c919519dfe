//! Sample arithmetic.
//!
//! A sample type is a [`Scalar`]: a commutative ring whose operations are
//! total and exact. The integer types `i32` and `i64` are scalars under
//! two's-complement (wrapping) arithmetic.

use vstd::arithmetic::div_mod::{
    lemma_add_mod_noop, lemma_fundamental_div_mod, lemma_mod_multiples_vanish,
    lemma_mul_mod_noop_general, lemma_small_mod,
};
use vstd::prelude::*;

verus! {

/// A type with an additive identity.
pub trait Zero: Sized {
    /// The additive identity.
    spec fn zero_spec() -> Self;

    /// Gives the additive identity.
    fn zero() -> (r: Self)
        ensures
            r == Self::zero_spec(),
    ;
}

/// The additive identity of `T`.
pub fn zero<T: Zero>() -> (r: T)
    ensures
        r == T::zero_spec(),
{
    T::zero()
}

/// A sample: an element of a commutative ring.
///
/// The spec functions say what each operation computes; the proof functions
/// are the ring laws, which every implementation has to prove of them. The
/// operations are total: none of them fails or overflows.
pub trait Scalar: Copy + Zero {
    /// The multiplicative identity.
    spec fn one_spec() -> Self;

    /// The sum of two samples.
    spec fn plus(self, rhs: Self) -> Self;

    /// The difference of two samples.
    spec fn minus(self, rhs: Self) -> Self;

    /// The additive inverse of a sample.
    spec fn negated(self) -> Self;

    /// The product of two samples.
    spec fn times(self, rhs: Self) -> Self;

    /// Gives the multiplicative identity.
    fn one() -> (r: Self)
        ensures
            r == Self::one_spec(),
    ;

    /// Adds two samples.
    fn add(self, rhs: Self) -> (r: Self)
        ensures
            r == self.plus(rhs),
    ;

    /// Subtracts `rhs` from the sample.
    fn sub(self, rhs: Self) -> (r: Self)
        ensures
            r == self.minus(rhs),
    ;

    /// Gives the additive inverse of the sample.
    fn neg(self) -> (r: Self)
        ensures
            r == self.negated(),
    ;

    /// Multiplies two samples.
    fn mul(self, rhs: Self) -> (r: Self)
        ensures
            r == self.times(rhs),
    ;

    /// Addition is commutative.
    proof fn lemma_plus_comm(a: Self, b: Self)
        ensures
            a.plus(b) == b.plus(a),
    ;

    /// Addition is associative.
    proof fn lemma_plus_assoc(a: Self, b: Self, c: Self)
        ensures
            a.plus(b).plus(c) == a.plus(b.plus(c)),
    ;

    /// Zero is the identity of addition.
    proof fn lemma_plus_zero(a: Self)
        ensures
            a.plus(Self::zero_spec()) == a,
    ;

    /// A sample and its inverse add up to zero.
    proof fn lemma_plus_negated(a: Self)
        ensures
            a.plus(a.negated()) == Self::zero_spec(),
    ;

    /// Subtracting is adding the inverse.
    proof fn lemma_minus(a: Self, b: Self)
        ensures
            a.minus(b) == a.plus(b.negated()),
    ;

    /// Multiplication is commutative.
    proof fn lemma_times_comm(a: Self, b: Self)
        ensures
            a.times(b) == b.times(a),
    ;

    /// Multiplication is associative.
    proof fn lemma_times_assoc(a: Self, b: Self, c: Self)
        ensures
            a.times(b).times(c) == a.times(b.times(c)),
    ;

    /// One is the identity of multiplication.
    proof fn lemma_times_one(a: Self)
        ensures
            a.times(Self::one_spec()) == a,
    ;

    /// Multiplication distributes over addition.
    proof fn lemma_times_distributes(a: Self, b: Self, c: Self)
        ensures
            a.times(b.plus(c)) == a.times(b).plus(a.times(c)),
    ;
}

/// In every ring, a product with zero is zero.
pub proof fn lemma_times_zero<S: Scalar>(a: S)
    ensures
        a.times(S::zero_spec()) == S::zero_spec(),
{
    let z = S::zero_spec();
    let x = a.times(z);
    // x == x + x, since 0 == 0 + 0
    S::lemma_plus_zero(z);
    S::lemma_times_distributes(a, z, z);
    assert(x == x.plus(x));
    // cancel one x on both sides
    S::lemma_plus_negated(x);
    S::lemma_plus_assoc(x, x, x.negated());
    S::lemma_plus_zero(x);
    assert(x.plus(x).plus(x.negated()) == x);
}

/// The representative of `x` modulo `2 * half` that lies in `[-half, half)`.
pub open spec fn wrap(x: int, half: int) -> int {
    let r = x % (2 * half);
    if r >= half {
        r - 2 * half
    } else {
        r
    }
}

/// `wrap` stays in range and keeps the residue.
proof fn lemma_wrap(x: int, half: int)
    requires
        half > 0,
    ensures
        -half <= wrap(x, half) < half,
        wrap(x, half) % (2 * half) == x % (2 * half),
        -half <= x < half ==> wrap(x, half) == x,
{
    let m = 2 * half;
    let r = x % m;
    lemma_fundamental_div_mod(x, m);
    if r >= half {
        lemma_mod_multiples_vanish(-1, r, m);
    }
    lemma_small_mod(r as nat, m as nat);
    if 0 <= x < half {
        lemma_small_mod(x as nat, m as nat);
    } else if -half <= x < 0 {
        lemma_mod_multiples_vanish(1, x, m);
        lemma_small_mod((x + m) as nat, m as nat);
    }
}

/// Wrapping a summand first does not change the wrapped sum.
proof fn lemma_wrap_plus(x: int, y: int, half: int)
    requires
        half > 0,
    ensures
        wrap(wrap(x, half) + y, half) == wrap(x + y, half),
        wrap(x + wrap(y, half), half) == wrap(x + y, half),
{
    let m = 2 * half;
    lemma_wrap(x, half);
    lemma_wrap(y, half);
    lemma_add_mod_noop(wrap(x, half), y, m);
    lemma_add_mod_noop(x, y, m);
    lemma_add_mod_noop(x, wrap(y, half), m);
}

/// Wrapping a factor first does not change the wrapped product.
proof fn lemma_wrap_times(x: int, y: int, half: int)
    requires
        half > 0,
    ensures
        wrap(wrap(x, half) * y, half) == wrap(x * y, half),
        wrap(x * wrap(y, half), half) == wrap(x * y, half),
{
    let m = 2 * half;
    lemma_wrap(x, half);
    lemma_wrap(y, half);
    lemma_mul_mod_noop_general(wrap(x, half), y, m);
    lemma_mul_mod_noop_general(x, y, m);
    lemma_mul_mod_noop_general(x, wrap(y, half), m);
}

/// `x` as a 32-bit two's-complement number.
pub open spec fn wrap32(x: int) -> i32 {
    wrap(x, 0x8000_0000) as i32
}

/// `x` as a 64-bit two's-complement number.
pub open spec fn wrap64(x: int) -> i64 {
    wrap(x, 0x8000_0000_0000_0000) as i64
}

impl Zero for i32 {
    open spec fn zero_spec() -> Self {
        0
    }

    fn zero() -> (r: Self) {
        0
    }
}

impl Scalar for i32 {
    open spec fn one_spec() -> Self {
        1
    }

    open spec fn plus(self, rhs: Self) -> Self {
        wrap32(self + rhs)
    }

    open spec fn minus(self, rhs: Self) -> Self {
        wrap32(self - rhs)
    }

    open spec fn negated(self) -> Self {
        wrap32(-self)
    }

    open spec fn times(self, rhs: Self) -> Self {
        wrap32(self * rhs)
    }

    fn one() -> (r: Self) {
        1
    }

    fn add(self, rhs: Self) -> (r: Self) {
        proof {
            lemma_wrap(self + rhs, 0x8000_0000);
        }
        self.wrapping_add(rhs)
    }

    fn sub(self, rhs: Self) -> (r: Self) {
        proof {
            lemma_wrap(self - rhs, 0x8000_0000);
        }
        self.wrapping_sub(rhs)
    }

    fn neg(self) -> (r: Self) {
        proof {
            lemma_wrap(-self, 0x8000_0000);
        }
        0i32.wrapping_sub(self)
    }

    fn mul(self, rhs: Self) -> (r: Self) {
        self.wrapping_mul(rhs)
    }

    proof fn lemma_plus_comm(a: Self, b: Self) {
    }

    proof fn lemma_plus_assoc(a: Self, b: Self, c: Self) {
        lemma_wrap(a + b, 0x8000_0000);
        lemma_wrap(b + c, 0x8000_0000);
        lemma_wrap_plus(a + b, c as int, 0x8000_0000);
        lemma_wrap_plus(a as int, b + c, 0x8000_0000);
    }

    proof fn lemma_plus_zero(a: Self) {
        lemma_wrap(a as int, 0x8000_0000);
    }

    proof fn lemma_plus_negated(a: Self) {
        lemma_wrap(-a, 0x8000_0000);
        lemma_wrap_plus(a as int, -a, 0x8000_0000);
        lemma_wrap(0, 0x8000_0000);
    }

    proof fn lemma_minus(a: Self, b: Self) {
        lemma_wrap(-b, 0x8000_0000);
        lemma_wrap_plus(a as int, -b, 0x8000_0000);
    }

    proof fn lemma_times_comm(a: Self, b: Self) {
        assert(a * b == b * a) by (nonlinear_arith);
    }

    proof fn lemma_times_assoc(a: Self, b: Self, c: Self) {
        lemma_wrap(a * b, 0x8000_0000);
        lemma_wrap(b * c, 0x8000_0000);
        lemma_wrap_times(a * b, c as int, 0x8000_0000);
        lemma_wrap_times(a as int, b * c, 0x8000_0000);
        assert((a * b) * c == a * (b * c)) by (nonlinear_arith);
    }

    proof fn lemma_times_one(a: Self) {
        lemma_wrap(a as int, 0x8000_0000);
        assert(a * 1 == a as int);
    }

    proof fn lemma_times_distributes(a: Self, b: Self, c: Self) {
        lemma_wrap(b + c, 0x8000_0000);
        lemma_wrap(a * b, 0x8000_0000);
        lemma_wrap(a * c, 0x8000_0000);
        lemma_wrap_times(a as int, b + c, 0x8000_0000);
        lemma_wrap_plus(a * b, wrap(a * c, 0x8000_0000), 0x8000_0000);
        lemma_wrap_plus(a * b, a * c, 0x8000_0000);
        assert(a * (b + c) == a * b + a * c) by (nonlinear_arith);
    }
}

impl Zero for i64 {
    open spec fn zero_spec() -> Self {
        0
    }

    fn zero() -> (r: Self) {
        0
    }
}

impl Scalar for i64 {
    open spec fn one_spec() -> Self {
        1
    }

    open spec fn plus(self, rhs: Self) -> Self {
        wrap64(self + rhs)
    }

    open spec fn minus(self, rhs: Self) -> Self {
        wrap64(self - rhs)
    }

    open spec fn negated(self) -> Self {
        wrap64(-self)
    }

    open spec fn times(self, rhs: Self) -> Self {
        wrap64(self * rhs)
    }

    fn one() -> (r: Self) {
        1
    }

    fn add(self, rhs: Self) -> (r: Self) {
        proof {
            lemma_wrap(self + rhs, 0x8000_0000_0000_0000);
        }
        self.wrapping_add(rhs)
    }

    fn sub(self, rhs: Self) -> (r: Self) {
        proof {
            lemma_wrap(self - rhs, 0x8000_0000_0000_0000);
        }
        self.wrapping_sub(rhs)
    }

    fn neg(self) -> (r: Self) {
        proof {
            lemma_wrap(-self, 0x8000_0000_0000_0000);
        }
        0i64.wrapping_sub(self)
    }

    fn mul(self, rhs: Self) -> (r: Self) {
        self.wrapping_mul(rhs)
    }

    proof fn lemma_plus_comm(a: Self, b: Self) {
    }

    proof fn lemma_plus_assoc(a: Self, b: Self, c: Self) {
        lemma_wrap(a + b, 0x8000_0000_0000_0000);
        lemma_wrap(b + c, 0x8000_0000_0000_0000);
        lemma_wrap_plus(a + b, c as int, 0x8000_0000_0000_0000);
        lemma_wrap_plus(a as int, b + c, 0x8000_0000_0000_0000);
    }

    proof fn lemma_plus_zero(a: Self) {
        lemma_wrap(a as int, 0x8000_0000_0000_0000);
    }

    proof fn lemma_plus_negated(a: Self) {
        lemma_wrap(-a, 0x8000_0000_0000_0000);
        lemma_wrap_plus(a as int, -a, 0x8000_0000_0000_0000);
        lemma_wrap(0, 0x8000_0000_0000_0000);
    }

    proof fn lemma_minus(a: Self, b: Self) {
        lemma_wrap(-b, 0x8000_0000_0000_0000);
        lemma_wrap_plus(a as int, -b, 0x8000_0000_0000_0000);
    }

    proof fn lemma_times_comm(a: Self, b: Self) {
        assert(a * b == b * a) by (nonlinear_arith);
    }

    proof fn lemma_times_assoc(a: Self, b: Self, c: Self) {
        lemma_wrap(a * b, 0x8000_0000_0000_0000);
        lemma_wrap(b * c, 0x8000_0000_0000_0000);
        lemma_wrap_times(a * b, c as int, 0x8000_0000_0000_0000);
        lemma_wrap_times(a as int, b * c, 0x8000_0000_0000_0000);
        assert((a * b) * c == a * (b * c)) by (nonlinear_arith);
    }

    proof fn lemma_times_one(a: Self) {
        lemma_wrap(a as int, 0x8000_0000_0000_0000);
        assert(a * 1 == a as int);
    }

    proof fn lemma_times_distributes(a: Self, b: Self, c: Self) {
        lemma_wrap(b + c, 0x8000_0000_0000_0000);
        lemma_wrap(a * b, 0x8000_0000_0000_0000);
        lemma_wrap(a * c, 0x8000_0000_0000_0000);
        lemma_wrap_times(a as int, b + c, 0x8000_0000_0000_0000);
        lemma_wrap_plus(a * b, wrap(a * c, 0x8000_0000_0000_0000), 0x8000_0000_0000_0000);
        lemma_wrap_plus(a * b, a * c, 0x8000_0000_0000_0000);
        assert(a * (b + c) == a * b + a * c) by (nonlinear_arith);
    }
}

} // verus!
