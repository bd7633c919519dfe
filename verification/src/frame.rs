//! Frames: one instant of sample data across all channels.

pub mod array;

use crate::num::{lemma_times_zero, Scalar, Zero};
use core::ops::{Add, Mul, Neg, Sub};
use vstd::prelude::*;
use vstd::std_specs::ops::{AddSpec, MulSpec, NegSpec, SubSpec};

verus! {

/// `n` zero samples.
pub open spec fn zeros<S: Scalar>(n: nat) -> Seq<S> {
    Seq::new(n, |i: int| S::zero_spec())
}

/// The sums of the samples of `a` and `b`, channel by channel.
pub open spec fn sums<S: Scalar>(a: Seq<S>, b: Seq<S>) -> Seq<S> {
    Seq::new(a.len(), |i: int| a[i].plus(b[i]))
}

/// The differences of the samples of `a` and `b`, channel by channel.
pub open spec fn differences<S: Scalar>(a: Seq<S>, b: Seq<S>) -> Seq<S> {
    Seq::new(a.len(), |i: int| a[i].minus(b[i]))
}

/// The inverses of the samples of `a`.
pub open spec fn inverses<S: Scalar>(a: Seq<S>) -> Seq<S> {
    Seq::new(a.len(), |i: int| a[i].negated())
}

/// The samples of `a`, each multiplied by `k`.
pub open spec fn scaled<S: Scalar>(a: Seq<S>, k: S) -> Seq<S> {
    Seq::new(a.len(), |i: int| a[i].times(k))
}

/// A frame: a fixed number of samples, one per channel, with the arithmetic
/// of a vector space over its sample type.
///
/// `+`, `-`, unary `-` and `* sample` never fail and work channel by channel.
/// An implementation proves no more than that ([`Frame::lemma_shape`],
/// [`Frame::lemma_default`] and [`Frame::lemma_channelwise`]); the laws of a
/// vector space follow for every frame type from the laws of its samples, and
/// are proved below.
pub trait Frame: Copy + Zero + Default + Add<Output = Self> + Sub<Output = Self> + Neg<
    Output = Self,
> + Mul<<Self as Frame>::Sample, Output = Self> {
    /// The type of the samples.
    type Sample: Scalar;

    /// The samples of the frame, in channel order.
    spec fn samples(self) -> Seq<Self::Sample>;

    /// The samples of the frame as a slice.
    fn as_slice(&self) -> (s: &[Self::Sample])
        ensures
            s@ == self.samples(),
    ;

    /// The samples of the frame as a slice, to be changed in place.
    fn as_mut_slice(&mut self) -> (s: &mut [Self::Sample])
        ensures
            s@ == old(self).samples(),
            final(self).samples() == final(s)@,
    ;

    /// All frames of a type have the same number of channels, and a frame is
    /// nothing but its samples.
    proof fn lemma_shape(a: Self, b: Self)
        ensures
            a.samples().len() == b.samples().len(),
            a.samples() == b.samples() ==> a == b,
    ;

    /// The default frame is the zero frame.
    proof fn lemma_default(a: Self)
        requires
            call_ensures(Self::default, (), a),
        ensures
            a == Self::zero_spec(),
    ;

    /// The operators are total and work channel by channel.
    proof fn lemma_channelwise(a: Self, b: Self, k: Self::Sample)
        ensures
            Self::zero_spec().samples() == zeros::<Self::Sample>(a.samples().len()),
            Self::obeys_add_spec(),
            a.add_req(b),
            a.add_spec(b).samples() == sums(a.samples(), b.samples()),
            Self::obeys_sub_spec(),
            a.sub_req(b),
            a.sub_spec(b).samples() == differences(a.samples(), b.samples()),
            Self::obeys_neg_spec(),
            a.neg_req(),
            a.neg_spec().samples() == inverses(a.samples()),
            Self::obeys_mul_spec(),
            a.mul_req(k),
            a.mul_spec(k).samples() == scaled(a.samples(), k),
    ;
}

/// Frames that agree on every channel are equal.
pub proof fn lemma_equal<F: Frame>(l: F, r: F)
    requires
        forall|i: int| 0 <= i < l.samples().len() ==> l.samples()[i] == r.samples()[i],
    ensures
        l == r,
{
    F::lemma_shape(l, r);
    assert(l.samples() =~= r.samples());
}

/// Addition of frames is commutative: `a + b == b + a`.
pub proof fn lemma_add_comm<F: Frame>(a: F, b: F)
    ensures
        a.add_spec(b) == b.add_spec(a),
{
    let k = F::Sample::zero_spec();
    F::lemma_channelwise(a, b, k);
    F::lemma_channelwise(b, a, k);
    F::lemma_shape(a, b);
    let l = a.add_spec(b);
    let r = b.add_spec(a);
    assert forall|i: int| 0 <= i < l.samples().len() implies l.samples()[i] == r.samples()[i] by {
        F::Sample::lemma_plus_comm(a.samples()[i], b.samples()[i]);
    }
    lemma_equal(l, r);
}

/// Addition of frames is associative: `(a + b) + c == a + (b + c)`.
pub proof fn lemma_add_assoc<F: Frame>(a: F, b: F, c: F)
    ensures
        a.add_spec(b).add_spec(c) == a.add_spec(b.add_spec(c)),
{
    let k = F::Sample::zero_spec();
    F::lemma_channelwise(a, b, k);
    F::lemma_channelwise(b, c, k);
    F::lemma_channelwise(a.add_spec(b), c, k);
    F::lemma_channelwise(a, b.add_spec(c), k);
    F::lemma_shape(a, b);
    F::lemma_shape(b, c);
    let l = a.add_spec(b).add_spec(c);
    let r = a.add_spec(b.add_spec(c));
    assert forall|i: int| 0 <= i < l.samples().len() implies l.samples()[i] == r.samples()[i] by {
        F::Sample::lemma_plus_assoc(a.samples()[i], b.samples()[i], c.samples()[i]);
    }
    lemma_equal(l, r);
}

/// The zero frame is the identity of addition: `a + 0 == a`.
pub proof fn lemma_add_zero<F: Frame>(a: F)
    ensures
        a.add_spec(F::zero_spec()) == a,
{
    let k = F::Sample::zero_spec();
    let z = F::zero_spec();
    F::lemma_channelwise(a, z, k);
    let l = a.add_spec(z);
    assert forall|i: int| 0 <= i < l.samples().len() implies l.samples()[i] == a.samples()[i] by {
        F::Sample::lemma_plus_zero(a.samples()[i]);
    }
    lemma_equal(l, a);
}

/// A frame and its inverse add up to the zero frame: `a + (-a) == 0`.
pub proof fn lemma_add_neg<F: Frame>(a: F)
    ensures
        a.add_spec(a.neg_spec()) == F::zero_spec(),
{
    let k = F::Sample::zero_spec();
    let z = F::zero_spec();
    F::lemma_channelwise(a, a.neg_spec(), k);
    F::lemma_shape(a, a.neg_spec());
    let l = a.add_spec(a.neg_spec());
    assert forall|i: int| 0 <= i < l.samples().len() implies l.samples()[i] == z.samples()[i] by {
        F::Sample::lemma_plus_negated(a.samples()[i]);
    }
    lemma_equal(l, z);
}

/// Subtracting a frame is adding its inverse: `a - b == a + (-b)`.
pub proof fn lemma_sub<F: Frame>(a: F, b: F)
    ensures
        a.sub_spec(b) == a.add_spec(b.neg_spec()),
{
    let k = F::Sample::zero_spec();
    F::lemma_channelwise(a, b, k);
    F::lemma_channelwise(b, a, k);
    F::lemma_channelwise(a, b.neg_spec(), k);
    F::lemma_shape(a, b);
    let l = a.sub_spec(b);
    let r = a.add_spec(b.neg_spec());
    assert forall|i: int| 0 <= i < l.samples().len() implies l.samples()[i] == r.samples()[i] by {
        F::Sample::lemma_minus(a.samples()[i], b.samples()[i]);
    }
    lemma_equal(l, r);
}

/// Scaling twice is scaling by the product: `(a * s) * t == a * (s * t)`.
pub proof fn lemma_mul_assoc<F: Frame>(a: F, s: F::Sample, t: F::Sample)
    ensures
        a.mul_spec(s).mul_spec(t) == a.mul_spec(s.times(t)),
{
    F::lemma_channelwise(a, a, s);
    F::lemma_channelwise(a.mul_spec(s), a, t);
    F::lemma_channelwise(a, a, s.times(t));
    let l = a.mul_spec(s).mul_spec(t);
    let r = a.mul_spec(s.times(t));
    assert forall|i: int| 0 <= i < l.samples().len() implies l.samples()[i] == r.samples()[i] by {
        F::Sample::lemma_times_assoc(a.samples()[i], s, t);
    }
    lemma_equal(l, r);
}

/// Scaling by one changes nothing: `a * 1 == a`.
pub proof fn lemma_mul_one<F: Frame>(a: F)
    ensures
        a.mul_spec(F::Sample::one_spec()) == a,
{
    F::lemma_channelwise(a, a, F::Sample::one_spec());
    let l = a.mul_spec(F::Sample::one_spec());
    assert forall|i: int| 0 <= i < l.samples().len() implies l.samples()[i] == a.samples()[i] by {
        F::Sample::lemma_times_one(a.samples()[i]);
    }
    lemma_equal(l, a);
}

/// Scaling by zero gives the zero frame: `a * 0 == 0`.
pub proof fn lemma_mul_zero<F: Frame>(a: F)
    ensures
        a.mul_spec(F::Sample::zero_spec()) == F::zero_spec(),
{
    let z = F::zero_spec();
    F::lemma_channelwise(a, a, F::Sample::zero_spec());
    let l = a.mul_spec(F::Sample::zero_spec());
    assert forall|i: int| 0 <= i < l.samples().len() implies l.samples()[i] == z.samples()[i] by {
        lemma_times_zero(a.samples()[i]);
    }
    lemma_equal(l, z);
}

/// Scaling distributes over the sum of frames: `(a + b) * k == a * k + b * k`.
pub proof fn lemma_mul_distributes<F: Frame>(a: F, b: F, k: F::Sample)
    ensures
        a.add_spec(b).mul_spec(k) == a.mul_spec(k).add_spec(b.mul_spec(k)),
{
    F::lemma_channelwise(a, b, k);
    F::lemma_channelwise(b, a, k);
    F::lemma_channelwise(a.add_spec(b), a, k);
    F::lemma_channelwise(a.mul_spec(k), b.mul_spec(k), k);
    F::lemma_shape(a, b);
    let l = a.add_spec(b).mul_spec(k);
    let r = a.mul_spec(k).add_spec(b.mul_spec(k));
    assert forall|i: int| 0 <= i < l.samples().len() implies l.samples()[i] == r.samples()[i] by {
        let (x, y) = (a.samples()[i], b.samples()[i]);
        F::Sample::lemma_times_comm(x.plus(y), k);
        F::Sample::lemma_times_distributes(k, x, y);
        F::Sample::lemma_times_comm(k, x);
        F::Sample::lemma_times_comm(k, y);
    }
    lemma_equal(l, r);
}

/// Scaling distributes over the sum of scalars: `a * (s + t) == a * s + a * t`.
pub proof fn lemma_mul_distributes_scalar<F: Frame>(a: F, s: F::Sample, t: F::Sample)
    ensures
        a.mul_spec(s.plus(t)) == a.mul_spec(s).add_spec(a.mul_spec(t)),
{
    F::lemma_channelwise(a, a, s);
    F::lemma_channelwise(a, a, t);
    F::lemma_channelwise(a, a, s.plus(t));
    F::lemma_channelwise(a.mul_spec(s), a.mul_spec(t), s);
    let l = a.mul_spec(s.plus(t));
    let r = a.mul_spec(s).add_spec(a.mul_spec(t));
    assert forall|i: int| 0 <= i < l.samples().len() implies l.samples()[i] == r.samples()[i] by {
        F::Sample::lemma_times_distributes(a.samples()[i], s, t);
    }
    lemma_equal(l, r);
}

/// The sum of a sequence of frames: they are added to the zero frame one
/// after the other, from the first to the last.
pub open spec fn total<F: Frame>(frames: Seq<F>) -> F
    decreases frames.len(),
{
    if frames.len() == 0 {
        F::zero_spec()
    } else {
        total(frames.drop_last()).add_spec(frames.last())
    }
}

} // verus!
