//! The array frame: `N` samples held in a fixed-size array.

use crate::frame::{differences, inverses, scaled, sums, total, zeros, Frame};
use crate::num::{Scalar, Zero};
use core::ops::{Add, AddAssign, Mul, MulAssign, Neg, Sub, SubAssign};
use vstd::array::spec_array_update;
use vstd::prelude::*;
use vstd::std_specs::ops::{AddSpec, MulSpec, NegSpec, SubSpec};

verus! {

/// Array frame: `N` channels of samples of type `T`.
#[derive(Debug, Clone, Copy, PartialEq)]
pub struct Arf<T, const N: usize>([T; N]);

impl<T, const N: usize> View for Arf<T, N> {
    type V = Seq<T>;

    /// The samples of the frame, in channel order.
    closed spec fn view(&self) -> Seq<T> {
        self.0@
    }
}

/// An array that agrees with `s` on its first `k` places.
proof fn array_upto<T, const N: usize>(s: Seq<T>, k: nat) -> (a: [T; N])
    requires
        s.len() == N,
        k <= N,
    ensures
        forall|i: int| 0 <= i < k ==> a@[i] == s[i],
    decreases k,
{
    if k == 0 {
        arbitrary()
    } else {
        let p = array_upto::<T, N>(s, (k - 1) as nat);
        spec_array_update(p, k - 1, s[k - 1])
    }
}

impl<T, const N: usize> Arf<T, N> {
    /// The frame whose samples are `s`.
    pub closed spec fn of(s: Seq<T>) -> Self {
        choose|f: Self| f@ == s
    }

    /// A frame has `N` samples.
    pub proof fn lemma_len(self)
        ensures
            self@.len() == N,
    {
    }

    /// Frames with the same samples are the same frame.
    pub proof fn lemma_ext(self, other: Self)
        requires
            self@ == other@,
        ensures
            self == other,
    {
        assert(self.0 =~= other.0);
    }

    /// The array that holds the samples of the frame.
    pub closed spec fn array(self) -> [T; N] {
        self.0
    }

    /// The array of a frame holds its samples.
    pub proof fn lemma_array(self)
        ensures
            self.array()@ == self@,
    {
    }

    /// Every sequence of `N` samples is the samples of a frame.
    pub proof fn lemma_of(s: Seq<T>)
        requires
            s.len() == N,
        ensures
            Self::of(s)@ == s,
    {
        let a = array_upto::<T, N>(s, N as nat);
        assert(a@ =~= s);
        assert(Arf(a)@ == s);
    }
}

impl<T, const N: usize> vstd::std_specs::convert::FromSpecImpl<[T; N]> for Arf<T, N> {
    open spec fn obeys_from_spec() -> bool {
        true
    }

    open spec fn from_spec(value: [T; N]) -> Self {
        Self::of(value@)
    }
}

impl<T, const N: usize> From<[T; N]> for Arf<T, N> {
    /// The frame that holds the samples of `value`.
    fn from(value: [T; N]) -> (r: Self)
        ensures
            r@ == value@,
    {
        proof {
            Self::lemma_of(value@);
            Arf(value).lemma_ext(Self::of(value@));
        }
        Self(value)
    }
}

impl<T, const N: usize> vstd::std_specs::convert::FromSpecImpl<Arf<T, N>> for [T; N] {
    open spec fn obeys_from_spec() -> bool {
        true
    }

    open spec fn from_spec(value: Arf<T, N>) -> Self {
        value.array()
    }
}

impl<T, const N: usize> From<Arf<T, N>> for [T; N] {
    /// The samples of `value` as a plain array.
    fn from(value: Arf<T, N>) -> (r: Self)
        ensures
            r@ == value@,
    {
        value.0
    }
}

impl<T, const N: usize> Arf<T, N> {
    /// The sample of channel `index`.
    pub fn index(&self, index: usize) -> (r: &T)
        requires
            index < N,
        ensures
            *r == self@[index as int],
    {
        &self.0[index]
    }

    /// The sample of channel `index`, to be changed in place.
    pub fn index_mut(&mut self, index: usize) -> (r: &mut T)
        requires
            index < N,
        ensures
            *r == old(self)@[index as int],
            final(self)@ == old(self)@.update(index as int, *final(r)),
    {
        &mut self.0[index]
    }
}

impl<T: Scalar, const N: usize> Zero for Arf<T, N> {
    open spec fn zero_spec() -> Self {
        Self::of(zeros::<T>(N as nat))
    }

    /// The frame of `N` zero samples.
    fn zero() -> (r: Self)
        ensures
            r@ == zeros::<T>(N as nat),
    {
        let r = Self([T::zero();N]);
        proof {
            assert(r@ =~= zeros::<T>(N as nat));
            Self::lemma_of(zeros::<T>(N as nat));
            r.lemma_ext(Self::zero_spec());
        }
        r
    }
}

impl<T: Scalar, const N: usize> Default for Arf<T, N> {
    /// The zero frame.
    fn default() -> (r: Self)
        ensures
            r == Self::zero_spec(),
            r@ == zeros::<T>(N as nat),
    {
        Self::zero()
    }
}

impl<T: Scalar, const N: usize> vstd::std_specs::ops::AddSpecImpl for Arf<T, N> {
    open spec fn obeys_add_spec() -> bool {
        true
    }

    open spec fn add_req(self, rhs: Self) -> bool {
        true
    }

    open spec fn add_spec(self, rhs: Self) -> Self {
        Self::of(sums(self@, rhs@))
    }
}

impl<T: Scalar, const N: usize> Add for Arf<T, N> {
    type Output = Self;

    /// The sum of two frames, channel by channel.
    fn add(self, rhs: Self) -> (out: Self)
        ensures
            out@ == sums(self@, rhs@),
    {
        let mut out = Self::zero();
        for i in 0..N
            invariant
                forall|j: int| 0 <= j < i ==> out@[j] == self@[j].plus(rhs@[j]),
        {
            let ghost prev = out@;
            out.0[i] = self.0[i].add(rhs.0[i]);
            assert(out@ == prev.update(i as int, self@[i as int].plus(rhs@[i as int])));
        }
        proof {
            assert(out@ =~= sums(self@, rhs@));
            Self::lemma_of(sums(self@, rhs@));
            out.lemma_ext(Self::of(sums(self@, rhs@)));
        }
        out
    }
}

impl<T: Scalar, const N: usize> vstd::std_specs::ops::SubSpecImpl for Arf<T, N> {
    open spec fn obeys_sub_spec() -> bool {
        true
    }

    open spec fn sub_req(self, rhs: Self) -> bool {
        true
    }

    open spec fn sub_spec(self, rhs: Self) -> Self {
        Self::of(differences(self@, rhs@))
    }
}

impl<T: Scalar, const N: usize> Sub for Arf<T, N> {
    type Output = Self;

    /// The difference of two frames, channel by channel.
    fn sub(self, rhs: Self) -> (out: Self)
        ensures
            out@ == differences(self@, rhs@),
    {
        let mut out = Self::zero();
        for i in 0..N
            invariant
                forall|j: int| 0 <= j < i ==> out@[j] == self@[j].minus(rhs@[j]),
        {
            let ghost prev = out@;
            out.0[i] = self.0[i].sub(rhs.0[i]);
            assert(out@ == prev.update(i as int, self@[i as int].minus(rhs@[i as int])));
        }
        proof {
            assert(out@ =~= differences(self@, rhs@));
            Self::lemma_of(differences(self@, rhs@));
            out.lemma_ext(Self::of(differences(self@, rhs@)));
        }
        out
    }
}

impl<T: Scalar, const N: usize> vstd::std_specs::ops::NegSpecImpl for Arf<T, N> {
    open spec fn obeys_neg_spec() -> bool {
        true
    }

    open spec fn neg_req(self) -> bool {
        true
    }

    open spec fn neg_spec(self) -> Self {
        Self::of(inverses(self@))
    }
}

impl<T: Scalar, const N: usize> Neg for Arf<T, N> {
    type Output = Self;

    /// The additive inverse of a frame, channel by channel.
    fn neg(self) -> (out: Self)
        ensures
            out@ == inverses(self@),
    {
        let mut out = Self::zero();
        for i in 0..N
            invariant
                forall|j: int| 0 <= j < i ==> out@[j] == self@[j].negated(),
        {
            let ghost prev = out@;
            out.0[i] = self.0[i].neg();
            assert(out@ == prev.update(i as int, self@[i as int].negated()));
        }
        proof {
            assert(out@ =~= inverses(self@));
            Self::lemma_of(inverses(self@));
            out.lemma_ext(Self::of(inverses(self@)));
        }
        out
    }
}

impl<T: Scalar, const N: usize> vstd::std_specs::ops::MulSpecImpl<T> for Arf<T, N> {
    open spec fn obeys_mul_spec() -> bool {
        true
    }

    open spec fn mul_req(self, rhs: T) -> bool {
        true
    }

    open spec fn mul_spec(self, rhs: T) -> Self {
        Self::of(scaled(self@, rhs))
    }
}

impl<T: Scalar, const N: usize> Mul<T> for Arf<T, N> {
    type Output = Self;

    /// The frame with every sample multiplied by `rhs`.
    fn mul(self, rhs: T) -> (out: Self)
        ensures
            out@ == scaled(self@, rhs),
    {
        let mut out = Self::zero();
        for i in 0..N
            invariant
                forall|j: int| 0 <= j < i ==> out@[j] == self@[j].times(rhs),
        {
            let ghost prev = out@;
            out.0[i] = self.0[i].mul(rhs);
            assert(out@ == prev.update(i as int, self@[i as int].times(rhs)));
        }
        proof {
            assert(out@ =~= scaled(self@, rhs));
            Self::lemma_of(scaled(self@, rhs));
            out.lemma_ext(Self::of(scaled(self@, rhs)));
        }
        out
    }
}

impl<T: Scalar, const N: usize> AddAssign for Arf<T, N> {
    /// Adds `rhs` to the frame, channel by channel.
    fn add_assign(&mut self, rhs: Self)
        ensures
            final(self)@ == sums(old(self)@, rhs@),
            *final(self) == old(self).add_spec(rhs),
    {
        let ghost before = self@;
        for i in 0..N
            invariant
                forall|j: int| 0 <= j < i ==> self@[j] == before[j].plus(rhs@[j]),
                forall|j: int| i <= j < N ==> self@[j] == before[j],
        {
            let ghost prev = self@;
            self.0[i] = self.0[i].add(rhs.0[i]);
            assert(self@ == prev.update(i as int, before[i as int].plus(rhs@[i as int])));
        }
        proof {
            assert(self@ =~= sums(before, rhs@));
            Self::lemma_of(sums(before, rhs@));
            self.lemma_ext(Self::of(sums(before, rhs@)));
        }
    }
}

impl<T: Scalar, const N: usize> SubAssign for Arf<T, N> {
    /// Subtracts `rhs` from the frame, channel by channel.
    fn sub_assign(&mut self, rhs: Self)
        ensures
            final(self)@ == differences(old(self)@, rhs@),
            *final(self) == old(self).sub_spec(rhs),
    {
        let ghost before = self@;
        for i in 0..N
            invariant
                forall|j: int| 0 <= j < i ==> self@[j] == before[j].minus(rhs@[j]),
                forall|j: int| i <= j < N ==> self@[j] == before[j],
        {
            let ghost prev = self@;
            self.0[i] = self.0[i].sub(rhs.0[i]);
            assert(self@ == prev.update(i as int, before[i as int].minus(rhs@[i as int])));
        }
        proof {
            assert(self@ =~= differences(before, rhs@));
            Self::lemma_of(differences(before, rhs@));
            self.lemma_ext(Self::of(differences(before, rhs@)));
        }
    }
}

impl<T: Scalar, const N: usize> MulAssign<T> for Arf<T, N> {
    /// Multiplies every sample of the frame by `rhs`.
    fn mul_assign(&mut self, rhs: T)
        ensures
            final(self)@ == scaled(old(self)@, rhs),
            *final(self) == old(self).mul_spec(rhs),
    {
        let ghost before = self@;
        for i in 0..N
            invariant
                forall|j: int| 0 <= j < i ==> self@[j] == before[j].times(rhs),
                forall|j: int| i <= j < N ==> self@[j] == before[j],
        {
            let ghost prev = self@;
            self.0[i] = self.0[i].mul(rhs);
            assert(self@ == prev.update(i as int, before[i as int].times(rhs)));
        }
        proof {
            assert(self@ =~= scaled(before, rhs));
            Self::lemma_of(scaled(before, rhs));
            self.lemma_ext(Self::of(scaled(before, rhs)));
        }
    }
}

impl<T: Scalar, const N: usize> Frame for Arf<T, N> {
    type Sample = T;

    open spec fn samples(self) -> Seq<T> {
        self@
    }

    fn as_slice(&self) -> (s: &[T]) {
        &self.0
    }

    fn as_mut_slice(&mut self) -> (s: &mut [T]) {
        &mut self.0
    }

    proof fn lemma_shape(a: Self, b: Self) {
        a.lemma_len();
        b.lemma_len();
        if a@ == b@ {
            a.lemma_ext(b);
        }
    }

    proof fn lemma_default(a: Self) {
    }

    proof fn lemma_channelwise(a: Self, b: Self, k: T) {
        a.lemma_len();
        b.lemma_len();
        Self::lemma_of(zeros::<T>(N as nat));
        Self::lemma_of(sums(a@, b@));
        Self::lemma_of(differences(a@, b@));
        Self::lemma_of(inverses(a@));
        Self::lemma_of(scaled(a@, k));
    }
}

impl<T: Scalar, const N: usize> Arf<T, N> {
    /// The sum of `frames`, added up from the first to the last; the zero
    /// frame when there are none.
    pub fn sum(frames: &[Self]) -> (r: Self)
        ensures
            r == total(frames@),
    {
        let mut acc = Self::zero();
        let n = frames.len();
        for i in 0..n
            invariant
                n == frames@.len(),
                acc == total(frames@.take(i as int)),
        {
            proof {
                assert(frames@.take(i + 1).drop_last() =~= frames@.take(i as int));
            }
            acc = acc + frames[i];
        }
        proof {
            assert(frames@.take(n as int) =~= frames@);
        }
        acc
    }
}

impl<T: Scalar> Arf<T, 2> {
    /// The frame with its two channels exchanged.
    pub open spec fn flipped(self) -> Self {
        Self::of(seq![self@[1], self@[0]])
    }

    /// Exchanging the channels twice gives the frame back.
    pub proof fn lemma_flip_twice(self)
        ensures
            self.flipped().flipped() == self,
    {
        self.lemma_len();
        Self::lemma_of(seq![self@[1], self@[0]]);
        let once = self.flipped();
        Self::lemma_of(seq![once@[1], once@[0]]);
        assert(once.flipped()@ =~= self@);
        once.flipped().lemma_ext(self);
    }

    /// Swaps channel 0 and channel 1.
    pub fn flip(&mut self)
        ensures
            final(self)@ == seq![old(self)@[1], old(self)@[0]],
            *final(self) == old(self).flipped(),
    {
        let lf = *self.index(0);
        let rf = *self.index(1);
        *self.index_mut(0) = rf;
        *self.index_mut(1) = lf;
        proof {
            self.lemma_len();
            assert(self@ =~= seq![old(self)@[1], old(self)@[0]]);
            Self::lemma_of(seq![old(self)@[1], old(self)@[0]]);
            self.lemma_ext(old(self).flipped());
        }
    }
}

} // verus!
