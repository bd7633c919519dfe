use dsp_core::fbk::{Del, Fbk};
use dsp_core::frame::array::Arf;
use dsp_core::node::Node;
use dsp_core::num::{Scalar, Zero};

/// A floating-point sample.
#[derive(Clone, Copy, Debug, PartialEq)]
struct Fp(f64);

impl Zero for Fp {
    fn zero_spec() -> Self {
        Fp(0.0)
    }

    fn zero() -> Self {
        Fp(0.0)
    }
}

// Floating-point arithmetic rounds, so the laws hold of it only as far as
// every result can be represented, as in the cases below.
impl Scalar for Fp {
    fn one_spec() -> Self {
        Fp(1.0)
    }

    fn plus(self, rhs: Self) -> Self {
        Fp(self.0 + rhs.0)
    }

    fn minus(self, rhs: Self) -> Self {
        Fp(self.0 - rhs.0)
    }

    fn negated(self) -> Self {
        Fp(-self.0)
    }

    fn times(self, rhs: Self) -> Self {
        Fp(self.0 * rhs.0)
    }

    fn lemma_plus_comm(_a: Self, _b: Self) {}

    fn lemma_plus_assoc(_a: Self, _b: Self, _c: Self) {}

    fn lemma_plus_zero(_a: Self) {}

    fn lemma_plus_negated(_a: Self) {}

    fn lemma_minus(_a: Self, _b: Self) {}

    fn lemma_times_comm(_a: Self, _b: Self) {}

    fn lemma_times_assoc(_a: Self, _b: Self, _c: Self) {}

    fn lemma_times_one(_a: Self) {}

    fn lemma_times_distributes(_a: Self, _b: Self, _c: Self) {}

    fn one() -> Self {
        Fp(1.0)
    }

    fn add(self, rhs: Self) -> Self {
        Fp(self.0 + rhs.0)
    }

    fn sub(self, rhs: Self) -> Self {
        Fp(self.0 - rhs.0)
    }

    fn neg(self) -> Self {
        Fp(-self.0)
    }

    fn mul(self, rhs: Self) -> Self {
        Fp(self.0 * rhs.0)
    }
}

fn monos(xs: &[f64]) -> Vec<Arf<Fp, 1>> {
    xs.iter().map(|x| Arf::from([Fp(*x)])).collect()
}

#[test]
fn fbk_with_half_gain_halves_each_time() {
    let mut fbk = Fbk::<Arf<Fp, 1>>::with_feedback(Fp(0.5));
    let mut frames = monos(&[1.0, 0.0, 0.0, 0.0]);
    fbk.proc(&mut frames);
    assert_eq!(frames, monos(&[1.0, 0.5, 0.25, 0.125]));
}

#[test]
fn float_frames_add_and_scale() {
    let a = Arf::from([Fp(1.5), Fp(-2.0)]);
    let b = Arf::from([Fp(0.25), Fp(4.0)]);
    assert_eq!(a + b, Arf::from([Fp(1.75), Fp(2.0)]));
    assert_eq!(a * Fp(2.0), Arf::from([Fp(3.0), Fp(-4.0)]));
    assert_eq!(-a, Arf::from([Fp(-1.5), Fp(2.0)]));
    assert_eq!(a - b, Arf::from([Fp(1.25), Fp(-6.0)]));
}

#[test]
fn del_of_float_frames() {
    let mut del = Del::<Arf<Fp, 1>>::alloc_new(2);
    let mut frames = monos(&[0.5, 0.25, 0.125]);
    del.proc(&mut frames);
    assert_eq!(frames, monos(&[0.0, 0.0, 0.5]));
}
