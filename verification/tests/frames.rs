use dsp_core::frame::array::Arf;
use dsp_core::frame::Frame;
use dsp_core::num::{zero, Scalar, Zero};

fn stereo(l: i32, r: i32) -> Arf<i32, 2> {
    Arf::from([l, r])
}

#[test]
fn array_round_trip() {
    let frame = Arf::from([3i32, -4, 5]);
    let back: [i32; 3] = frame.into();
    assert_eq!(back, [3, -4, 5]);
}

#[test]
fn zero_and_default_are_all_zero_samples() {
    let z: Arf<i32, 4> = Arf::zero();
    assert_eq!(z, Arf::from([0, 0, 0, 0]));
    let d: Arf<i32, 4> = Default::default();
    assert_eq!(d, z);
    let free: Arf<i64, 2> = zero();
    assert_eq!(free, Arf::from([0i64, 0]));
}

#[test]
fn add_is_channel_by_channel() {
    assert_eq!(stereo(1, 2) + stereo(10, 20), stereo(11, 22));
}

#[test]
fn sub_is_channel_by_channel() {
    assert_eq!(stereo(1, 2) - stereo(10, 20), stereo(-9, -18));
}

#[test]
fn neg_is_channel_by_channel() {
    assert_eq!(-stereo(1, -2), stereo(-1, 2));
}

#[test]
fn mul_scales_every_channel() {
    assert_eq!(stereo(3, -4) * 5, stereo(15, -20));
}

#[test]
fn compound_assignment_matches_the_operators() {
    let mut a = stereo(1, 2);
    a += stereo(10, 20);
    assert_eq!(a, stereo(11, 22));
    a -= stereo(1, 1);
    assert_eq!(a, stereo(10, 21));
    a *= 3;
    assert_eq!(a, stereo(30, 63));
}

#[test]
fn arithmetic_wraps_around() {
    assert_eq!(stereo(i32::MAX, i32::MIN) + stereo(1, -1), stereo(i32::MIN, i32::MAX));
    assert_eq!(stereo(i32::MIN, 0) - stereo(1, 0), stereo(i32::MAX, 0));
    assert_eq!(-stereo(i32::MIN, 1), stereo(i32::MIN, -1));
    assert_eq!(stereo(0x4000_0000, 3) * 4, stereo(0, 12));
}

#[test]
fn index_reads_a_channel() {
    let a = Arf::from([7i32, 8, 9]);
    assert_eq!(*a.index(0), 7);
    assert_eq!(*a.index(2), 9);
}

#[test]
fn index_mut_changes_one_channel() {
    let mut a = Arf::from([7i32, 8, 9]);
    *a.index_mut(1) = -1;
    assert_eq!(a, Arf::from([7, -1, 9]));
}

#[test]
fn slices_show_the_samples() {
    let mut a = Arf::from([7i32, 8, 9]);
    assert_eq!(a.as_slice(), &[7, 8, 9]);
    a.as_mut_slice()[2] = 0;
    assert_eq!(a, Arf::from([7, 8, 0]));
}

#[test]
fn sum_adds_from_zero() {
    let frames = [stereo(1, 2), stereo(10, 20), stereo(100, 200)];
    assert_eq!(Arf::sum(&frames), stereo(111, 222));
    let none: [Arf<i32, 2>; 0] = [];
    assert_eq!(Arf::sum(&none), stereo(0, 0));
}

#[test]
fn flip_swaps_the_two_channels() {
    let mut a = stereo(1, 2);
    a.flip();
    assert_eq!(a, stereo(2, 1));
}

#[test]
fn flip_twice_gives_the_frame_back() {
    let mut a = stereo(-5, 9);
    a.flip();
    a.flip();
    assert_eq!(a, stereo(-5, 9));
}

#[test]
fn vector_space_laws_on_values() {
    let a = stereo(3, i32::MAX);
    let b = stereo(-8, 12);
    let c = stereo(i32::MIN, 40);
    let (s, t) = (70_000, -90_000);
    assert_eq!((a + b) + c, a + (b + c));
    assert_eq!(a + b, b + a);
    assert_eq!(a + Arf::zero(), a);
    assert_eq!(a + (-a), Arf::zero());
    assert_eq!(a - b, a + (-b));
    assert_eq!((a * s) * t, a * s.mul(t));
    assert_eq!(a * 1, a);
    assert_eq!(a * 0, Arf::zero());
    assert_eq!((a + b) * s, a * s + b * s);
    assert_eq!(a * s.add(t), a * s + a * t);
}

#[test]
fn scalar_operations_of_i32() {
    assert_eq!(<i32 as Zero>::zero(), 0);
    assert_eq!(<i32 as Scalar>::one(), 1);
    assert_eq!(5i32.add(7), 12);
    assert_eq!(5i32.sub(7), -2);
    assert_eq!(Scalar::neg(5i32), -5);
    assert_eq!(5i32.mul(7), 35);
    assert_eq!(i32::MAX.add(1), i32::MIN);
    assert_eq!(i32::MIN.sub(1), i32::MAX);
    assert_eq!(Scalar::neg(i32::MIN), i32::MIN);
    assert_eq!(0x10000i32.mul(0x10000), 0);
    assert_eq!(i32::MAX.mul(2), -2);
}

#[test]
fn scalar_operations_of_i64() {
    assert_eq!(<i64 as Zero>::zero(), 0);
    assert_eq!(<i64 as Scalar>::one(), 1);
    assert_eq!(5i64.add(7), 12);
    assert_eq!(5i64.sub(7), -2);
    assert_eq!(Scalar::neg(5i64), -5);
    assert_eq!(5i64.mul(7), 35);
    assert_eq!(i64::MAX.add(1), i64::MIN);
    assert_eq!(i64::MIN.sub(1), i64::MAX);
    assert_eq!(Scalar::neg(i64::MIN), i64::MIN);
    assert_eq!(0x1_0000_0000i64.mul(0x1_0000_0000), 0);
    assert_eq!(i64::MAX.mul(2), -2);
}

#[test]
fn frames_of_i64_samples() {
    let a = Arf::from([i64::MAX, 2]);
    assert_eq!(a + Arf::from([1, 2]), Arf::from([i64::MIN, 4]));
    assert_eq!(a * 2, Arf::from([-2, 4]));
}
