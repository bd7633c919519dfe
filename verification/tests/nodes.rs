use dsp_core::alloc_buffer;
use dsp_core::bus::Bus;
use dsp_core::fbk::{Del, Fbk, Single};
use dsp_core::frame::array::Arf;
use dsp_core::node::Node;
use dsp_core::num::Zero;

type Mono = Arf<i32, 1>;

fn m(x: i32) -> Mono {
    Arf::from([x])
}

fn monos(xs: &[i32]) -> Vec<Mono> {
    xs.iter().map(|x| m(*x)).collect()
}

fn boxed(xs: &[i32]) -> Box<[Mono]> {
    monos(xs).into_boxed_slice()
}

#[test]
fn single_delays_by_one_frame() {
    let mut single = Single::<Mono>::new();
    let mut frames = monos(&[5, 6, 7]);
    single.proc(&mut frames);
    assert_eq!(frames, monos(&[0, 5, 6]));
    // the node holds the last input: it comes out first in the next block
    let mut next = monos(&[8]);
    single.proc(&mut next);
    assert_eq!(next, monos(&[7]));
}

#[test]
fn single_default_holds_zero() {
    let mut single: Single<Arf<i32, 2>> = Default::default();
    let mut frames = [Arf::from([1, 2])];
    single.proc(&mut frames);
    assert_eq!(frames, [Arf::zero()]);
}

#[test]
fn single_leaves_an_empty_block_alone() {
    let mut single = Single::<Mono>::new();
    let mut none: Vec<Mono> = Vec::new();
    single.proc(&mut none);
    let mut frames = monos(&[4]);
    single.proc(&mut frames);
    assert_eq!(frames, monos(&[0]));
}

#[test]
fn del_of_three_delays_by_three_frames() {
    let mut del = Del::<Mono>::alloc_new(3);
    let mut frames = monos(&[5, 6, 7]);
    del.proc(&mut frames);
    assert_eq!(frames, monos(&[0, 0, 0]));
    let mut next = monos(&[8]);
    del.proc(&mut next);
    assert_eq!(next, monos(&[5]));
}

#[test]
fn del_output_is_the_input_l_frames_before() {
    let mut del = Del::<Mono>::alloc_new(4);
    let input: Vec<i32> = (1..=11).collect();
    let mut frames = monos(&input);
    del.proc(&mut frames);
    assert_eq!(frames, monos(&[0, 0, 0, 0, 1, 2, 3, 4, 5, 6, 7]));
}

#[test]
fn del_starts_with_the_buffer_it_was_given() {
    let mut del = Del::new(boxed(&[10, 20, 30]));
    assert_eq!(del.buffer(), &monos(&[10, 20, 30])[..]);
    assert_eq!(del.index(), 0);
    let mut frames = monos(&[1, 2, 3, 4]);
    del.proc(&mut frames);
    assert_eq!(frames, monos(&[10, 20, 30, 1]));
}

#[test]
fn del_from_a_buffer_is_del_new() {
    let mut del: Del<Mono> = boxed(&[10, 20]).into();
    let mut frames = monos(&[1, 2, 3]);
    del.proc(&mut frames);
    assert_eq!(frames, monos(&[10, 20, 1]));
}

#[test]
fn del_of_one_is_a_single() {
    let mut del = Del::<Mono>::alloc_new(1);
    let mut single = Single::<Mono>::new();
    let input = [3, -1, 4, 1, -5, 9, 2, 6];
    let mut by_del = monos(&input);
    let mut by_single = monos(&input);
    // in blocks of different lengths
    del.proc(&mut by_del[..3]);
    del.proc(&mut by_del[3..]);
    single.proc(&mut by_single[..5]);
    single.proc(&mut by_single[5..]);
    assert_eq!(by_del, by_single);
    assert_eq!(by_del, monos(&[0, 3, -1, 4, 1, -5, 9, 2]));
    assert_eq!(del.into_buffer(), boxed(&[6]));
}

#[test]
fn into_buffer_gives_the_buffer_as_it_is() {
    let mut del = Del::<Mono>::alloc_new(3);
    let mut frames = monos(&[5, 6, 7, 8]);
    del.proc(&mut frames);
    // 8 went to the first place, where 5 had been
    assert_eq!(del.buffer(), &monos(&[8, 6, 7])[..]);
    assert_eq!(del.index(), 1);
    let mut next = monos(&[9, 10, 11, 12]);
    del.proc(&mut next);
    assert_eq!(next, monos(&[6, 7, 8, 9]));
    assert_eq!(del.into_buffer(), boxed(&[11, 12, 10]));
}

#[test]
fn into_buffer_of_an_unused_line_is_what_went_in() {
    let del = Del::new(boxed(&[1, 2, 3]));
    assert_eq!(del.into_buffer(), boxed(&[1, 2, 3]));
}

#[test]
fn buffer_mut_changes_what_comes_out() {
    let mut del = Del::<Mono>::alloc_new(2);
    del.buffer_mut()[1] = m(42);
    let mut frames = monos(&[1, 2, 3]);
    del.proc(&mut frames);
    assert_eq!(frames, monos(&[0, 42, 1]));
}

#[test]
fn alloc_buffer_holds_default_values() {
    let buffer: Box<[Mono]> = alloc_buffer(3);
    assert_eq!(buffer, boxed(&[0, 0, 0]));
    let empty: Box<[i32]> = alloc_buffer(0);
    assert_eq!(empty.len(), 0);
}

#[test]
fn blocks_make_no_difference_to_a_del() {
    let input: Vec<i32> = (1..=10).collect();
    let mut whole = monos(&input);
    Del::<Mono>::alloc_new(3).proc(&mut whole);
    let mut one_by_one = monos(&input);
    let mut del = Del::<Mono>::alloc_new(3);
    for frame in one_by_one.chunks_mut(1) {
        del.proc(frame);
    }
    assert_eq!(whole, one_by_one);
}

#[test]
fn empty_bus_gives_the_frames_back() {
    let mut bus: Bus<Mono> = Bus::new();
    assert_eq!(bus.len(), 0);
    let mut frames = monos(&[1, 2, 3]);
    bus.proc(&mut frames);
    assert_eq!(frames, monos(&[1, 2, 3]));
}

#[test]
fn bus_runs_its_nodes_in_order() {
    let mut bus: Bus<Mono> = Bus::default();
    bus.push(Box::new(Del::new(boxed(&[10, 20]))));
    bus.push(Box::new(Single::<Mono>::new()));
    assert_eq!(bus.len(), 2);
    let mut frames = monos(&[1, 2, 3, 4, 5]);
    bus.proc(&mut frames);
    // the line gives 10 20 1 2 3, the unit delay after it 0 10 20 1 2
    assert_eq!(frames, monos(&[0, 10, 20, 1, 2]));
    let mut next = monos(&[6]);
    bus.proc(&mut next);
    assert_eq!(next, monos(&[3]));
}

#[test]
fn fbk_new_has_no_gain() {
    let fbk = Fbk::<Mono>::new();
    assert_eq!(*fbk.feedback(), 0);
    assert_eq!(fbk.bus().len(), 0);
    let other: Fbk<Mono> = Default::default();
    assert_eq!(*other.feedback(), 0);
}

#[test]
fn fbk_with_feedback_sets_the_gain() {
    let mut fbk = Fbk::<Mono>::with_feedback(3);
    assert_eq!(*fbk.feedback(), 3);
    *fbk.feedback_mut() = -2;
    assert_eq!(*fbk.feedback(), -2);
}

#[test]
fn fbk_around_nothing_is_a_recursion() {
    // s[n] = x[n] + g * s[n - 1], s[-1] = 0
    let mut fbk = Fbk::<Mono>::with_feedback(2);
    let mut frames = monos(&[1, 0, 0, 0]);
    fbk.proc(&mut frames);
    assert_eq!(frames, monos(&[1, 2, 4, 8]));
    let mut next = monos(&[1, 0]);
    fbk.proc(&mut next);
    assert_eq!(next, monos(&[17, 34]));
}

#[test]
fn fbk_without_gain_is_its_chain() {
    let input = [3, -1, 4, 1, -5, 9];
    let mut fbk = Fbk::<Mono>::new();
    fbk.bus_mut().push(Box::new(Del::new(boxed(&[7, 8]))));
    let mut by_fbk = monos(&input);
    fbk.proc(&mut by_fbk);
    let mut chain: Bus<Mono> = Bus::new();
    chain.push(Box::new(Del::new(boxed(&[7, 8]))));
    let mut by_chain = monos(&input);
    chain.proc(&mut by_chain);
    assert_eq!(by_fbk, by_chain);
    assert_eq!(by_fbk, monos(&[7, 8, 3, -1, 4, 1]));
}

#[test]
fn fbk_without_gain_forgets_what_it_held() {
    let mut fbk = Fbk::<Mono>::with_feedback(5);
    let mut frames = monos(&[1, 1]);
    fbk.proc(&mut frames);
    assert_eq!(frames, monos(&[1, 6]));
    *fbk.feedback_mut() = 0;
    let mut next = monos(&[2, 3]);
    fbk.proc(&mut next);
    assert_eq!(next, monos(&[2, 3]));
}

#[test]
fn fbk_around_a_delay_is_a_comb() {
    // y[n] = x[n - 2] + g * y[n - 3]: the line delays by two, the loop by one more
    let mut fbk = Fbk::<Mono>::with_feedback(3);
    fbk.bus_mut().push(Box::new(Del::<Mono>::alloc_new(2)));
    let mut frames = monos(&[1, 0, 0, 0, 0, 0, 0, 0, 0]);
    fbk.proc(&mut frames);
    assert_eq!(frames, monos(&[0, 0, 1, 0, 0, 3, 0, 0, 9]));
}

#[test]
fn fbk_keeps_what_it_holds_when_the_chain_changes() {
    let mut fbk = Fbk::<Mono>::with_feedback(2);
    let mut frames = monos(&[1, 0]);
    fbk.proc(&mut frames);
    assert_eq!(frames, monos(&[1, 2]));
    *fbk.bus_mut() = Bus::new();
    let mut next = monos(&[0, 0]);
    fbk.proc(&mut next);
    // 2 is still fed back
    assert_eq!(next, monos(&[4, 8]));
}

#[test]
fn fbk_into_bus_gives_the_chain_with_its_state() {
    let mut fbk = Fbk::<Mono>::new();
    fbk.bus_mut().push(Box::new(Single::<Mono>::new()));
    let mut frames = monos(&[5]);
    fbk.proc(&mut frames);
    assert_eq!(frames, monos(&[0]));
    let mut bus = fbk.into_bus();
    assert_eq!(bus.len(), 1);
    let mut next = monos(&[6]);
    bus.proc(&mut next);
    assert_eq!(next, monos(&[5]));
}

#[test]
fn fbk_inside_a_bus() {
    let mut inner = Fbk::<Mono>::with_feedback(2);
    inner.bus_mut().push(Box::new(Single::<Mono>::new()));
    let mut bus: Bus<Mono> = Bus::new();
    bus.push(Box::new(inner));
    let mut frames = monos(&[1, 0, 0, 0, 0]);
    bus.proc(&mut frames);
    // y[n] = x[n - 1] + 2 * y[n - 2]
    assert_eq!(frames, monos(&[0, 1, 0, 2, 0]));
}

#[test]
fn blocks_make_no_difference_to_a_fbk() {
    let input = [3, -1, 4, 1, -5, 9, 2, 6];
    let mut whole = monos(&input);
    let mut fbk = Fbk::<Mono>::with_feedback(-3);
    fbk.bus_mut().push(Box::new(Del::<Mono>::alloc_new(2)));
    fbk.proc(&mut whole);
    let mut parts = monos(&input);
    let mut fbk = Fbk::<Mono>::with_feedback(-3);
    fbk.bus_mut().push(Box::new(Del::<Mono>::alloc_new(2)));
    fbk.proc(&mut parts[..1]);
    fbk.proc(&mut parts[1..4]);
    fbk.proc(&mut parts[4..4]);
    fbk.proc(&mut parts[4..]);
    assert_eq!(whole, parts);
}

#[test]
fn fbk_on_stereo_frames() {
    let mut fbk = Fbk::<Arf<i32, 2>>::with_feedback(-1);
    let mut frames = [Arf::from([1, 10]), Arf::from([1, 10]), Arf::from([0, 0])];
    fbk.proc(&mut frames);
    assert_eq!(frames, [Arf::from([1, 10]), Arf::from([0, 0]), Arf::from([0, 0])]);
}
