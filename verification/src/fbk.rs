//! The unit delay, the delay line and the feedback loop.

use crate::alloc_buffer;
use crate::bus::Bus;
use crate::frame::{lemma_add_zero, lemma_mul_zero, Frame};
use crate::node::{follows, lemma_follows_trans, response, Node};
use crate::num::{zero, Scalar, Zero};
use core::mem;
use vstd::arithmetic::div_mod::{
    lemma_add_mod_noop, lemma_mod_bound, lemma_mod_multiples_vanish, lemma_mod_self_0,
    lemma_mod_twice, lemma_small_mod,
};
use vstd::prelude::*;
use vstd::std_specs::ops::{AddSpec, MulSpec};

verus! {

/// A delay of one frame: it holds one frame and, for each input, gives out the
/// frame it holds and keeps the input in its place.
#[derive(Debug)]
pub struct Single<T>(T);

impl<T> Single<T> {
    /// The frame that the node holds.
    pub closed spec fn held(&self) -> T {
        self.0
    }
}

impl<T> Single<T> where T: Frame {
    /// A unit delay that holds the zero frame.
    #[must_use]
    pub fn new() -> (r: Self)
        ensures
            r.held() == T::zero_spec(),
    {
        Self(zero())
    }
}

impl<T> Default for Single<T> where T: Frame {
    /// A unit delay that holds the zero frame.
    fn default() -> (r: Self)
        ensures
            r.held() == T::zero_spec(),
    {
        Self::new()
    }
}

impl<T: Frame> Node<T> for Single<T> {
    open spec fn inv(&self) -> bool {
        true
    }

    /// The first output is the frame held, each later one the input before.
    open spec fn out(&self, past: Seq<T>, x: T) -> T {
        if past.len() == 0 {
            self.held()
        } else {
            past.last()
        }
    }

    /// Delays the stream by one frame. The node then holds the last input, or
    /// what it held before where there was no input.
    fn proc(&mut self, frames: &mut [T])
        ensures
            final(self).held() == (if old(frames)@.len() == 0 {
                old(self).held()
            } else {
                old(frames)@.last()
            }),
    {
        let n = frames.len();
        for i in 0..n
            invariant
                frames@.len() == n,
                n == old(frames)@.len(),
                forall|j: int|
                    0 <= j < i ==> #[trigger] frames@[j] == old(self).out(
                        old(frames)@.take(j),
                        old(frames)@[j],
                    ),
                forall|j: int| i <= j < n ==> frames@[j] == old(frames)@[j],
                self.held() == (if i == 0 {
                    old(self).held()
                } else {
                    old(frames)@[i - 1]
                }),
        {
            mem::swap(&mut self.0, &mut frames[i]);
        }
        proof {
            assert forall|past: Seq<T>, x: T| #[trigger]
                self.out(past, x) == old(self).out(old(frames)@ + past, x) by {
                if past.len() > 0 {
                    assert((old(frames)@ + past).last() == past.last());
                }
            }
        }
    }
}

/// The contents of a ring buffer from its oldest item to its newest, where
/// `cursor` is the place of the oldest.
pub open spec fn line<T>(contents: Seq<T>, cursor: int) -> Seq<T> {
    contents.subrange(cursor, contents.len() as int) + contents.subrange(0, cursor)
}

/// The contents of a ring buffer after the frames `xs` were written into it
/// one after the other, the first at `cursor` and each next one place
/// further on, back at the start after the last place.
pub open spec fn written<T>(contents: Seq<T>, cursor: int, xs: Seq<T>) -> Seq<T>
    decreases xs.len(),
{
    if xs.len() == 0 {
        contents
    } else {
        written(contents, cursor, xs.drop_last()).update(
            (cursor + xs.len() - 1) % (contents.len() as int),
            xs.last(),
        )
    }
}

/// Writing keeps the length of the buffer.
pub proof fn lemma_written_len<T>(contents: Seq<T>, cursor: int, xs: Seq<T>)
    requires
        contents.len() > 0,
    ensures
        written(contents, cursor, xs).len() == contents.len(),
    decreases xs.len(),
{
    if xs.len() > 0 {
        lemma_written_len(contents, cursor, xs.drop_last());
        lemma_mod_bound(cursor + xs.len() - 1, contents.len() as int);
    }
}

/// Writing one frame at the place of the oldest item makes it the newest.
pub proof fn lemma_line_step<T>(contents: Seq<T>, cursor: int, x: T)
    requires
        0 <= cursor < contents.len(),
    ensures
        line(contents.update(cursor, x), (cursor + 1) % (contents.len() as int)) == line(
            contents,
            cursor,
        ).skip(1).push(x),
        line(contents, cursor)[0] == contents[cursor],
        line(contents, cursor).len() == contents.len(),
{
    let len = contents.len() as int;
    let next = (cursor + 1) % len;
    if cursor + 1 < len {
        assert(next == cursor + 1) by {
            lemma_small_mod((cursor + 1) as nat, len as nat);
        }
    } else {
        assert(next == 0) by {
            lemma_mod_self_0(len);
        }
    }
    assert(line(contents.update(cursor, x), next) =~= line(contents, cursor).skip(1).push(x));
}

/// A ring buffer is a queue: after `xs` was written into it, it holds, from
/// the oldest to the newest, the last items of what it held followed by `xs`.
pub proof fn lemma_line_written<T>(contents: Seq<T>, cursor: int, xs: Seq<T>)
    requires
        0 <= cursor < contents.len(),
    ensures
        line(
            written(contents, cursor, xs),
            (cursor + xs.len()) % (contents.len() as int),
        ) == (line(contents, cursor) + xs).skip(xs.len() as int),
    decreases xs.len(),
{
    let len = contents.len() as int;
    let n = xs.len() as int;
    if n == 0 {
        lemma_small_mod(cursor as nat, len as nat);
        assert((line(contents, cursor) + xs).skip(0) =~= line(contents, cursor));
    } else {
        let front = xs.drop_last();
        lemma_line_written(contents, cursor, front);
        lemma_written_len(contents, cursor, front);
        let at = (cursor + n - 1) % len;
        lemma_mod_bound(cursor + n - 1, len);
        lemma_line_step(written(contents, cursor, front), at, xs.last());
        assert((at + 1) % len == (cursor + n) % len) by {
            lemma_add_mod_noop(cursor + n - 1, 1, len);
            lemma_add_mod_noop(at, 1, len);
            lemma_mod_twice(cursor + n - 1, len);
        }
        assert((line(contents, cursor) + front).skip(n - 1).skip(1).push(xs.last()) =~= (line(
            contents,
            cursor,
        ) + xs).skip(n));
    }
}

/// A delay line: a ring buffer of `L` frames with a cursor at the oldest of
/// them. It gives out each input `L` frames later.
#[derive(Debug)]
pub struct Del<T> {
    buffer: Box<[T]>,
    index: usize,
}

impl<T> Del<T> {
    /// The frames in the buffer, by their place.
    pub closed spec fn contents(&self) -> Seq<T> {
        self.buffer@
    }

    /// The place in the buffer that is read and written next.
    pub closed spec fn cursor(&self) -> int {
        self.index as int
    }

    /// The frames in the buffer from the oldest to the newest: the order in
    /// which they will come out.
    pub open spec fn queue(&self) -> Seq<T> {
        line(self.contents(), self.cursor())
    }

    /// The delay line that [`Del::new`] makes on `buffer`.
    pub closed spec fn on(buffer: Box<[T]>) -> Self {
        Self { buffer, index: 0 }
    }

    /// A delay line on `buffer`, whose frames come out first, from the first
    /// place on. The delay is the length of the buffer.
    #[must_use]
    pub fn new(buffer: Box<[T]>) -> (r: Self)
        ensures
            r == Self::on(buffer),
            r.contents() == buffer@,
            r.cursor() == 0,
    {
        Self { buffer, index: 0 }
    }

    /// The frames in the buffer, by their place.
    #[must_use]
    pub fn buffer(&self) -> (b: &[T])
        ensures
            b@ == self.contents(),
    {
        &self.buffer
    }

    /// The place in the buffer that is read and written next.
    #[must_use]
    pub fn index(&self) -> (index: usize)
        ensures
            index == self.cursor(),
    {
        self.index
    }

    /// The frames in the buffer, to be changed in place. The cursor stays.
    pub fn buffer_mut(&mut self) -> (b: &mut [T])
        ensures
            b@ == old(self).contents(),
            final(self).contents() == final(b)@,
            final(self).cursor() == old(self).cursor(),
    {
        &mut self.buffer
    }

    /// Gives the buffer back, as it is.
    #[must_use]
    pub fn into_buffer(self) -> (b: Box<[T]>)
        ensures
            b@ == self.contents(),
    {
        self.buffer
    }
}

impl<T> vstd::std_specs::convert::FromSpecImpl<Box<[T]>> for Del<T> {
    open spec fn obeys_from_spec() -> bool {
        true
    }

    open spec fn from_spec(value: Box<[T]>) -> Self {
        Self::on(value)
    }
}

impl<T> From<Box<[T]>> for Del<T> {
    /// A delay line on `value`, as [`Del::new`] makes it.
    fn from(value: Box<[T]>) -> (r: Self)
        ensures
            r.contents() == value@,
            r.cursor() == 0,
    {
        Self::new(value)
    }
}

impl<T> Del<T> where T: Default {
    /// A delay line of `size` frames on a new buffer, each frame in it a
    /// default value.
    #[must_use]
    pub fn alloc_new(size: usize) -> (r: Self)
        ensures
            r.contents().len() == size,
            forall|i: int|
                0 <= i < size ==> call_ensures(T::default, (), #[trigger] r.contents()[i]),
            r.cursor() == 0,
    {
        Self::new(alloc_buffer(size))
    }
}

impl<T> Node<T> for Del<T> where T: Frame {
    /// The buffer holds at least one frame and the cursor is a place in it.
    open spec fn inv(&self) -> bool {
        0 <= self.cursor() < self.contents().len()
    }

    /// The first `L` outputs are the frames of the buffer from the oldest on;
    /// each later output is the input `L` frames before.
    open spec fn out(&self, past: Seq<T>, x: T) -> T {
        if past.len() < self.contents().len() {
            self.queue()[past.len() as int]
        } else {
            past[past.len() - self.contents().len()]
        }
    }

    /// Delays the stream by the length of the buffer. Each input is written
    /// over the frame that came out for it, and the cursor moves on by the
    /// number of inputs, around the buffer.
    fn proc(&mut self, frames: &mut [T])
        ensures
            final(self).contents().len() == old(self).contents().len(),
            final(self).contents() == written(
                old(self).contents(),
                old(self).cursor(),
                old(frames)@,
            ),
            final(self).cursor() == (old(self).cursor() + old(frames)@.len()) % (
            old(self).contents().len() as int),
            final(self).queue() == (old(self).queue() + old(frames)@).skip(
                old(frames)@.len() as int,
            ),
    {
        let n = frames.len();
        let ghost xs = frames@;
        let ghost start = self.queue();
        let ghost len = self.contents().len() as int;
        proof {
            lemma_small_mod(self.cursor() as nat, len as nat);
        }
        for i in 0..n
            invariant
                frames@.len() == n,
                xs == old(frames)@,
                n == xs.len(),
                start == old(self).queue(),
                len == old(self).contents().len(),
                old(self).inv(),
                self.inv(),
                self.contents() == written(
                    old(self).contents(),
                    old(self).cursor(),
                    xs.take(i as int),
                ),
                self.cursor() == (old(self).cursor() + i) % len,
                self.queue() == (start + xs.take(i as int)).skip(i as int),
                forall|j: int|
                    0 <= j < i ==> #[trigger] frames@[j] == old(self).out(xs.take(j), xs[j]),
                forall|j: int| i <= j < n ==> frames@[j] == xs[j],
        {
            proof {
                lemma_written_len(old(self).contents(), old(self).cursor(), xs.take(i as int));
                lemma_line_step(self.contents(), self.cursor(), xs[i as int]);
                assert(xs.take(i + 1).drop_last() =~= xs.take(i as int));
                lemma_add_mod_noop(old(self).cursor() + i, 1, len);
                lemma_add_mod_noop(self.cursor(), 1, len);
                lemma_mod_twice(old(self).cursor() + i, len);
            }
            let y0 = self.buffer[self.index];
            self.buffer[self.index] = frames[i];
            self.index += 1;
            if self.index == self.buffer.len() {
                self.index = 0;
            }
            frames[i] = y0;
            proof {
                if self.cursor() == 0 {
                    lemma_mod_self_0(len);
                } else {
                    lemma_small_mod(self.cursor() as nat, len as nat);
                }
            }
        }
        proof {
            assert(xs.take(n as int) =~= xs);
            assert forall|past: Seq<T>, x: T| #[trigger]
                self.out(past, x) == old(self).out(xs + past, x) by {
                lemma_written_len(old(self).contents(), old(self).cursor(), xs);
            }
        }
    }
}

/// Writing in two blocks is writing the whole: the places that `zs` goes to
/// follow on those that `xs` went to.
pub proof fn lemma_written_blocks<T>(contents: Seq<T>, cursor: int, xs: Seq<T>, zs: Seq<T>)
    requires
        0 <= cursor < contents.len(),
    ensures
        written(
            written(contents, cursor, xs),
            (cursor + xs.len()) % (contents.len() as int),
            zs,
        ) == written(contents, cursor, xs + zs),
    decreases zs.len(),
{
    let len = contents.len() as int;
    let next = (cursor + xs.len()) % len;
    lemma_written_len(contents, cursor, xs);
    if zs.len() == 0 {
        assert(xs + zs =~= xs);
    } else {
        lemma_written_blocks(contents, cursor, xs, zs.drop_last());
        assert((xs + zs).drop_last() =~= xs + zs.drop_last());
        assert((next + zs.len() - 1) % len == (cursor + (xs + zs).len() - 1) % len) by {
            lemma_add_mod_noop(cursor + xs.len(), zs.len() - 1, len);
            lemma_add_mod_noop(next, zs.len() - 1, len);
            lemma_mod_twice(cursor + xs.len(), len);
        }
    }
}

/// A delay line of `L` frames is an exact delay: the output at place `n` is
/// the input at place `n - L`, and for `n < L` the frame that the buffer held
/// `n` places on from the cursor.
pub proof fn lemma_delay<T: Frame>(del: &Del<T>, xs: Seq<T>, n: int)
    requires
        del.inv(),
        0 <= n < xs.len(),
    ensures
        response(del, xs)[n] == (if n >= del.contents().len() {
            xs[n - del.contents().len()]
        } else {
            del.contents()[(del.cursor() + n) % (del.contents().len() as int)]
        }),
{
    let len = del.contents().len() as int;
    if n < len {
        if del.cursor() + n < len {
            lemma_small_mod((del.cursor() + n) as nat, len as nat);
        } else {
            lemma_mod_multiples_vanish(
                -1,
                del.cursor() + n,
                len,
            );
            lemma_small_mod(
                (del.cursor() + n - len) as nat,
                len as nat,
            );
        }
    }
}

/// A delay line on a buffer of default frames puts out zero frames until the
/// first input has gone through.
pub proof fn lemma_delay_from_zero<T: Frame>(del: &Del<T>, xs: Seq<T>, n: int)
    requires
        del.inv(),
        forall|i: int|
            0 <= i < del.contents().len() ==> call_ensures(
                T::default,
                (),
                #[trigger] del.contents()[i],
            ),
        0 <= n < xs.len(),
    ensures
        response(del, xs)[n] == (if n >= del.contents().len() {
            xs[n - del.contents().len()]
        } else {
            T::zero_spec()
        }),
{
    let len = del.contents().len() as int;
    lemma_delay(del, xs, n);
    if n < len {
        let at = (del.cursor() + n) % len;
        lemma_mod_bound(del.cursor() + n, len);
        T::lemma_default(del.contents()[at]);
    }
}

/// A delay line of one frame is a unit delay: for every input it puts out
/// what a unit delay that holds the same frame puts out, and holds afterwards
/// what the unit delay holds.
pub proof fn lemma_del_one_is_single<T: Frame>(del: &Del<T>, single: &Single<T>, xs: Seq<T>)
    requires
        del.inv(),
        del.contents() == seq![single.held()],
    ensures
        response(del, xs) == response(single, xs),
        written(del.contents(), del.cursor(), xs) == seq![(if xs.len() == 0 {
            single.held()
        } else {
            xs.last()
        })],
    decreases xs.len(),
{
    assert(response(del, xs) =~= response(single, xs));
    if xs.len() > 0 {
        lemma_del_one_is_single(del, single, xs.drop_last());
        assert(written(del.contents(), del.cursor(), xs) =~= seq![xs.last()]);
    }
}

/// The frame that a feedback loop feeds back once its chain has taken in
/// `us`: the last output of the chain, or `held` where it has taken nothing.
pub open spec fn back<T, C: Node<T>>(held: T, chain: &C, us: Seq<T>) -> T {
    if us.len() == 0 {
        held
    } else {
        chain.out(us.drop_last(), us.last())
    }
}

/// The frames that go into the chain of a feedback loop for the inputs `xs`:
/// each input plus `gain` times the frame fed back at that moment.
pub open spec fn fed<T: Frame, C: Node<T>>(
    gain: T::Sample,
    held: T,
    chain: &C,
    xs: Seq<T>,
) -> Seq<T>
    decreases xs.len(),
{
    if xs.len() == 0 {
        Seq::empty()
    } else {
        let us = fed(gain, held, chain, xs.drop_last());
        us.push(xs.last().add_spec(back(held, chain, us).mul_spec(gain)))
    }
}

/// One frame goes into the chain for each input.
pub proof fn lemma_fed_len<T: Frame, C: Node<T>>(gain: T::Sample, held: T, chain: &C, xs: Seq<T>)
    ensures
        fed(gain, held, chain, xs).len() == xs.len(),
    decreases xs.len(),
{
    if xs.len() > 0 {
        lemma_fed_len(gain, held, chain, xs.drop_last());
    }
}

/// A loop that goes on after `xs`, with the frame then fed back and the chain
/// as it then is, is fed for `zs` what the loop from the start is fed for
/// `xs + zs` after `xs`.
pub proof fn lemma_fed_blocks<T: Frame, C: Node<T>>(
    gain: T::Sample,
    held: T,
    chain: &C,
    later: &C,
    xs: Seq<T>,
    zs: Seq<T>,
)
    requires
        follows(later, chain, fed(gain, held, chain, xs)),
    ensures
        fed(gain, held, chain, xs + zs) == fed(gain, held, chain, xs) + fed(
            gain,
            back(held, chain, fed(gain, held, chain, xs)),
            later,
            zs,
        ),
    decreases zs.len(),
{
    let us = fed(gain, held, chain, xs);
    let then = back(held, chain, us);
    if zs.len() == 0 {
        assert(xs + zs =~= xs);
        assert(us + fed(gain, then, later, zs) =~= us);
    } else {
        let front = zs.drop_last();
        lemma_fed_blocks(gain, held, chain, later, xs, front);
        lemma_fed_len(gain, then, later, front);
        assert((xs + zs).drop_last() =~= xs + front);
        let ws = fed(gain, then, later, front);
        if ws.len() > 0 {
            assert((us + ws).drop_last() =~= us + ws.drop_last());
            assert(later.out(ws.drop_last(), ws.last()) == chain.out(
                us + ws.drop_last(),
                ws.last(),
            ));
        } else {
            assert(us + ws =~= us);
        }
        assert(back(held, chain, us + ws) == back(then, later, ws));
        assert(fed(gain, held, chain, xs + zs) =~= us + fed(gain, then, later, zs));
    }
}

/// Without gain nothing is fed back: the inputs go into the chain as they are.
pub proof fn lemma_fed_no_gain<T: Frame, C: Node<T>>(held: T, chain: &C, xs: Seq<T>)
    ensures
        fed(T::Sample::zero_spec(), held, chain, xs) == xs,
    decreases xs.len(),
{
    let gain = T::Sample::zero_spec();
    if xs.len() > 0 {
        lemma_fed_no_gain(held, chain, xs.drop_last());
        lemma_mul_zero(back(held, chain, xs.drop_last()));
        lemma_add_zero(xs.last());
        assert(xs.drop_last().push(xs.last()) =~= xs);
    }
    assert(fed(gain, held, chain, xs) =~= xs);
}

/// A feedback loop around a chain of nodes: each input goes into the chain
/// together with `gain` times the frame that the chain put out one input
/// before.
#[verifier::reject_recursive_types(T)]
pub struct Fbk<'a, T: Frame> {
    feedback: T::Sample,
    ss_del_frame: T,
    bus: Bus<'a, T>,
}

impl<'a, T> Fbk<'a, T> where T: Frame {
    /// The gain of the loop.
    pub closed spec fn gain(&self) -> T::Sample {
        self.feedback
    }

    /// The frame that is fed back next: the last output of the chain.
    pub closed spec fn held(&self) -> T {
        self.ss_del_frame
    }

    /// The chain inside the loop.
    pub closed spec fn chain(&self) -> Bus<'a, T> {
        self.bus
    }

    /// A loop with no gain around the empty chain, with the zero frame to
    /// feed back.
    #[must_use]
    pub fn new() -> (r: Self)
        ensures
            r.gain() == T::Sample::zero_spec(),
            r.held() == T::zero_spec(),
            r.chain().nodes().len() == 0,
    {
        Self { feedback: zero(), ss_del_frame: zero(), bus: Bus::new() }
    }

    /// The chain inside the loop.
    pub fn bus(&self) -> (bus: &Bus<'a, T>)
        ensures
            *bus == self.chain(),
    {
        &self.bus
    }

    /// The chain inside the loop, to be changed in place. The gain and the
    /// frame to feed back stay as they are, whatever becomes of the chain.
    pub fn bus_mut(&mut self) -> (bus: &mut Bus<'a, T>)
        ensures
            *bus == old(self).chain(),
            final(self).chain() == *final(bus),
            final(self).gain() == old(self).gain(),
            final(self).held() == old(self).held(),
    {
        &mut self.bus
    }

    /// Takes the loop apart and gives its chain.
    pub fn into_bus(self) -> (bus: Bus<'a, T>)
        ensures
            bus == self.chain(),
    {
        self.bus
    }

    /// A loop as [`Fbk::new`] makes it, with the gain `value`.
    #[must_use]
    pub fn with_feedback(value: T::Sample) -> (r: Self)
        ensures
            r.gain() == value,
            r.held() == T::zero_spec(),
            r.chain().nodes().len() == 0,
    {
        let mut fbk = Self::new();
        *fbk.feedback_mut() = value;
        fbk
    }

    /// The gain of the loop.
    pub fn feedback(&self) -> (gain: &T::Sample)
        ensures
            *gain == self.gain(),
    {
        &self.feedback
    }

    /// The gain of the loop, to be changed in place. The chain and the frame
    /// to feed back stay as they are.
    pub fn feedback_mut(&mut self) -> (gain: &mut T::Sample)
        ensures
            *gain == old(self).gain(),
            final(self).gain() == *final(gain),
            final(self).held() == old(self).held(),
            final(self).chain() == old(self).chain(),
    {
        &mut self.feedback
    }
}

impl<'a, T> Default for Fbk<'a, T> where T: Frame {
    /// A loop as [`Fbk::new`] makes it.
    fn default() -> (r: Self)
        ensures
            r.gain() == T::Sample::zero_spec(),
            r.held() == T::zero_spec(),
            r.chain().nodes().len() == 0,
    {
        Self::new()
    }
}

impl<'a, T> Node<T> for Fbk<'a, T> where T: Frame {
    /// The chain is fit to process.
    open spec fn inv(&self) -> bool {
        self.chain().inv()
    }

    /// What the chain puts out last when the inputs go into it, each with
    /// `gain` times the output before it.
    open spec fn out(&self, past: Seq<T>, x: T) -> T {
        back(
            self.held(),
            &self.chain(),
            fed(self.gain(), self.held(), &self.chain(), past.push(x)),
        )
    }

    /// Runs the loop on each frame in turn. Afterwards the loop holds the last
    /// output to feed back, its gain is as before, and its chain goes on from
    /// where it was after what went into it.
    fn proc(&mut self, frames: &mut [T])
        ensures
            final(self).gain() == old(self).gain(),
            final(self).held() == back(
                old(self).held(),
                &old(self).chain(),
                fed(old(self).gain(), old(self).held(), &old(self).chain(), old(frames)@),
            ),
            follows(
                &final(self).chain(),
                &old(self).chain(),
                fed(old(self).gain(), old(self).held(), &old(self).chain(), old(frames)@),
            ),
    {
        let n = frames.len();
        let ghost xs = frames@;
        let ghost gain = self.gain();
        let ghost held = self.held();
        let ghost chain = self.chain();
        proof {
            assert forall|past: Seq<T>, x: T| #[trigger]
                chain.out(past, x) == chain.out(Seq::<T>::empty() + past, x) by {
                assert(Seq::<T>::empty() + past =~= past);
            }
        }
        for i in 0..n
            invariant
                frames@.len() == n,
                xs == old(frames)@,
                n == xs.len(),
                gain == old(self).gain(),
                held == old(self).held(),
                chain == old(self).chain(),
                self.gain() == gain,
                self.chain().inv(),
                follows(&self.chain(), &chain, fed(gain, held, &chain, xs.take(i as int))),
                self.held() == back(held, &chain, fed(gain, held, &chain, xs.take(i as int))),
                forall|j: int|
                    0 <= j < i ==> #[trigger] frames@[j] == old(self).out(xs.take(j), xs[j]),
                forall|j: int| i <= j < n ==> frames@[j] == xs[j],
        {
            let ghost us = fed(gain, held, &chain, xs.take(i as int));
            let ghost now = self.chain();
            proof {
                T::lemma_channelwise(self.held(), xs[i as int], self.gain());
                T::lemma_channelwise(xs[i as int], self.held().mul_spec(self.gain()), self.gain());
                assert(xs.take(i + 1).drop_last() =~= xs.take(i as int));
                assert(xs.take(i as int).push(xs[i as int]) =~= xs.take(i + 1));
            }
            let mut y = [frames[i] + self.ss_del_frame * self.feedback];
            let ghost u = y@[0];
            assert(y@ =~= seq![u]);
            self.bus.proc(&mut y);
            self.ss_del_frame = y[0];
            frames[i] = y[0];
            proof {
                let next = us.push(u);
                assert(next == fed(gain, held, &chain, xs.take(i + 1)));
                assert(seq![u].take(0) =~= Seq::<T>::empty());
                assert(us + Seq::<T>::empty() =~= us);
                assert(next.drop_last() =~= us);
                assert(follows(&self.chain(), &now, seq![u]));
                lemma_follows_trans(&chain, &now, &self.chain(), us, seq![u]);
                assert(us + seq![u] =~= next);
            }
        }
        proof {
            assert(xs.take(n as int) =~= xs);
            let us = fed(gain, held, &chain, xs);
            assert forall|past: Seq<T>, x: T| #[trigger]
                self.out(past, x) == old(self).out(xs + past, x) by {
                let zs = past.push(x);
                lemma_fed_blocks(gain, held, &chain, &self.chain(), xs, zs);
                lemma_fed_len(gain, self.held(), &self.chain(), zs);
                let ws = fed(gain, self.held(), &self.chain(), zs);
                assert((xs + past).push(x) =~= xs + zs);
                assert((us + ws).drop_last() =~= us + ws.drop_last());
                assert(self.chain().out(ws.drop_last(), ws.last()) == chain.out(
                    us + ws.drop_last(),
                    ws.last(),
                ));
            }
        }
    }
}

/// The loop, frame by frame: the frame fed back is the output of the loop one
/// input before, or the frame held where there was none; the input plus
/// `gain` times that frame goes into the chain, after all that went into it
/// before; and what the chain puts out for it is the output of the loop.
pub proof fn lemma_loop<'a, T: Frame>(fbk: &Fbk<'a, T>, past: Seq<T>, x: T)
    ensures
        back(
            fbk.held(),
            &fbk.chain(),
            fed(fbk.gain(), fbk.held(), &fbk.chain(), past),
        ) == (if past.len() == 0 {
            fbk.held()
        } else {
            fbk.out(past.drop_last(), past.last())
        }),
        fbk.out(past, x) == fbk.chain().out(
            fed(fbk.gain(), fbk.held(), &fbk.chain(), past),
            x.add_spec(
                back(
                    fbk.held(),
                    &fbk.chain(),
                    fed(fbk.gain(), fbk.held(), &fbk.chain(), past),
                ).mul_spec(fbk.gain()),
            ),
        ),
{
    let us = fed(fbk.gain(), fbk.held(), &fbk.chain(), past);
    lemma_fed_len(fbk.gain(), fbk.held(), &fbk.chain(), past);
    assert(past.push(x).drop_last() =~= past);
    assert(us.push(fed(fbk.gain(), fbk.held(), &fbk.chain(), past.push(x)).last()).drop_last()
        =~= us);
    if past.len() > 0 {
        assert(past.drop_last().push(past.last()) =~= past);
    }
}

/// A loop around the empty chain is the recursion
/// `y[n] = x[n] + gain * y[n - 1]`, where `y[-1]` is the frame held.
pub proof fn lemma_recursion<'a, T: Frame>(fbk: &Fbk<'a, T>, past: Seq<T>, x: T)
    requires
        fbk.chain().nodes().len() == 0,
    ensures
        fbk.out(past, x) == x.add_spec(
            (if past.len() == 0 {
                fbk.held()
            } else {
                fbk.out(past.drop_last(), past.last())
            }).mul_spec(fbk.gain()),
        ),
{
    lemma_loop(fbk, past, x);
}

/// With no gain a feedback loop is its chain: it puts out what the chain puts
/// out for the same inputs, whatever frame the loop holds.
pub proof fn lemma_no_gain<'a, T: Frame>(fbk: &Fbk<'a, T>, xs: Seq<T>)
    requires
        fbk.gain() == T::Sample::zero_spec(),
    ensures
        response(fbk, xs) == response(&fbk.chain(), xs),
{
    assert forall|i: int| 0 <= i < xs.len() implies response(fbk, xs)[i] == response(
        &fbk.chain(),
        xs,
    )[i] by {
        let zs = xs.take(i).push(xs[i]);
        lemma_fed_no_gain(fbk.held(), &fbk.chain(), zs);
        assert(zs.drop_last() =~= xs.take(i));
    }
    assert(response(fbk, xs) =~= response(&fbk.chain(), xs));
}

} // verus!
