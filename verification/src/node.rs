//! Nodes: stateful transforms of a stream of frames.

use vstd::prelude::*;

verus! {

/// A node transforms a stream of frames, one block at a time and in place,
/// and keeps between the calls whatever state it needs.
///
/// What a node does is given by [`Node::out`]: the frame it puts out for an
/// input, as a function of the inputs that it has taken before. So each
/// output depends on the inputs up to it and on nothing else, and how the
/// stream is cut into blocks makes no difference (see [`lemma_blocks`]).
pub trait Node<T> {
    /// Whether the node is fit to process.
    spec fn inv(&self) -> bool;

    /// The frame that the node, in the state it is in now, puts out for the
    /// input `x` once it has taken in the frames `past`.
    spec fn out(&self, past: Seq<T>, x: T) -> T;

    /// Replaces each frame by the node's output for it, in order.
    ///
    /// Afterwards the node is in the state that it reaches through these
    /// inputs: it goes on as the node before the call would after them.
    fn proc(&mut self, frames: &mut [T])
        requires
            old(self).inv(),
        ensures
            final(self).inv(),
            final(frames)@.len() == old(frames)@.len(),
            forall|i: int|
                0 <= i < old(frames)@.len() ==> #[trigger] final(frames)@[i] == old(self).out(
                    old(frames)@.take(i),
                    old(frames)@[i],
                ),
            forall|past: Seq<T>, x: T| #[trigger]
                final(self).out(past, x) == old(self).out(old(frames)@ + past, x),
    ;
}

/// The outputs of `node` for the inputs `xs`.
pub open spec fn response<T, N: Node<T> + ?Sized>(node: &N, xs: Seq<T>) -> Seq<T> {
    Seq::new(xs.len(), |i: int| node.out(xs.take(i), xs[i]))
}

/// `after` goes on where `before` is once it has taken in `xs`.
pub open spec fn follows<T, A: Node<T> + ?Sized, B: Node<T> + ?Sized>(
    after: &A,
    before: &B,
    xs: Seq<T>,
) -> bool {
    forall|past: Seq<T>, x: T| #[trigger] after.out(past, x) == before.out(xs + past, x)
}

/// A node puts out one frame for each frame it takes in, and what it puts out
/// for the first frames does not depend on those that come later.
pub proof fn lemma_causal<T, N: Node<T> + ?Sized>(node: &N, xs: Seq<T>, zs: Seq<T>)
    ensures
        response(node, xs).len() == xs.len(),
        response(node, xs + zs).take(xs.len() as int) == response(node, xs),
{
    let whole = response(node, xs + zs).take(xs.len() as int);
    assert forall|i: int| 0 <= i < xs.len() implies whole[i] == response(node, xs)[i] by {
        assert((xs + zs).take(i) =~= xs.take(i));
    }
    assert(whole =~= response(node, xs));
}

/// Processing a stream in two blocks gives what processing it as one block
/// gives: the outputs for `xs + zs` are the outputs for `xs`, and then the
/// outputs for `zs` of the node that has taken in `xs`.
pub proof fn lemma_blocks<T, A: Node<T> + ?Sized, B: Node<T> + ?Sized>(
    before: &B,
    after: &A,
    xs: Seq<T>,
    zs: Seq<T>,
)
    requires
        follows(after, before, xs),
    ensures
        response(before, xs + zs) == response(before, xs) + response(after, zs),
{
    let whole = response(before, xs + zs);
    let parts = response(before, xs) + response(after, zs);
    assert forall|i: int| 0 <= i < whole.len() implies whole[i] == parts[i] by {
        if i < xs.len() {
            assert((xs + zs).take(i) =~= xs.take(i));
        } else {
            let j = i - xs.len();
            assert((xs + zs).take(i) =~= xs + zs.take(j));
            assert(after.out(zs.take(j), zs[j]) == before.out(xs + zs.take(j), zs[j]));
        }
    }
    assert(whole =~= parts);
}

/// Going on is transitive: the node that follows `mid` after `zs`, where `mid`
/// follows `before` after `xs`, follows `before` after `xs + zs`.
pub proof fn lemma_follows_trans<
    T,
    A: Node<T> + ?Sized,
    M: Node<T> + ?Sized,
    B: Node<T> + ?Sized,
>(before: &B, mid: &M, after: &A, xs: Seq<T>, zs: Seq<T>)
    requires
        follows(mid, before, xs),
        follows(after, mid, zs),
    ensures
        follows(after, before, xs + zs),
{
    assert forall|past: Seq<T>, x: T| #[trigger]
        after.out(past, x) == before.out((xs + zs) + past, x) by {
        assert(after.out(past, x) == mid.out(zs + past, x));
        assert(mid.out(zs + past, x) == before.out(xs + (zs + past), x));
        assert(xs + (zs + past) =~= (xs + zs) + past);
    }
}

} // verus!
