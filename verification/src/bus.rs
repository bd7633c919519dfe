//! The bus: a chain of nodes that a stream passes through in order.

use crate::node::{follows, lemma_blocks, lemma_causal, response, Node};
use vstd::prelude::*;

verus! {

/// What comes out of the last of `nodes` when `xs` goes into the first and
/// each node takes what the node before it puts out.
pub open spec fn through<'a, T>(nodes: Seq<Box<dyn Node<T> + 'a>>, xs: Seq<T>) -> Seq<T>
    decreases nodes.len(),
{
    if nodes.len() == 0 {
        xs
    } else {
        response(&*nodes.last(), through(nodes.drop_last(), xs))
    }
}

/// A chain puts out one frame for each frame it takes in, and what it puts
/// out for the first frames does not depend on those that come later.
pub proof fn lemma_through_causal<'a, T>(
    nodes: Seq<Box<dyn Node<T> + 'a>>,
    xs: Seq<T>,
    zs: Seq<T>,
)
    ensures
        through(nodes, xs).len() == xs.len(),
        through(nodes, xs + zs).take(xs.len() as int) == through(nodes, xs),
    decreases nodes.len(),
{
    if nodes.len() == 0 {
        assert((xs + zs).take(xs.len() as int) =~= xs);
    } else {
        let front = nodes.drop_last();
        lemma_through_causal(front, xs, zs);
        lemma_through_causal(front, xs + zs, Seq::empty());
        let fed = through(front, xs);
        let whole = through(front, xs + zs);
        assert(whole =~= fed + whole.skip(xs.len() as int));
        lemma_causal(&*nodes.last(), fed, whole.skip(xs.len() as int));
    }
}

/// The node at place `j` of `after` goes on where the node at place `j` of
/// `before` is once `xs` has gone into the chain `before`.
pub open spec fn follows_at<'a, T>(
    after: Seq<Box<dyn Node<T> + 'a>>,
    before: Seq<Box<dyn Node<T> + 'a>>,
    xs: Seq<T>,
    j: int,
) -> bool {
    follows(&*after[j], &*before[j], through(before.take(j), xs))
}

/// Each node of `after` goes on where the node at its place in `before` is
/// once `xs` has gone into the chain `before`.
pub open spec fn all_follow<'a, T>(
    after: Seq<Box<dyn Node<T> + 'a>>,
    before: Seq<Box<dyn Node<T> + 'a>>,
    xs: Seq<T>,
) -> bool {
    &&& after.len() == before.len()
    &&& forall|j: int| 0 <= j < before.len() ==> #[trigger] follows_at(after, before, xs, j)
}

/// A chain whose nodes have each gone on from where they were after their
/// share of `xs` goes on as the chain was after `xs`.
pub proof fn lemma_through_blocks<'a, T>(
    before: Seq<Box<dyn Node<T> + 'a>>,
    after: Seq<Box<dyn Node<T> + 'a>>,
    xs: Seq<T>,
    zs: Seq<T>,
)
    requires
        all_follow(after, before, xs),
    ensures
        through(before, xs + zs) == through(before, xs) + through(after, zs),
    decreases before.len(),
{
    if before.len() > 0 {
        let last = before.len() - 1;
        let b = before.drop_last();
        let a = after.drop_last();
        assert forall|j: int| 0 <= j < b.len() implies #[trigger] follows_at(a, b, xs, j) by {
            assert(b.take(j) =~= before.take(j));
            assert(follows_at(after, before, xs, j));
        }
        lemma_through_blocks(b, a, xs, zs);
        assert(before.take(last) =~= b);
        assert(follows_at(after, before, xs, last));
        lemma_blocks(&*before.last(), &*after.last(), through(b, xs), through(a, zs));
    }
}

/// An ordered chain of nodes, which is a node itself: a stream goes through
/// the nodes one after the other, from the first that was pushed to the last.
#[verifier::reject_recursive_types(T)]
pub struct Bus<'a, T> {
    nodes: Vec<Box<dyn Node<T> + 'a>>,
}

impl<'a, T> Bus<'a, T> {
    /// The nodes of the chain, in order.
    pub closed spec fn nodes(&self) -> Seq<Box<dyn Node<T> + 'a>> {
        self.nodes@
    }

    /// The empty chain, which gives every frame back as it is.
    #[must_use]
    pub fn new() -> (r: Self)
        ensures
            r.nodes().len() == 0,
    {
        Self { nodes: Vec::new() }
    }

    /// The number of nodes in the chain.
    pub fn len(&self) -> (n: usize)
        ensures
            n == self.nodes().len(),
    {
        self.nodes.len()
    }

    /// Puts `node` at the end of the chain.
    pub fn push(&mut self, node: Box<dyn Node<T> + 'a>)
        ensures
            final(self).nodes() == old(self).nodes().push(node),
    {
        self.nodes.push(node);
    }
}

impl<'a, T> Default for Bus<'a, T> {
    /// The empty chain.
    fn default() -> (r: Self)
        ensures
            r.nodes().len() == 0,
    {
        Self::new()
    }
}

impl<'a, T> Node<T> for Bus<'a, T> {
    /// Every node of the chain is fit to process.
    open spec fn inv(&self) -> bool {
        forall|j: int| 0 <= j < self.nodes().len() ==> (#[trigger] self.nodes()[j]).inv()
    }

    /// The last frame of what comes out of the chain for `past` and then `x`.
    open spec fn out(&self, past: Seq<T>, x: T) -> T {
        through(self.nodes(), past.push(x)).last()
    }

    /// Lets each node of the chain process the block, in order. Every node
    /// then goes on from where it was after what reached it.
    fn proc(&mut self, frames: &mut [T])
        ensures
            final(frames)@ == through(old(self).nodes(), old(frames)@),
            all_follow(final(self).nodes(), old(self).nodes(), old(frames)@),
    {
        let n = self.nodes.len();
        let ghost xs = frames@;
        let ghost before = self.nodes();
        for k in 0..n
            invariant
                xs == old(frames)@,
                before == old(self).nodes(),
                n == before.len(),
                self.nodes().len() == n,
                frames@ == through(before.take(k as int), xs),
                forall|j: int| 0 <= j < n ==> (#[trigger] self.nodes()[j]).inv(),
                forall|j: int| 0 <= j < k ==> #[trigger] follows_at(self.nodes(), before, xs, j),
                forall|j: int| k <= j < n ==> self.nodes()[j] == before[j],
        {
            let ghost fed = frames@;
            let ghost prev = self.nodes();
            self.nodes[k].proc(frames);
            proof {
                assert(before.take(k + 1).drop_last() =~= before.take(k as int));
                assert(frames@ =~= response(&*before[k as int], fed));
                assert forall|j: int| 0 <= j < n implies (#[trigger] self.nodes()[j]).inv() by {
                    if j != k {
                        assert(self.nodes()[j] == prev[j]);
                    }
                }
                assert forall|j: int| 0 <= j < k + 1 implies #[trigger] follows_at(
                    self.nodes(),
                    before,
                    xs,
                    j,
                ) by {
                    if j < k {
                        assert(self.nodes()[j] == prev[j]);
                        assert(follows_at(prev, before, xs, j));
                    }
                }
            }
        }
        proof {
            assert(before.take(n as int) =~= before);
            lemma_through_causal(before, xs, Seq::empty());
            assert forall|i: int| 0 <= i < xs.len() implies #[trigger] frames@[i] == old(self).out(
                xs.take(i),
                xs[i],
            ) by {
                let head = xs.take(i + 1);
                assert(xs.take(i).push(xs[i]) =~= head);
                assert(xs =~= head + xs.skip(i + 1));
                lemma_through_causal(before, head, xs.skip(i + 1));
            }
            assert forall|past: Seq<T>, x: T| #[trigger]
                self.out(past, x) == old(self).out(xs + past, x) by {
                lemma_through_blocks(before, self.nodes(), xs, past.push(x));
                lemma_through_causal(self.nodes(), past.push(x), Seq::empty());
                assert((xs + past).push(x) =~= xs + past.push(x));
            }
        }
    }
}

/// A bus is the composition of its nodes: what it puts out for a stream is
/// what comes out of its last node when the stream goes through them all.
pub proof fn lemma_bus_is_chain<'a, T>(bus: &Bus<'a, T>, xs: Seq<T>)
    ensures
        response(bus, xs) == through(bus.nodes(), xs),
{
    lemma_through_causal(bus.nodes(), xs, Seq::empty());
    assert forall|i: int| 0 <= i < xs.len() implies response(bus, xs)[i] == through(
        bus.nodes(),
        xs,
    )[i] by {
        let head = xs.take(i + 1);
        assert(xs.take(i).push(xs[i]) =~= head);
        assert(xs =~= head + xs.skip(i + 1));
        lemma_through_causal(bus.nodes(), head, xs.skip(i + 1));
    }
    assert(response(bus, xs) =~= through(bus.nodes(), xs));
}

} // verus!
