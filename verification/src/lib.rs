//! Building blocks for real-time audio processing: frames of samples with
//! their vector arithmetic, nodes that transform a stream of frames in place,
//! a delay line, and a feedback loop around a chain of nodes.
//!
//! The functions of this library are verified against the contracts they
//! state; the one call that is trusted is marked as such. The sample
//! arithmetic is kept abstract behind [`num::Scalar`], so that what is proved
//! of frames and nodes holds for every sample type that meets the laws stated
//! there.

pub mod bus;
pub mod fbk;
pub mod frame;
pub mod node;
pub mod num;

use vstd::prelude::*;

verus! {

/// Calls `Vec::into_boxed_slice`. Trusted: the boxed slice holds the items of
/// the vector, in the same order.
#[verifier::external_body]
fn into_boxed_slice<T>(items: Vec<T>) -> (boxed: Box<[T]>)
    ensures
        boxed@ == items@,
{
    items.into_boxed_slice()
}

/// A buffer of `size` items on the heap, each of them a default value.
pub fn alloc_buffer<T: Default>(size: usize) -> (buffer: Box<[T]>)
    ensures
        buffer@.len() == size,
        forall|i: int| 0 <= i < size ==> call_ensures(T::default, (), #[trigger] buffer@[i]),
{
    let mut items: Vec<T> = Vec::with_capacity(size);
    for i in 0..size
        invariant
            items@.len() == i,
            forall|j: int| 0 <= j < i ==> call_ensures(T::default, (), #[trigger] items@[j]),
    {
        items.push(T::default());
    }
    into_boxed_slice(items)
}

} // verus!
