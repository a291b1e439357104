//! What a hash algorithm has to provide: a block core.
//!
//! A core holds the compression state of one algorithm and takes its input in
//! whole blocks of `B` bytes. Wrapped in a [`CoreWrapper`](crate::CoreWrapper)
//! it becomes a hasher that takes input of any length.
//!
//! A core's view is its abstract state. The algorithm itself is given by the
//! `spec_*` functions of these traits, and the executable methods promise to
//! compute what those say.

use vstd::prelude::*;
use crate::buffer::PartialBlock;
use crate::streaming::XofReader;

verus! {

/// The blocks of a slice of blocks, each as a sequence of bytes.
pub open spec fn block_views<const B: usize>(blocks: Seq<[u8; B]>) -> Seq<Seq<u8>> {
    Seq::new(blocks.len(), |i: int| blocks[i]@)
}

/// What `step` makes of `state` when it is applied to `blocks`, one after the
/// other.
pub open spec fn fold_blocks<S>(
    step: spec_fn(S, Seq<u8>) -> S,
    state: S,
    blocks: Seq<Seq<u8>>,
) -> S
    decreases blocks.len(),
{
    if blocks.len() == 0 {
        state
    } else {
        step(fold_blocks(step, state, blocks.drop_last()), blocks.last())
    }
}

/// Applying `step` to `first` and then to `second` is applying it to
/// `first + second`.
pub proof fn lemma_fold_blocks_concat<S>(
    step: spec_fn(S, Seq<u8>) -> S,
    state: S,
    first: Seq<Seq<u8>>,
    second: Seq<Seq<u8>>,
)
    ensures
        fold_blocks(step, fold_blocks(step, state, first), second) == fold_blocks(
            step,
            state,
            first + second,
        ),
    decreases second.len(),
{
    if second.len() == 0 {
        assert(first + second =~= first);
    } else {
        lemma_fold_blocks_concat(step, state, first, second.drop_last());
        assert((first + second).drop_last() =~= first + second.drop_last());
        assert((first + second).last() == second.last());
    }
}

/// The state of a core after it has taken `blocks`, one after the other.
pub open spec fn absorb_blocks<D: UpdateCore<B>, const B: usize>(
    state: D::V,
    blocks: Seq<Seq<u8>>,
) -> D::V {
    fold_blocks(|s: D::V, b: Seq<u8>| D::spec_update_block(s, b), state, blocks)
}

/// Taking `first` and then `second` is taking `first + second`.
pub proof fn lemma_absorb_blocks_concat<D: UpdateCore<B>, const B: usize>(
    state: D::V,
    first: Seq<Seq<u8>>,
    second: Seq<Seq<u8>>,
)
    ensures
        absorb_blocks::<D, B>(absorb_blocks::<D, B>(state, first), second) == absorb_blocks::<D, B>(
            state,
            first + second,
        ),
{
    lemma_fold_blocks_concat(
        |s: D::V, b: Seq<u8>| D::spec_update_block(s, b),
        state,
        first,
        second,
    );
}

/// Taking no block leaves the state, and taking one block is one step.
pub proof fn lemma_absorb_blocks_few<D: UpdateCore<B>, const B: usize>(state: D::V, block: Seq<u8>)
    ensures
        absorb_blocks::<D, B>(state, Seq::empty()) == state,
        absorb_blocks::<D, B>(state, seq![block]) == D::spec_update_block(state, block),
{
    let step = |s: D::V, b: Seq<u8>| D::spec_update_block(s, b);
    assert(seq![block].drop_last() =~= Seq::<Seq<u8>>::empty());
    assert(fold_blocks(step, state, seq![block]) == step(
        fold_blocks(step, state, seq![block].drop_last()),
        seq![block].last(),
    ));
}

/// A core that takes its input in whole blocks of `B` bytes.
pub trait UpdateCore<const B: usize>: View + Sized {
    /// The state that follows `state` when one block is taken.
    spec fn spec_update_block(state: Self::V, block: Seq<u8>) -> Self::V;

    /// A block holds at least one byte: there is no core for `B == 0`.
    proof fn lemma_block_size()
        ensures
            B > 0,
    ;

    /// Takes the blocks in order. An empty slice leaves the state as it is.
    ///
    /// What is promised is [`absorb_blocks`] of the old state and the blocks,
    /// written out here because a trait cannot name a function over itself.
    fn update_blocks(&mut self, blocks: &[[u8; B]])
        ensures
            final(self)@ == fold_blocks(
                |s: Self::V, b: Seq<u8>| Self::spec_update_block(s, b),
                old(self)@,
                block_views(blocks@),
            ),
    ;
}

/// A core that ends in a digest of `O` bytes.
pub trait FixedOutputCore<const B: usize, const O: usize>: UpdateCore<B> {
    /// The digest of a message of which `state` holds the whole blocks and
    /// `tail` is what followed them.
    spec fn spec_finalize_fixed(state: Self::V, tail: Seq<u8>) -> Seq<u8>;

    /// Writes the digest to `out`, from the state and what `buffer` holds.
    /// Padding that completes the last block can be fed through
    /// [`PartialBlock::input_blocks`] like any input.
    ///
    /// The core and the buffer are left in no particular state: reset both
    /// before they take another message.
    fn finalize_fixed_core(&mut self, buffer: &mut PartialBlock<B>, out: &mut [u8; O])
        ensures
            final(out)@ == Self::spec_finalize_fixed(old(self)@, old(buffer)@),
    ;
}

/// A core that ends in a reader of output of any length.
pub trait ExtendableOutputCore<const B: usize>: UpdateCore<B> {
    /// What reads the output.
    type Reader: XofReader;

    /// Byte `i` of the output for a message of which `state` holds the whole
    /// blocks and `tail` is what followed them.
    spec fn spec_finalize_xof(state: Self::V, tail: Seq<u8>, i: nat) -> u8;

    /// Hands out a reader at the start of the output, from the state and what
    /// `buffer` holds.
    ///
    /// The core and the buffer are left in no particular state: reset both
    /// before they take another message.
    fn finalize_xof_core(&mut self, buffer: &mut PartialBlock<B>) -> (reader: Self::Reader)
        ensures
            forall|i: nat| #[trigger]
                reader.spec_peek(i) == Self::spec_finalize_xof(old(self)@, old(buffer)@, i),
    ;
}

} // verus!
