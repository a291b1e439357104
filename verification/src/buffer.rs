//! The partial-block buffer: the bytes that wait for a block to fill up.

use vstd::prelude::*;
use vstd::slice::slice_subrange;
use crate::blocks::{
    lemma_block_edges,
    lemma_remainder_len,
    lemma_short_input,
    lemma_split_concat,
    remainder,
    whole_blocks,
};
use crate::core_api::{
    absorb_blocks,
    block_views,
    lemma_absorb_blocks_concat,
    lemma_absorb_blocks_few,
    UpdateCore,
};

verus! {

/// `<[T]>::as_chunks` of std, taken on trust from its documentation: it gives
/// the slice as whole arrays of `N` items, from the front and in order, and
/// the `len % N` items behind the last whole array. It panics for `N == 0`.
pub assume_specification<T, const N: usize>[ <[T]>::as_chunks::<N> ](slice: &[T]) -> (parts: (
    &[[T; N]],
    &[T],
))
    requires
        N > 0,
    ensures
        parts.0@.len() == slice@.len() / (N as nat),
        forall|i: int|
            0 <= i < parts.0@.len() ==> (#[trigger] parts.0@[i])@ == slice@.subrange(
                i * N,
                (i + 1) * N,
            ),
        parts.1@ == slice@.subrange((slice@.len() / (N as nat)) * N, slice@.len() as int),
;

/// `core::slice::from_ref` of std, taken on trust from its documentation: it
/// gives one item as a slice of length one.
pub assume_specification<T>[ core::slice::from_ref::<T> ](item: &T) -> (slice: &[T])
    ensures
        slice@ == seq![*item],
;

/// Up to one block of bytes that no core has taken yet.
///
/// Its view is the bytes it holds, oldest first. With a block length above
/// zero it always holds less than a block.
pub struct PartialBlock<const B: usize> {
    buffer: [u8; B],
    pos: usize,
}

impl<const B: usize> View for PartialBlock<B> {
    type V = Seq<u8>;

    closed spec fn view(&self) -> Seq<u8> {
        self.buffer@.subrange(0, self.pos as int)
    }
}

impl<const B: usize> PartialBlock<B> {
    #[verifier::type_invariant]
    spec fn well_formed(self) -> bool {
        self.pos <= B && (B > 0 ==> self.pos < B)
    }

    /// Writes `src` over the bytes from index `at` on; what is held stays the
    /// same in number.
    fn store(&mut self, at: usize, src: &[u8])
        requires
            at + src@.len() <= B,
        ensures
            final(self).pos == old(self).pos,
            final(self).buffer@ == old(self).buffer@.subrange(0, at as int) + src@ + old(
                self,
            ).buffer@.subrange(at + src@.len(), B as int),
    {
        proof {
            use_type_invariant(&*self);
        }
        let n = src.len();
        let mut i: usize = 0;
        while i < n
            invariant
                n == src@.len(),
                at + n <= B,
                i <= n,
                self.well_formed(),
                self.pos == old(self).pos,
                self.buffer@ == old(self).buffer@.subrange(0, at as int) + src@.subrange(
                    0,
                    i as int,
                ) + old(self).buffer@.subrange(at + i, B as int),
            decreases n - i,
        {
            self.buffer[at + i] = src[i];
            i = i + 1;
        }
        assert(src@.subrange(0, n as int) =~= src@);
    }

    /// An empty buffer.
    pub fn new() -> (buffer: Self)
        ensures
            buffer@ == Seq::<u8>::empty(),
    {
        PartialBlock { buffer: [0u8; B], pos: 0 }
    }

    /// The block length.
    pub fn size(&self) -> (size: usize)
        ensures
            size == B,
    {
        B
    }

    /// How many bytes are held.
    pub fn position(&self) -> (held: usize)
        ensures
            held == self@.len(),
            held <= B,
            B > 0 ==> held < B,
    {
        proof {
            use_type_invariant(self);
        }
        self.pos
    }

    /// How many bytes are missing to a whole block.
    pub fn remaining(&self) -> (missing: usize)
        ensures
            missing == B - self@.len(),
    {
        proof {
            use_type_invariant(self);
        }
        B - self.pos
    }

    /// The bytes that are held.
    pub fn pending(&self) -> (bytes: &[u8])
        ensures
            bytes@ == self@,
    {
        proof {
            use_type_invariant(self);
        }
        slice_subrange(self.buffer.as_slice(), 0, self.pos)
    }

    /// Forgets the bytes that are held.
    pub fn reset(&mut self)
        ensures
            final(self)@ == Seq::<u8>::empty(),
    {
        proof {
            use_type_invariant(&*self);
        }
        self.pos = 0;
    }

    /// Takes `input` behind the bytes that are held, hands every whole block
    /// of the result to `core`, in order, and holds on to the remainder.
    ///
    /// No byte of `input` is copied but those that complete a held block or
    /// stay behind.
    pub fn input_blocks<D: UpdateCore<B>>(&mut self, input: &[u8], core: &mut D)
        ensures
            final(self)@ == remainder(old(self)@ + input@, B as nat),
            final(core)@ == absorb_blocks::<D, B>(
                old(core)@,
                whole_blocks(old(self)@ + input@, B as nat),
            ),
            final(self)@.len() < B,
            input@.len() == 0 ==> final(self)@ == old(self)@ && final(core)@ == old(core)@,
    {
        proof {
            use_type_invariant(&*self);
            D::lemma_block_size();
            lemma_remainder_len(self@ + input@, B as nat);
            lemma_absorb_blocks_few::<D, B>(core@, Seq::empty());
        }
        let ghost held = self@;
        let ghost all = self@ + input@;
        let missing = B - self.pos;
        if input.len() < missing {
            // No block fills up: everything is held.
            self.store(self.pos, input);
            self.pos = self.pos + input.len();
            proof {
                assert(self@ =~= all);
                lemma_short_input(all, B as nat);
            }
            return;
        }
        let mut rest = input;
        let ghost mut taken: Seq<Seq<u8>> = Seq::empty();
        if self.pos != 0 {
            // The front of the input completes the held block.
            let (head, tail) = input.split_at(missing);
            self.store(self.pos, head);
            self.pos = 0;
            core.update_blocks(core::slice::from_ref(&self.buffer));
            rest = tail;
            proof {
                let full = held + head@;
                assert(self.buffer@ =~= full);
                assert(block_views(seq![self.buffer]) =~= seq![full]);
                assert(all =~= full + tail@);
                lemma_block_edges(full, B as nat);
                lemma_split_concat(full, tail@, B as nat);
                taken = seq![full];
            }
        } else {
            proof {
                assert(all =~= input@);
                assert(taken + whole_blocks(rest@, B as nat) =~= whole_blocks(rest@, B as nat));
            }
        }
        // The whole blocks of the rest go to the core as they lie in the input.
        let (blocks, left) = rest.as_chunks::<B>();
        core.update_blocks(blocks);
        proof {
            lemma_remainder_len(rest@, B as nat);
            assert(block_views(blocks@) =~= whole_blocks(rest@, B as nat));
            lemma_absorb_blocks_concat::<D, B>(old(core)@, taken, whole_blocks(rest@, B as nat));
        }
        self.store(0, left);
        self.pos = left.len();
        assert(self@ =~= left@);
    }
}

impl<const B: usize> Default for PartialBlock<B> {
    fn default() -> (buffer: Self)
        ensures
            buffer@ == Seq::<u8>::empty(),
    {
        PartialBlock::new()
    }
}

impl<const B: usize> Clone for PartialBlock<B> {
    fn clone(&self) -> (copy: Self)
        ensures
            copy@ == self@,
    {
        proof {
            use_type_invariant(self);
        }
        PartialBlock { buffer: self.buffer, pos: self.pos }
    }
}

} // verus!
