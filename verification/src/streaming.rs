//! The streaming interfaces of a hasher: input of any length, then a digest
//! or a reader of output, and a way back to the start.
//!
//! A hasher's view is its abstract state. What `update` and the finalizing
//! methods compute is given by the `spec_*` functions of these traits.

use vstd::prelude::*;
use crate::blocks::concat_all;

verus! {

/// Something that can be put back into the state it was built in.
pub trait Reset: View {
    /// The state that `reset` restores.
    spec fn spec_initial() -> Self::V;

    /// Goes back to the initial state, whatever the state was.
    fn reset(&mut self)
        ensures
            final(self)@ == Self::spec_initial(),
    ;
}

/// A hasher that takes its input piece by piece.
pub trait Update: View {
    /// The state that follows `state` when `data` is taken.
    spec fn spec_update(state: Self::V, data: Seq<u8>) -> Self::V;

    /// Taking `a` and then `b` is taking `a + b`: how the input is cut into
    /// pieces makes no difference.
    proof fn lemma_update_concat(state: Self::V, a: Seq<u8>, b: Seq<u8>)
        ensures
            Self::spec_update(Self::spec_update(state, a), b) == Self::spec_update(state, a + b),
    ;

    /// Takes `data`. Empty input changes nothing.
    fn update(&mut self, data: &[u8])
        ensures
            final(self)@ == Self::spec_update(old(self)@, data@),
            data@.len() == 0 ==> final(self)@ == old(self)@,
    ;
}

/// The state that follows `state` when the pieces of `chunks` are taken, one
/// `update` for each.
pub open spec fn update_chunks<H: Update>(state: H::V, chunks: Seq<Seq<u8>>) -> H::V
    decreases chunks.len(),
{
    if chunks.len() == 0 {
        state
    } else {
        H::spec_update(update_chunks::<H>(state, chunks.drop_last()), chunks.last())
    }
}

/// However the input is cut into pieces, one `update` for each piece leaves
/// the hasher where one `update` with all of the input does.
pub proof fn lemma_update_chunked<H: Update>(start: H::V, chunks: Seq<Seq<u8>>)
    requires
        chunks.len() > 0,
    ensures
        update_chunks::<H>(start, chunks) == H::spec_update(start, concat_all(chunks)),
    decreases chunks.len(),
{
    let front = chunks.drop_last();
    if front.len() == 0 {
        assert(concat_all(front) =~= Seq::<u8>::empty());
        assert(concat_all(chunks) =~= chunks.last());
        assert(update_chunks::<H>(start, front) == start);
    } else {
        lemma_update_chunked::<H>(start, front);
        H::lemma_update_concat(start, concat_all(front), chunks.last());
    }
}

/// A hasher that ends in a digest of `O` bytes.
pub trait FixedOutput<const O: usize>: Update + Reset + Sized {
    /// The digest of what `state` has taken.
    spec fn spec_output(state: Self::V) -> Seq<u8>;

    /// A hasher in its initial state has taken nothing yet.
    proof fn lemma_initial_update_empty()
        ensures
            Self::spec_update(Self::spec_initial(), Seq::empty()) == Self::spec_initial(),
    ;

    /// Writes the digest to `out` and uses the hasher up.
    fn finalize_into(self, out: &mut [u8; O])
        ensures
            final(out)@ == Self::spec_output(self@),
    ;

    /// Writes the digest to `out` and resets the hasher for another message.
    fn finalize_into_reset(&mut self, out: &mut [u8; O])
        ensures
            final(out)@ == Self::spec_output(old(self)@),
            final(self)@ == Self::spec_initial(),
    ;

    /// Returns the digest and uses the hasher up.
    fn finalize_fixed(self) -> (out: [u8; O])
        ensures
            out@ == Self::spec_output(self@),
    {
        let mut out = [0u8; O];
        self.finalize_into(&mut out);
        out
    }

    /// Returns the digest and resets the hasher for another message.
    fn finalize_fixed_reset(&mut self) -> (out: [u8; O])
        ensures
            out@ == Self::spec_output(old(self)@),
            final(self)@ == Self::spec_initial(),
    {
        let mut out = [0u8; O];
        self.finalize_into_reset(&mut out);
        out
    }
}

/// What one read does to a reader: `out` is the front of what `before` had
/// ahead, and `after` has ahead what follows it. Both readers are given by
/// the byte that each has `i` places ahead.
pub open spec fn reads(before: spec_fn(nat) -> u8, after: spec_fn(nat) -> u8, out: Seq<u8>) -> bool {
    &&& forall|i: int| 0 <= i < out.len() ==> #[trigger] out[i] == before(i as nat)
    &&& forall|i: nat| #[trigger] after(i) == before(i + out.len())
}

/// A reader goes on and never starts over: two reads in a row are one read
/// of both lengths.
pub proof fn lemma_reads_continue(
    start: spec_fn(nat) -> u8,
    middle: spec_fn(nat) -> u8,
    end: spec_fn(nat) -> u8,
    first: Seq<u8>,
    second: Seq<u8>,
)
    requires
        reads(start, middle, first),
        reads(middle, end, second),
    ensures
        reads(start, end, first + second),
        forall|i: int|
            0 <= i < second.len() ==> #[trigger] second[i] == start((first.len() + i) as nat),
{
    assert forall|i: int| 0 <= i < second.len() implies #[trigger] second[i] == start(
        (first.len() + i) as nat,
    ) by {
        assert(second[i] == middle(i as nat));
        assert(middle(i as nat) == start(i as nat + first.len()));
    }
    assert forall|i: int| 0 <= i < (first + second).len() implies #[trigger] (first + second)[i]
        == start(i as nat) by {
        if i >= first.len() {
            assert((first + second)[i] == second[i - first.len()]);
        }
    }
    assert forall|i: nat| #[trigger] end(i) == start(i + (first + second).len()) by {
        assert(end(i) == middle(i + second.len()));
        assert(middle(i + second.len()) == start(i + second.len() + first.len()));
    }
}

/// Two readers with the same output ahead read the same bytes, whatever the
/// length, and have the same output ahead afterwards.
pub proof fn lemma_reads_agree(
    one: spec_fn(nat) -> u8,
    other: spec_fn(nat) -> u8,
    one_after: spec_fn(nat) -> u8,
    other_after: spec_fn(nat) -> u8,
    one_out: Seq<u8>,
    other_out: Seq<u8>,
)
    requires
        forall|i: nat| #[trigger] one(i) == other(i),
        reads(one, one_after, one_out),
        reads(other, other_after, other_out),
        one_out.len() == other_out.len(),
    ensures
        one_out == other_out,
        forall|i: nat| #[trigger] one_after(i) == other_after(i),
{
    assert forall|i: int| 0 <= i < one_out.len() implies one_out[i] == other_out[i] by {
        assert(one_out[i] == one(i as nat));
        assert(other_out[i] == other(i as nat));
    }
    assert(one_out =~= other_out);
    assert forall|i: nat| #[trigger] one_after(i) == other_after(i) by {
        assert(one_after(i) == one(i + one_out.len()));
        assert(other_after(i) == other(i + other_out.len()));
    }
}

/// Reads the output of an extendable-output function, front to back.
///
/// A reader never starts over: each read goes on where the one before ended.
pub trait XofReader {
    /// The byte `i` places ahead in the output that is still to be read.
    spec fn spec_peek(&self, i: nat) -> u8;

    /// Fills `buffer` with the next bytes of the output and moves past them.
    fn read(&mut self, buffer: &mut [u8])
        ensures
            final(buffer)@.len() == old(buffer)@.len(),
            reads(
                |i: nat| old(self).spec_peek(i),
                |i: nat| final(self).spec_peek(i),
                final(buffer)@,
            ),
    ;
}

/// Two hashers in one state hand out readers with the same output ahead.
pub proof fn lemma_xof_same_state<H: ExtendableOutput>(
    state: H::V,
    one: H::Reader,
    other: H::Reader,
)
    requires
        forall|i: nat| #[trigger] one.spec_peek(i) == H::spec_xof_output(state, i),
        forall|i: nat| #[trigger] other.spec_peek(i) == H::spec_xof_output(state, i),
    ensures
        forall|i: nat| #[trigger] one.spec_peek(i) == other.spec_peek(i),
{
}

/// A hasher that ends in a reader of output of any length.
pub trait ExtendableOutput: Update + Reset + Sized {
    /// What reads the output.
    type Reader: XofReader;

    /// Byte `i` of the output for what `state` has taken.
    spec fn spec_xof_output(state: Self::V, i: nat) -> u8;

    /// Hands out a reader at the start of the output and uses the hasher up.
    fn finalize_xof(self) -> (reader: Self::Reader)
        ensures
            forall|i: nat| #[trigger] reader.spec_peek(i) == Self::spec_xof_output(self@, i),
    ;

    /// Hands out a reader at the start of the output and resets the hasher for
    /// another message. The reader goes on working after the reset.
    fn finalize_xof_reset(&mut self) -> (reader: Self::Reader)
        ensures
            forall|i: nat| #[trigger] reader.spec_peek(i) == Self::spec_xof_output(old(self)@, i),
            final(self)@ == Self::spec_initial(),
    ;
}

} // verus!
