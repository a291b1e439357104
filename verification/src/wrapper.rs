//! The buffering adapter: a block core and a partial-block buffer that
//! together make a hasher for input of any length.

use vstd::prelude::*;
use crate::blocks::{
    concat_all,
    lemma_block_edges,
    lemma_remainder_len,
    lemma_short_input,
    lemma_split_concat,
    remainder,
    whole_blocks,
};
use crate::buffer::PartialBlock;
use crate::core_api::{
    absorb_blocks,
    lemma_absorb_blocks_concat,
    lemma_absorb_blocks_few,
    ExtendableOutputCore,
    FixedOutputCore,
    UpdateCore,
};
use crate::digest::{clone_keeps_state, default_is_initial};
use crate::streaming::{
    lemma_update_chunked,
    update_chunks,
    ExtendableOutput,
    FixedOutput,
    Reset,
    Update,
};

verus! {

/// `std::io::Error`, declared as an opaque type: the byte-sink methods name it
/// in their results and never make one.
#[verifier::external_type_specification]
#[verifier::external_body]
pub struct ExIoError(std::io::Error);

/// The abstract state of a [`CoreWrapper`]: the state of its core, which has
/// taken every whole block of the input so far, and the bytes behind the last
/// whole block, which wait in the buffer.
pub struct BufferedState<S> {
    pub core: S,
    pub pending: Seq<u8>,
}

/// The state that follows `state` when `data` is taken: the core takes every
/// whole block of the pending bytes followed by `data`, and the remainder
/// stays pending.
pub open spec fn absorb<D: UpdateCore<B>, const B: usize>(
    state: BufferedState<D::V>,
    data: Seq<u8>,
) -> BufferedState<D::V> {
    let all = state.pending + data;
    BufferedState {
        core: absorb_blocks::<D, B>(state.core, whole_blocks(all, B as nat)),
        pending: remainder(all, B as nat),
    }
}

/// Feeding `a` and then `b` leaves the adapter where feeding `a + b` does.
pub proof fn lemma_absorb_concat<D: UpdateCore<B>, const B: usize>(
    state: BufferedState<D::V>,
    a: Seq<u8>,
    b: Seq<u8>,
)
    ensures
        absorb::<D, B>(absorb::<D, B>(state, a), b) == absorb::<D, B>(state, a + b),
{
    D::lemma_block_size();
    let size = B as nat;
    let first = state.pending + a;
    assert(state.pending + (a + b) =~= first + b);
    lemma_split_concat(first, b, size);
    lemma_absorb_blocks_concat::<D, B>(
        state.core,
        whole_blocks(first, size),
        whole_blocks(remainder(first, size) + b, size),
    );
}

/// At a block's edge nothing is dropped and nothing is taken twice. From an
/// empty buffer, input of exactly one block goes to the core and leaves the
/// buffer empty; one byte less all stays in the buffer; one byte more sends
/// the first block to the core and keeps the last byte.
pub proof fn lemma_absorb_at_edges<D: UpdateCore<B>, const B: usize>(core: D::V, data: Seq<u8>)
    ensures
        data.len() == B ==> absorb::<D, B>(
            BufferedState { core, pending: Seq::empty() },
            data,
        ) == (BufferedState { core: D::spec_update_block(core, data), pending: Seq::empty() }),
        data.len() + 1 == B ==> absorb::<D, B>(
            BufferedState { core, pending: Seq::empty() },
            data,
        ) == (BufferedState { core, pending: data }),
        data.len() == B + 1 && B > 1 ==> absorb::<D, B>(
            BufferedState { core, pending: Seq::empty() },
            data,
        ) == (BufferedState {
            core: D::spec_update_block(core, data.subrange(0, B as int)),
            pending: seq![data[B as int]],
        }),
{
    D::lemma_block_size();
    assert(Seq::<u8>::empty() + data =~= data);
    lemma_block_edges(data, B as nat);
    lemma_absorb_blocks_few::<D, B>(core, data);
    lemma_absorb_blocks_few::<D, B>(core, data.subrange(0, B as int));
}

/// Wraps a block core and makes a hasher of it: it buffers the input, hands
/// the core whole blocks only, and offers the streaming interfaces.
///
/// Finalizing leaves a core in no particular state. The methods that take the
/// hasher by value drop it with the core; those that take it by reference
/// reset core and buffer before they return, so a hasher that can still be
/// used is always clean: it stands where the input since the last reset puts
/// it.
pub struct CoreWrapper<D: UpdateCore<B>, const B: usize> {
    core: D,
    buffer: PartialBlock<B>,
}

impl<D: UpdateCore<B>, const B: usize> View for CoreWrapper<D, B> {
    type V = BufferedState<D::V>;

    closed spec fn view(&self) -> BufferedState<D::V> {
        BufferedState { core: self.core@, pending: self.buffer@ }
    }
}

impl<D: UpdateCore<B>, const B: usize> CoreWrapper<D, B> {
    /// The core inside.
    pub closed spec fn spec_core(&self) -> D {
        self.core
    }

    /// The view shows the core by its view.
    pub proof fn lemma_view_core(&self)
        ensures
            self@.core == self.spec_core()@,
    {
    }

    /// Takes `buf` as `update` does and reports all of it as written. It
    /// never fails.
    pub fn write(&mut self, buf: &[u8]) -> (written: Result<usize, std::io::Error>)
        ensures
            written matches Ok(n) && n == buf@.len(),
            final(self)@ == absorb::<D, B>(old(self)@, buf@),
            final(self)@.pending.len() < B,
            buf@.len() == 0 ==> final(self)@ == old(self)@,
    {
        Update::update(self, buf);
        Ok(buf.len())
    }

    /// Does nothing, as nothing is held back from the hasher. It never fails.
    pub fn flush(&mut self) -> (flushed: Result<(), std::io::Error>)
        ensures
            flushed is Ok,
            *final(self) == *old(self),
    {
        Ok(())
    }
}

/// The adapter always stands where the message so far puts it: after any
/// number of updates from the initial state, the core has taken every whole
/// block of the pieces laid end to end, and what is pending is the remainder,
/// less than a block.
pub proof fn lemma_state_after_message<D: UpdateCore<B> + Reset, const B: usize>(
    chunks: Seq<Seq<u8>>,
)
    ensures
        update_chunks::<CoreWrapper<D, B>>(CoreWrapper::<D, B>::spec_initial(), chunks) == (
        BufferedState {
            core: absorb_blocks::<D, B>(
                D::spec_initial(),
                whole_blocks(concat_all(chunks), B as nat),
            ),
            pending: remainder(concat_all(chunks), B as nat),
        }),
        remainder(concat_all(chunks), B as nat).len() < B,
{
    D::lemma_block_size();
    let message = concat_all(chunks);
    lemma_remainder_len(message, B as nat);
    assert(Seq::<u8>::empty() + message =~= message);
    if chunks.len() == 0 {
        lemma_short_input(message, B as nat);
        lemma_absorb_blocks_few::<D, B>(D::spec_initial(), Seq::empty());
    } else {
        lemma_update_chunked::<CoreWrapper<D, B>>(CoreWrapper::<D, B>::spec_initial(), chunks);
    }
}

/// The digest of `message` under core `D`: from its initial state the core
/// takes every whole block of the message, and finalizes on the remainder.
pub open spec fn message_digest<
    D: FixedOutputCore<B, O> + Reset,
    const B: usize,
    const O: usize,
>(message: Seq<u8>) -> Seq<u8> {
    D::spec_finalize_fixed(
        absorb_blocks::<D, B>(D::spec_initial(), whole_blocks(message, B as nat)),
        remainder(message, B as nat),
    )
}

/// The digest is that of the message and of nothing else: however the message
/// is cut into pieces for `update`, a hasher that starts in its initial state
/// ends with `message_digest` of the pieces laid end to end.
pub proof fn lemma_message_digest<
    D: FixedOutputCore<B, O> + Reset,
    const B: usize,
    const O: usize,
>(chunks: Seq<Seq<u8>>)
    ensures
        CoreWrapper::<D, B>::spec_output(
            update_chunks::<CoreWrapper<D, B>>(CoreWrapper::<D, B>::spec_initial(), chunks),
        ) == message_digest::<D, B, O>(concat_all(chunks)),
{
    lemma_state_after_message::<D, B>(chunks);
}

/// Where `Default` builds the core in its initial state, it builds the
/// adapter in its initial state.
pub proof fn lemma_default_is_initial<D: UpdateCore<B> + Reset + Default, const B: usize>()
    requires
        default_is_initial::<D>(),
    ensures
        default_is_initial::<CoreWrapper<D, B>>(),
{
    assert forall|fresh: CoreWrapper<D, B>| #[trigger]
        call_ensures(CoreWrapper::<D, B>::default, (), fresh) implies fresh@ == CoreWrapper::<
        D,
        B,
    >::spec_initial() by {
        fresh.lemma_view_core();
        assert(call_ensures(D::default, (), fresh.spec_core()));
    }
}

/// Where cloning keeps the state of the core, it keeps the state of the
/// adapter.
pub proof fn lemma_clone_keeps_state<D: UpdateCore<B> + Clone, const B: usize>()
    requires
        clone_keeps_state::<D>(),
    ensures
        clone_keeps_state::<CoreWrapper<D, B>>(),
{
    assert forall|wrapper: CoreWrapper<D, B>, copy: CoreWrapper<D, B>| #[trigger]
        cloned(wrapper, copy) implies copy@ == wrapper@ by {
        wrapper.lemma_view_core();
        copy.lemma_view_core();
        if wrapper != copy {
            assert(cloned(wrapper.spec_core(), copy.spec_core()));
        }
    }
}

impl<D: UpdateCore<B> + Default, const B: usize> Default for CoreWrapper<D, B> {
    /// A freshly built core and an empty buffer.
    fn default() -> (wrapper: Self)
        ensures
            call_ensures(D::default, (), wrapper.spec_core()),
            wrapper@.core == wrapper.spec_core()@,
            wrapper@.pending == Seq::<u8>::empty(),
    {
        CoreWrapper { core: D::default(), buffer: PartialBlock::new() }
    }
}

impl<D: UpdateCore<B> + Clone, const B: usize> Clone for CoreWrapper<D, B> {
    /// A clone of the core and a copy of the buffer.
    fn clone(&self) -> (copy: Self)
        ensures
            cloned(self.spec_core(), copy.spec_core()),
            copy@.core == copy.spec_core()@,
            copy@.pending == self@.pending,
    {
        CoreWrapper { core: self.core.clone(), buffer: self.buffer.clone() }
    }
}

impl<D: Reset + UpdateCore<B>, const B: usize> Reset for CoreWrapper<D, B> {
    open spec fn spec_initial() -> BufferedState<D::V> {
        BufferedState { core: D::spec_initial(), pending: Seq::empty() }
    }

    fn reset(&mut self) {
        self.core.reset();
        self.buffer.reset();
    }
}

impl<D: UpdateCore<B>, const B: usize> Update for CoreWrapper<D, B> {
    open spec fn spec_update(state: BufferedState<D::V>, data: Seq<u8>) -> BufferedState<D::V> {
        absorb::<D, B>(state, data)
    }

    proof fn lemma_update_concat(state: BufferedState<D::V>, a: Seq<u8>, b: Seq<u8>) {
        lemma_absorb_concat::<D, B>(state, a, b);
    }

    fn update(&mut self, input: &[u8])
        ensures
            final(self)@.pending.len() < B,
    {
        self.buffer.input_blocks(input, &mut self.core);
    }
}

impl<D: FixedOutputCore<B, O> + Reset, const B: usize, const O: usize> FixedOutput<
    O,
> for CoreWrapper<D, B> {
    open spec fn spec_output(state: BufferedState<D::V>) -> Seq<u8> {
        D::spec_finalize_fixed(state.core, state.pending)
    }

    proof fn lemma_initial_update_empty() {
        D::lemma_block_size();
        let start = Self::spec_initial();
        assert(start.pending + Seq::<u8>::empty() =~= Seq::<u8>::empty());
        lemma_short_input(Seq::<u8>::empty(), B as nat);
        lemma_absorb_blocks_few::<D, B>(start.core, Seq::empty());
    }

    fn finalize_into(self, out: &mut [u8; O]) {
        let mut core = self.core;
        let mut buffer = self.buffer;
        core.finalize_fixed_core(&mut buffer, out);
    }

    fn finalize_into_reset(&mut self, out: &mut [u8; O]) {
        self.core.finalize_fixed_core(&mut self.buffer, out);
        self.reset();
    }
}

impl<D: ExtendableOutputCore<B> + Reset, const B: usize> ExtendableOutput for CoreWrapper<D, B> {
    type Reader = D::Reader;

    open spec fn spec_xof_output(state: BufferedState<D::V>, i: nat) -> u8 {
        D::spec_finalize_xof(state.core, state.pending, i)
    }

    fn finalize_xof(self) -> (reader: D::Reader) {
        let mut core = self.core;
        let mut buffer = self.buffer;
        core.finalize_xof_core(&mut buffer)
    }

    fn finalize_xof_reset(&mut self) -> (reader: D::Reader) {
        let reader = self.core.finalize_xof_core(&mut self.buffer);
        self.reset();
        reader
    }
}

} // verus!
