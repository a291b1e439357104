//! The convenience interface over a hasher with a fixed-size digest.

use vstd::prelude::*;
use crate::blocks::concat_all;
use crate::streaming::{lemma_update_chunked, update_chunks, FixedOutput, Reset, Update};

verus! {

/// Whether `Default` builds an `H` in the state that `reset` restores.
pub open spec fn default_is_initial<H: Default + Reset>() -> bool {
    forall|fresh: H| #[trigger] call_ensures(H::default, (), fresh) ==> fresh@ == H::spec_initial()
}

/// Whether a clone of an `H` is in the state of the hasher it was made of.
pub open spec fn clone_keeps_state<H: Clone + View>() -> bool {
    forall|hasher: H, copy: H| #[trigger] cloned(hasher, copy) ==> copy@ == hasher@
}

/// A message fed in two pieces has the digest of the message fed at once,
/// from whatever state the hasher starts.
pub proof fn lemma_digest_incremental<H: FixedOutput<O>, const O: usize>(
    start: H::V,
    a: Seq<u8>,
    b: Seq<u8>,
)
    ensures
        H::spec_output(H::spec_update(H::spec_update(start, a), b)) == H::spec_output(
            H::spec_update(start, a + b),
        ),
{
    H::lemma_update_concat(start, a, b);
}

/// However a message is cut into pieces, one `update` for each piece leaves
/// the hasher where one `update` with the whole message does, and so gives
/// the same digest. With no piece at all this holds of a hasher in its
/// initial state.
pub proof fn lemma_digest_chunked<H: FixedOutput<O>, const O: usize>(
    start: H::V,
    chunks: Seq<Seq<u8>>,
)
    requires
        chunks.len() > 0 || start == H::spec_initial(),
    ensures
        update_chunks::<H>(start, chunks) == H::spec_update(start, concat_all(chunks)),
        H::spec_output(update_chunks::<H>(start, chunks)) == H::spec_output(
            H::spec_update(start, concat_all(chunks)),
        ),
{
    if chunks.len() == 0 {
        H::lemma_initial_update_empty();
    } else {
        lemma_update_chunked::<H>(start, chunks);
    }
}

/// The digest of `a + b` in one call is the digest of a new hasher that was
/// fed `a` and then `b`.
pub proof fn lemma_digest_one_call<H: Digest<O>, const O: usize>(
    fresh: H,
    hasher: H,
    a: Seq<u8>,
    b: Seq<u8>,
)
    requires
        default_is_initial::<H>(),
        call_ensures(<H as Default>::default, (), fresh),
        call_ensures(<H as Default>::default, (), hasher),
    ensures
        H::spec_output(H::spec_update(fresh@, a + b)) == H::spec_output(
            H::spec_update(H::spec_update(hasher@, a), b),
        ),
{
    H::lemma_update_concat(hasher@, a, b);
}

/// The digest of the empty message is that of a hasher that was built and
/// finalized at once, and it is one value: the digest of the initial state.
pub proof fn lemma_digest_empty<H: Digest<O>, const O: usize>(fresh: H, hasher: H)
    requires
        default_is_initial::<H>(),
        call_ensures(<H as Default>::default, (), fresh),
        call_ensures(<H as Default>::default, (), hasher),
    ensures
        H::spec_output(H::spec_update(fresh@, Seq::empty())) == H::spec_output(hasher@),
        H::spec_output(hasher@) == H::spec_output(H::spec_initial()),
{
    H::lemma_initial_update_empty();
}

/// Where cloning keeps the state, the digest that `finalize_reset` takes from
/// a clone is the digest of the hasher itself.
pub proof fn lemma_digest_of_clone<H: Digest<O>, const O: usize>(hasher: H, copy: H)
    requires
        clone_keeps_state::<H>(),
        cloned(hasher, copy),
    ensures
        H::spec_output(copy@) == H::spec_output(hasher@),
{
}

/// A hasher that was reset gives, for every message, the digest that a newly
/// built one gives.
pub proof fn lemma_reset_is_fresh<H: Digest<O>, const O: usize>(fresh: H, data: Seq<u8>)
    requires
        default_is_initial::<H>(),
        call_ensures(<H as Default>::default, (), fresh),
    ensures
        H::spec_output(H::spec_update(H::spec_initial(), data)) == H::spec_output(
            H::spec_update(fresh@, data),
        ),
{
}

/// The common interface of hash functions with a digest of `O` bytes: the
/// streaming interfaces put together, and a one-call form.
///
/// Every hasher that can be built by `Default`, cloned, fed, finalized and
/// reset has it.
pub trait Digest<const O: usize>: FixedOutput<O> + Clone + Default {
    /// A new hasher, as `Default` builds it.
    fn new() -> (hasher: Self)
        ensures
            call_ensures(<Self as Default>::default, (), hasher),
    ;

    /// Takes `data`. May be called any number of times; empty input changes
    /// nothing.
    fn update(&mut self, data: &[u8])
        ensures
            final(self)@ == Self::spec_update(old(self)@, data@),
            data@.len() == 0 ==> final(self)@ == old(self)@,
    ;

    /// Takes `data` and hands the hasher back, for calls in a chain.
    fn chain(self, data: &[u8]) -> (hasher: Self)
        ensures
            hasher@ == Self::spec_update(self@, data@),
            data@.len() == 0 ==> hasher@ == self@,
    ;

    /// Returns the digest and uses the hasher up.
    fn finalize(self) -> (out: [u8; O])
        ensures
            out@ == Self::spec_output(self@),
    ;

    /// Returns the digest and resets the hasher for another message.
    ///
    /// The digest is taken from a clone, so it is that of the present state
    /// wherever cloning keeps the state.
    fn finalize_reset(&mut self) -> (out: [u8; O])
        ensures
            exists|copy: Self| cloned(*old(self), copy) && out@ == Self::spec_output(copy@),
            final(self)@ == Self::spec_initial(),
    ;

    /// Goes back to the initial state.
    fn reset(&mut self)
        ensures
            final(self)@ == Self::spec_initial(),
    ;

    /// The number of bytes in a digest.
    fn output_size() -> (size: usize)
        ensures
            size == O,
    ;

    /// The digest of `data`: a new hasher takes all of it and is finalized.
    /// For empty `data` this is the digest of the new hasher as it was built.
    fn digest(data: &[u8]) -> (out: [u8; O])
        ensures
            exists|fresh: Self|
                {
                    &&& call_ensures(<Self as Default>::default, (), fresh)
                    &&& out@ == Self::spec_output(Self::spec_update(fresh@, data@))
                    &&& data@.len() == 0 ==> out@ == Self::spec_output(fresh@)
                },
    ;
}

impl<D: Update + FixedOutput<O> + Reset + Clone + Default, const O: usize> Digest<O> for D {
    fn new() -> (hasher: Self) {
        Self::default()
    }

    fn update(&mut self, data: &[u8]) {
        Update::update(self, data);
    }

    fn chain(self, data: &[u8]) -> (hasher: Self) {
        let mut hasher = self;
        Update::update(&mut hasher, data);
        hasher
    }

    fn finalize(self) -> (out: [u8; O]) {
        self.finalize_fixed()
    }

    fn finalize_reset(&mut self) -> (out: [u8; O]) {
        let copy = self.clone();
        assert(cloned(*self, copy));
        let res = copy.finalize_fixed();
        Reset::reset(self);
        res
    }

    fn reset(&mut self) {
        Reset::reset(self)
    }

    fn output_size() -> (size: usize) {
        O
    }

    fn digest(data: &[u8]) -> (out: [u8; O]) {
        let mut hasher = Self::default();
        let ghost fresh = hasher;
        Update::update(&mut hasher, data);
        let out = hasher.finalize_fixed();
        assert(call_ensures(<Self as Default>::default, (), fresh) && out@ == Self::spec_output(
            Self::spec_update(fresh@, data@),
        ));
        out
    }
}

} // verus!
