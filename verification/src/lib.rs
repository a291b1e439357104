//! Streaming hash interfaces over block cores.
//!
//! A hash algorithm is written as a *block core*: compression state that
//! takes whole blocks of a fixed length ([`UpdateCore`]) and ends in a digest
//! ([`FixedOutputCore`]) or in a reader of output of any length
//! ([`ExtendableOutputCore`]). [`CoreWrapper`] makes a hasher of a core: it
//! buffers input of any length in a [`PartialBlock`], hands the core whole
//! blocks only, and implements [`Update`], [`FixedOutput`],
//! [`ExtendableOutput`] and [`Reset`]. [`Digest`] is the convenience interface
//! that every such hasher has.
//!
//! Block and digest lengths are const parameters, so a core can only ever be
//! handed arrays of its own block length.

pub mod blocks;
pub mod buffer;
pub mod core_api;
pub mod digest;
pub mod streaming;
pub mod wrapper;

pub use crate::buffer::PartialBlock;
pub use crate::core_api::{ExtendableOutputCore, FixedOutputCore, UpdateCore};
pub use crate::digest::Digest;
pub use crate::streaming::{ExtendableOutput, FixedOutput, Reset, Update, XofReader};
pub use crate::wrapper::{BufferedState, CoreWrapper};
