//! How a byte stream divides into whole blocks and a remainder.
//!
//! Everything here is mathematics on `Seq<u8>`: the adapter's contracts are
//! stated over these functions, and the lemmas below are what makes feeding a
//! message in pieces the same as feeding it at once.

use vstd::prelude::*;
use vstd::arithmetic::div_mod::{
    lemma_div_multiples_vanish_fancy,
    lemma_fundamental_div_mod,
    lemma_mod_bound,
};

verus! {

/// The whole blocks of `size` bytes at the front of `bytes`, in order.
pub open spec fn whole_blocks(bytes: Seq<u8>, size: nat) -> Seq<Seq<u8>> {
    Seq::new(bytes.len() / size, |i: int| bytes.subrange(i * size, (i + 1) * size))
}

/// The bytes of `bytes` behind its last whole block.
pub open spec fn remainder(bytes: Seq<u8>, size: nat) -> Seq<u8> {
    bytes.subrange((bytes.len() / size) * size as int, bytes.len() as int)
}

/// The pieces laid end to end.
pub open spec fn concat_all(pieces: Seq<Seq<u8>>) -> Seq<u8>
    decreases pieces.len(),
{
    if pieces.len() == 0 {
        Seq::empty()
    } else {
        concat_all(pieces.drop_last()) + pieces.last()
    }
}

/// The whole blocks end inside `bytes`, and fewer than `size` bytes follow them.
pub proof fn lemma_remainder_len(bytes: Seq<u8>, size: nat)
    requires
        size > 0,
    ensures
        (bytes.len() / size) * size <= bytes.len(),
        remainder(bytes, size).len() == bytes.len() % size,
        remainder(bytes, size).len() < size,
        whole_blocks(bytes, size).len() == bytes.len() / size,
{
    let n = bytes.len() as int;
    let s = size as int;
    lemma_fundamental_div_mod(n, s);
    lemma_mod_bound(n, s);
    assert((n / s) * s == s * (n / s)) by (nonlinear_arith);
}

/// Every whole block has exactly `size` bytes.
pub proof fn lemma_block_len(bytes: Seq<u8>, size: nat, i: int)
    requires
        size > 0,
        0 <= i < whole_blocks(bytes, size).len(),
    ensures
        whole_blocks(bytes, size)[i].len() == size,
        0 <= i * size,
        (i + 1) * size == i * size + size,
        (i + 1) * size <= bytes.len(),
{
    lemma_remainder_len(bytes, size);
    let q = (bytes.len() / size) as int;
    let s = size as int;
    assert((i + 1) * s <= q * s) by (nonlinear_arith)
        requires
            i + 1 <= q,
            s > 0,
    ;
    assert(0 <= i * s) by (nonlinear_arith)
        requires
            0 <= i,
            s > 0,
    ;
    assert((i + 1) * s == i * s + s) by (nonlinear_arith);
}

/// Input shorter than a block yields no block and is its own remainder.
pub proof fn lemma_short_input(bytes: Seq<u8>, size: nat)
    requires
        bytes.len() < size,
    ensures
        whole_blocks(bytes, size) == Seq::<Seq<u8>>::empty(),
        remainder(bytes, size) == bytes,
{
    lemma_div_multiples_vanish_fancy(0, bytes.len() as int, size as int);
    assert(size as int * 0 + bytes.len() as int == bytes.len() as int);
    assert(bytes.len() as int / size as int == 0);
    assert(whole_blocks(bytes, size) =~= Seq::<Seq<u8>>::empty());
    assert(remainder(bytes, size) =~= bytes);
}

/// Cutting a stream at any point changes neither its blocks nor its
/// remainder: the blocks of `a + b` are those of `a`, then those of what `a`
/// left over followed by `b`.
pub proof fn lemma_split_concat(a: Seq<u8>, b: Seq<u8>, size: nat)
    requires
        size > 0,
    ensures
        whole_blocks(a + b, size) == whole_blocks(a, size) + whole_blocks(
            remainder(a, size) + b,
            size,
        ),
        remainder(a + b, size) == remainder(remainder(a, size) + b, size),
{
    let s = size as int;
    let n = a.len() as int;
    let q = n / s;
    let r = n % s;
    let rest = remainder(a, size) + b;
    let m = rest.len() as int;
    let p = m / s;
    lemma_remainder_len(a, size);
    lemma_remainder_len(rest, size);
    lemma_remainder_len(a + b, size);
    lemma_fundamental_div_mod(n, s);
    lemma_fundamental_div_mod(m, s);
    lemma_mod_bound(m, s);
    assert(q * s == s * q) by (nonlinear_arith);
    assert(p * s == s * p) by (nonlinear_arith);
    assert(m == r + b.len());
    // The total length is `q` blocks more than what follows them.
    assert((a + b).len() == s * (q + p) + m % s) by {
        assert(s * (q + p) == s * q + s * p) by (nonlinear_arith);
    }
    lemma_div_multiples_vanish_fancy(q + p, m % s, s);
    assert((a + b).len() as int / s == q + p);
    assert((q + p) * s == q * s + p * s) by (nonlinear_arith);

    let left = whole_blocks(a + b, size);
    let right = whole_blocks(a, size) + whole_blocks(rest, size);
    assert(left.len() == right.len());
    assert forall|i: int| 0 <= i < left.len() implies left[i] == right[i] by {
        lemma_block_len(a + b, size, i);
        if i < q {
            lemma_block_len(a, size, i);
            assert(left[i] =~= whole_blocks(a, size)[i]);
        } else {
            let j = i - q;
            lemma_block_len(rest, size, j);
            assert(i * s == q * s + j * s) by (nonlinear_arith)
                requires
                    j == i - q,
            ;
            assert((i + 1) * s == q * s + (j + 1) * s) by (nonlinear_arith)
                requires
                    j == i - q,
            ;
            assert(left[i] =~= whole_blocks(rest, size)[j]);
        }
    }
    assert(left =~= right);
    assert(remainder(a + b, size) =~= remainder(rest, size));
}

/// Nothing is lost or counted twice: the whole blocks, end to end, followed by
/// the remainder are the input again.
pub proof fn lemma_blocks_cover(bytes: Seq<u8>, size: nat)
    requires
        size > 0,
    ensures
        concat_all(whole_blocks(bytes, size)) + remainder(bytes, size) == bytes,
{
    lemma_remainder_len(bytes, size);
    lemma_prefix_blocks(bytes, size, bytes.len() / size);
    let blocks = whole_blocks(bytes, size);
    assert(blocks.take(blocks.len() as int) =~= blocks);
    assert(bytes.subrange(0, (bytes.len() / size) * size as int) + remainder(bytes, size) =~= bytes);
}

/// The first `k` whole blocks, end to end, are the first `k * size` bytes.
proof fn lemma_prefix_blocks(bytes: Seq<u8>, size: nat, k: nat)
    requires
        size > 0,
        k <= bytes.len() / size,
    ensures
        k * size <= bytes.len(),
        concat_all(whole_blocks(bytes, size).take(k as int)) == bytes.subrange(0, k * size as int),
    decreases k,
{
    lemma_remainder_len(bytes, size);
    let s = size as int;
    let q = (bytes.len() / size) as int;
    assert(k * s <= q * s) by (nonlinear_arith)
        requires
            k <= q,
            s > 0,
    ;
    let blocks = whole_blocks(bytes, size);
    let front = blocks.take(k as int);
    if k == 0 {
        assert(concat_all(front) =~= bytes.subrange(0, 0));
    } else {
        lemma_prefix_blocks(bytes, size, (k - 1) as nat);
        lemma_block_len(bytes, size, k - 1);
        assert(front.drop_last() =~= blocks.take(k - 1));
        assert(front.last() == blocks[k - 1]);
        assert(k * s == (k - 1) * s + s) by (nonlinear_arith);
        assert(blocks[k - 1] == bytes.subrange((k - 1) * s, k * s));
        assert(bytes.subrange(0, (k - 1) * s) + bytes.subrange((k - 1) * s, k * s)
            =~= bytes.subrange(0, k * s));
    }
}

/// At a block's edge: input of exactly one block is one block with nothing
/// left over, one byte less is no block at all, and one byte more is one block
/// and that byte.
pub proof fn lemma_block_edges(bytes: Seq<u8>, size: nat)
    requires
        size > 0,
    ensures
        bytes.len() == size ==> whole_blocks(bytes, size) == seq![bytes] && remainder(
            bytes,
            size,
        ) == Seq::<u8>::empty(),
        bytes.len() + 1 == size ==> whole_blocks(bytes, size) == Seq::<Seq<u8>>::empty()
            && remainder(bytes, size) == bytes,
        bytes.len() == size + 1 && size > 1 ==> whole_blocks(bytes, size) == seq![
            bytes.subrange(0, size as int),
        ] && remainder(bytes, size) == seq![bytes[size as int]],
{
    let s = size as int;
    lemma_remainder_len(bytes, size);
    if bytes.len() == size {
        lemma_div_multiples_vanish_fancy(1, 0, s);
        assert(s * 1 + 0 == s);
        assert(bytes.len() as int / s == 1);
        lemma_block_len(bytes, size, 0);
        assert(whole_blocks(bytes, size) =~= seq![bytes]) by {
            assert(whole_blocks(bytes, size)[0] =~= bytes);
        }
        assert(remainder(bytes, size) =~= Seq::<u8>::empty());
    }
    if bytes.len() + 1 == size {
        lemma_short_input(bytes, size);
    }
    if bytes.len() == size + 1 && size > 1 {
        lemma_div_multiples_vanish_fancy(1, 1, s);
        assert(s * 1 + 1 == s + 1);
        assert(bytes.len() as int / s == 1);
        lemma_block_len(bytes, size, 0);
        assert(whole_blocks(bytes, size)[0] =~= bytes.subrange(0, s));
        assert(whole_blocks(bytes, size) =~= seq![bytes.subrange(0, s)]);
        assert(remainder(bytes, size) =~= seq![bytes[s]]);
    }
}

} // verus!
