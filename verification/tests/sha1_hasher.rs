//! The adapter with a real algorithm inside: SHA-1 as a block core, checked
//! against the digests that FIPS 180 and common libraries give.

use digest::{
    CoreWrapper, Digest, FixedOutput, FixedOutputCore, PartialBlock, Reset, Update, UpdateCore,
};
use vstd::seq::Seq;
use vstd::view::View;

const H0: [u32; 5] = [0x67452301, 0xEFCDAB89, 0x98BADCFE, 0x10325476, 0xC3D2E1F0];

/// The compression state of SHA-1 and the number of blocks it has taken.
#[derive(Clone)]
struct Sha1Core {
    h: [u32; 5],
    blocks: u64,
}

fn compress(h: &mut [u32; 5], block: &[u8; 64]) {
    let mut w = [0u32; 80];
    for t in 0..16 {
        w[t] = u32::from_be_bytes([block[4 * t], block[4 * t + 1], block[4 * t + 2], block[4 * t + 3]]);
    }
    for t in 16..80 {
        w[t] = (w[t - 3] ^ w[t - 8] ^ w[t - 14] ^ w[t - 16]).rotate_left(1);
    }
    let (mut a, mut b, mut c, mut d, mut e) = (h[0], h[1], h[2], h[3], h[4]);
    for t in 0..80 {
        let (f, k) = if t < 20 {
            ((b & c) | (!b & d), 0x5A827999u32)
        } else if t < 40 {
            (b ^ c ^ d, 0x6ED9EBA1u32)
        } else if t < 60 {
            ((b & c) | (b & d) | (c & d), 0x8F1BBCDCu32)
        } else {
            (b ^ c ^ d, 0xCA62C1D6u32)
        };
        let next = a
            .rotate_left(5)
            .wrapping_add(f)
            .wrapping_add(e)
            .wrapping_add(k)
            .wrapping_add(w[t]);
        e = d;
        d = c;
        c = b.rotate_left(30);
        b = a;
        a = next;
    }
    h[0] = h[0].wrapping_add(a);
    h[1] = h[1].wrapping_add(b);
    h[2] = h[2].wrapping_add(c);
    h[3] = h[3].wrapping_add(d);
    h[4] = h[4].wrapping_add(e);
}

impl Default for Sha1Core {
    fn default() -> Self {
        Sha1Core { h: H0, blocks: 0 }
    }
}

// The ghost members of the traits are never run.
impl View for Sha1Core {
    type V = ();

    fn view(&self) {}
}

impl UpdateCore<64> for Sha1Core {
    fn spec_update_block(_state: (), _block: Seq<u8>) {}

    fn lemma_block_size() {}

    fn update_blocks(&mut self, blocks: &[[u8; 64]]) {
        for block in blocks {
            compress(&mut self.h, block);
            self.blocks += 1;
        }
    }
}

impl FixedOutputCore<64, 20> for Sha1Core {
    fn spec_finalize_fixed(_state: (), _tail: Seq<u8>) -> Seq<u8> {
        unreachable!()
    }

    fn finalize_fixed_core(&mut self, buffer: &mut PartialBlock<64>, out: &mut [u8; 20]) {
        // The padding goes through the buffer like any input: it fills the
        // last block, or the last two.
        let held = buffer.position();
        let bits = (self.blocks * 64 + held as u64) * 8;
        let mut padding = vec![0x80u8];
        while (held + padding.len()) % 64 != 56 {
            padding.push(0);
        }
        padding.extend_from_slice(&bits.to_be_bytes());
        buffer.input_blocks(&padding, self);
        assert_eq!(buffer.position(), 0);
        for (i, word) in self.h.iter().enumerate() {
            out[4 * i..4 * i + 4].copy_from_slice(&word.to_be_bytes());
        }
    }
}

impl Reset for Sha1Core {
    fn spec_initial() {}

    fn reset(&mut self) {
        *self = Sha1Core::default();
    }
}

type Sha1 = CoreWrapper<Sha1Core, 64>;

fn hex(bytes: &[u8]) -> String {
    let mut text = String::new();
    for byte in bytes {
        text.push_str(&format!("{:02x}", byte));
    }
    text
}

fn message(len: usize) -> Vec<u8> {
    let mut bytes = Vec::new();
    for i in 0..len {
        bytes.push(((i * 7 + 3) % 251) as u8);
    }
    bytes
}

fn one_shot(data: &[u8]) -> [u8; 20] {
    <Sha1 as Digest<20>>::digest(data)
}

const ABC: &str = "a9993e364706816aba3e25717850c26c9cd0d89d";
const EMPTY: &str = "da39a3ee5e6b4b0d3255bfef95601890afd80709";

#[test]
fn abc_in_one_update() {
    let mut hasher = <Sha1 as Digest<20>>::new();
    Digest::update(&mut hasher, b"abc");
    assert_eq!(hex(&Digest::finalize(hasher)), ABC);
}

#[test]
fn abc_in_two_updates() {
    let mut hasher = <Sha1 as Digest<20>>::new();
    Digest::update(&mut hasher, b"ab");
    Digest::update(&mut hasher, b"c");
    assert_eq!(hex(&Digest::finalize(hasher)), ABC);
}

#[test]
fn abc_in_one_call() {
    assert_eq!(hex(&one_shot(b"abc")), ABC);
}

#[test]
fn published_vectors() {
    assert_eq!(
        hex(&one_shot(b"The quick brown fox jumps over the lazy dog")),
        "2fd4e1c67a2d28fced849ee1bb76e7391b93eb12"
    );
    assert_eq!(
        hex(&one_shot(b"abcdbcdecdefdefgefghfghighijhijkijkljklmklmnlmnomnopnopq")),
        "84983e441c3bd26ebaae4aa1f95129e5e54670f1"
    );
}

#[test]
fn empty_input_has_the_digest_of_a_new_hasher() {
    let of_empty = one_shot(b"");
    let of_new = Digest::finalize(<Sha1 as Digest<20>>::new());
    assert_eq!(of_empty, of_new);
    assert_eq!(hex(&of_empty), EMPTY);
}

#[test]
fn empty_update_changes_nothing() {
    let mut hasher = <Sha1 as Digest<20>>::new();
    Digest::update(&mut hasher, b"");
    Digest::update(&mut hasher, b"abc");
    Digest::update(&mut hasher, b"");
    assert_eq!(hex(&Digest::finalize(hasher)), ABC);
}

#[test]
fn every_split_point_gives_the_same_digest() {
    let data = message(200);
    let whole = one_shot(&data);
    assert_eq!(hex(&whole), "7f14732f2463d8b4456f01dcf111cd4572795f02");
    for cut in 0..=data.len() {
        let mut hasher = <Sha1 as Digest<20>>::new();
        Digest::update(&mut hasher, &data[..cut]);
        Digest::update(&mut hasher, &data[cut..]);
        assert_eq!(Digest::finalize(hasher), whole, "cut at {}", cut);
    }
}

#[test]
fn every_chunk_size_gives_the_same_digest() {
    let data = message(200);
    let whole = one_shot(&data);
    for size in 1..=data.len() {
        let mut hasher = <Sha1 as Digest<20>>::new();
        for chunk in data.chunks(size) {
            Digest::update(&mut hasher, chunk);
        }
        assert_eq!(Digest::finalize(hasher), whole, "chunks of {}", size);
    }
}

#[test]
fn three_pieces_across_block_edges() {
    let data = message(200);
    let whole = one_shot(&data);
    for first in [0usize, 1, 63, 64, 65, 127, 128] {
        for second in [0usize, 1, 63, 64, 65] {
            let mut hasher = <Sha1 as Digest<20>>::new();
            Digest::update(&mut hasher, &data[..first]);
            Digest::update(&mut hasher, &data[first..first + second]);
            Digest::update(&mut hasher, &data[first + second..]);
            assert_eq!(Digest::finalize(hasher), whole);
        }
    }
}

#[test]
fn lengths_at_the_block_edge() {
    let data = message(200);
    let below = hex(&one_shot(&data[..63]));
    let exact = hex(&one_shot(&data[..64]));
    let above = hex(&one_shot(&data[..65]));
    assert_eq!(below, "5e2cdca8ef9552e40ad2228153e778e586eebc50");
    assert_eq!(exact, "24d0ab86ac7542b26241687c97b79ae2cc22ac90");
    assert_eq!(above, "f71ba60012ec8015b3d5ba56798c4ff43aeb8beb");
    assert_ne!(below, exact);
    assert_ne!(exact, above);
    assert_ne!(below, above);
}

#[test]
fn lengths_at_the_second_block_edge() {
    let data = message(200);
    assert_eq!(hex(&one_shot(&data[..127])), "f5b00f038e9a8ef4711336bba10726c553d46063");
    assert_eq!(hex(&one_shot(&data[..128])), "0a1d410f25f3840e4498a2ad922fea55bb4b79da");
    assert_eq!(hex(&one_shot(&data[..129])), "d615ade267f1b3e48fc1360286ef4761a3e803c5");
}

#[test]
fn lengths_where_the_padding_needs_a_second_block() {
    let data = message(200);
    assert_eq!(hex(&one_shot(&data[..55])), "8829dc293fb52f1477aa7323310a5bcf949ce4f8");
    assert_eq!(hex(&one_shot(&data[..56])), "3c440665799f6f245108a068a11e59507d4f9e2c");
    assert_eq!(hex(&one_shot(&data[..57])), "ee3bd3dcaf8c3f17b919ec48238c7109187f6292");
    assert_eq!(hex(&one_shot(&data[..119])), "ea44537c014a6f0d332e845ed7f9331ae45440c5");
    assert_eq!(hex(&one_shot(&data[..120])), "939b2cbff515552d0bc4cfa0c332a57f9fce7736");
}

#[test]
fn finalize_reset_gives_the_digest_of_a_clone() {
    let mut hasher = <Sha1 as Digest<20>>::new();
    Digest::update(&mut hasher, b"abc");
    let of_clone = Digest::finalize(hasher.clone());
    let out = Digest::finalize_reset(&mut hasher);
    assert_eq!(out, of_clone);
    assert_eq!(hex(&out), ABC);
}

#[test]
fn after_finalize_reset_the_hasher_is_like_new() {
    let mut hasher = <Sha1 as Digest<20>>::new();
    Digest::update(&mut hasher, &message(150));
    let _ = Digest::finalize_reset(&mut hasher);
    assert_eq!(hex(&Digest::finalize(hasher.clone())), EMPTY);
    Digest::update(&mut hasher, b"ab");
    Digest::update(&mut hasher, b"c");
    assert_eq!(hex(&Digest::finalize_reset(&mut hasher)), ABC);
    let data = message(129);
    Digest::update(&mut hasher, &data);
    assert_eq!(Digest::finalize(hasher), one_shot(&data));
}

#[test]
fn finalize_into_reset_writes_the_digest_and_resets() {
    let mut hasher = Sha1::default();
    Update::update(&mut hasher, &message(65));
    let mut out = [0u8; 20];
    hasher.finalize_into_reset(&mut out);
    assert_eq!(hex(&out), "f71ba60012ec8015b3d5ba56798c4ff43aeb8beb");
    Update::update(&mut hasher, b"abc");
    let mut again = [0u8; 20];
    hasher.finalize_into(&mut again);
    assert_eq!(hex(&again), ABC);
}

#[test]
fn finalize_fixed_reset_returns_the_digest_and_resets() {
    let mut hasher = Sha1::default();
    Update::update(&mut hasher, b"abc");
    assert_eq!(hex(&hasher.finalize_fixed_reset()), ABC);
    assert_eq!(hex(&hasher.finalize_fixed_reset()), EMPTY);
    assert_eq!(hex(&hasher.finalize_fixed()), EMPTY);
}

#[test]
fn reset_abandons_the_message() {
    let mut hasher = <Sha1 as Digest<20>>::new();
    Digest::update(&mut hasher, &message(100));
    Digest::reset(&mut hasher);
    Digest::update(&mut hasher, b"abc");
    assert_eq!(hex(&Digest::finalize(hasher)), ABC);
}

#[test]
fn reset_of_a_new_hasher_changes_nothing() {
    let mut hasher = Sha1::default();
    Reset::reset(&mut hasher);
    assert_eq!(hex(&hasher.finalize_fixed()), EMPTY);
}

#[test]
fn chain_feeds_and_hands_back() {
    let hasher = <Sha1 as Digest<20>>::new();
    let out = Digest::finalize(Digest::chain(Digest::chain(hasher, b"a"), b"bc"));
    assert_eq!(hex(&out), ABC);
}

#[test]
fn output_size_is_the_digest_length() {
    assert_eq!(<Sha1 as Digest<20>>::output_size(), 20);
}

#[test]
fn clone_goes_its_own_way() {
    let mut hasher = Sha1::default();
    Update::update(&mut hasher, b"ab");
    let mut copy = hasher.clone();
    Update::update(&mut hasher, b"c");
    Update::update(&mut copy, b"d");
    assert_eq!(hex(&hasher.finalize_fixed()), ABC);
    assert_eq!(copy.finalize_fixed(), one_shot(b"abd"));
}

#[test]
fn write_takes_everything_and_never_fails() {
    let mut hasher = Sha1::default();
    assert_eq!(hasher.write(b"ab").unwrap(), 2);
    assert_eq!(hasher.write(b"").unwrap(), 0);
    assert!(hasher.flush().is_ok());
    assert_eq!(hasher.write(b"c").unwrap(), 1);
    assert!(hasher.flush().is_ok());
    assert_eq!(hex(&hasher.finalize_fixed()), ABC);
}

#[test]
fn write_of_a_long_input_reports_its_length() {
    let data = message(200);
    let mut hasher = Sha1::default();
    assert_eq!(hasher.write(&data).unwrap(), 200);
    assert_eq!(hasher.finalize_fixed(), one_shot(&data));
}
